//! Comparing JSON numbers: equality, and the order of the doubles nearest to
//! them.

use vstd::prelude::*;
use vstd::arithmetic::power2::{
    lemma2_to64, lemma2_to64_rest, lemma_pow2_pos, lemma_pow2_strictly_increases, lemma_pow2_unfold,
    pow2,
};
use crate::value::{number_model, JsonNumber, NumberModel, NEGATIVE_ZERO};

verus! {

/// Two to the power 52: the hidden bit of a double's mantissa.
pub const HIDDEN_BIT: u64 = 0x10_0000_0000_0000u64;

/// Two to the power 53: the first integer whose successor is no double.
pub const MANTISSA_LIMIT: u64 = 0x20_0000_0000_0000u64;

/// The biased exponent of a double whose mantissa, hidden bit included,
/// counts units: 1023 + 52.
pub const UNIT_EXPONENT: u64 = 1075u64;

/// A mantissa under way from an integer to the nearest double: `mantissa`
/// times two to the power `exponent - 1075` is the integer without what was
/// cut off; `half` is the last bit cut off, and `sticky` says whether any
/// bit cut off before it was set.
pub struct Scaled {
    pub mantissa: nat,
    pub exponent: nat,
    pub half: bool,
    pub sticky: bool,
}

/// Halves the mantissa until it has at most 53 bits.
pub open spec fn scale_down(s: Scaled) -> Scaled
    decreases s.mantissa,
{
    if s.mantissa < MANTISSA_LIMIT {
        s
    } else {
        scale_down(
            Scaled {
                mantissa: s.mantissa / 2,
                exponent: s.exponent + 1,
                half: s.mantissa % 2 == 1,
                sticky: s.sticky || s.half,
            },
        )
    }
}

/// Rounds to nearest, and to an even mantissa where two doubles are equally
/// near.
pub open spec fn round_nearest_even(s: Scaled) -> nat {
    if s.half && (s.sticky || s.mantissa % 2 == 1) {
        s.mantissa + 1
    } else {
        s.mantissa
    }
}

/// The biased exponent of a double with the value `mantissa` times two to
/// the power `exponent - 1075`, for a mantissa from 1 to two to the power 53.
pub open spec fn normal_exponent(mantissa: nat, exponent: nat) -> nat
    decreases
            (if mantissa < HIDDEN_BIT {
                HIDDEN_BIT - mantissa
            } else {
                0
            }),
{
    if mantissa == 0 || mantissa >= HIDDEN_BIT || exponent == 0 {
        exponent
    } else {
        normal_exponent(2 * mantissa, (exponent - 1) as nat)
    }
}

/// The mantissa of that double, hidden bit included.
pub open spec fn normal_mantissa(mantissa: nat, exponent: nat) -> nat
    decreases
            (if mantissa < HIDDEN_BIT {
                HIDDEN_BIT - mantissa
            } else {
                0
            }),
{
    if mantissa == 0 || mantissa >= HIDDEN_BIT || exponent == 0 {
        mantissa
    } else {
        normal_mantissa(2 * mantissa, (exponent - 1) as nat)
    }
}

/// The bit pattern of the double nearest to the integer `n`, ties to even.
pub open spec fn double_bits(n: nat) -> nat {
    if n == 0 {
        0
    } else {
        let s = scale_down(Scaled { mantissa: n, exponent: UNIT_EXPONENT as nat, half: false, sticky: false });
        let m = round_nearest_even(s);
        (normal_exponent(m, s.exponent) * HIDDEN_BIT + normal_mantissa(m, s.exponent) - HIDDEN_BIT) as nat
    }
}

/// A number by which finite doubles are ordered as their values are: the bit
/// pattern of a positive double, minus the bit pattern without the sign of a
/// negative one. Both zeros have the key 0.
pub open spec fn bits_key(bits: u64) -> int {
    if bits < NEGATIVE_ZERO {
        bits as int
    } else {
        -(bits - NEGATIVE_ZERO)
    }
}

/// The key of the double that a number is read as: the nearest double of an
/// integer, and the double itself.
pub open spec fn double_key(n: NumberModel) -> int {
    match n {
        NumberModel::Int(i) => if i >= 0 {
            double_bits(i as nat) as int
        } else {
            -(double_bits((-i) as nat) as int)
        },
        NumberModel::Float(b) => bits_key(b),
    }
}

/// How far apart two integers are.
pub open spec fn distance(a: int, b: int) -> int {
    if a >= b {
        a - b
    } else {
        b - a
    }
}

/// `n` has 53 bits once it is divided by two to the power `k`, and `m` is
/// the integer nearest to the quotient, the even one of two equally near.
pub open spec fn rounds_to(n: nat, k: nat, m: nat) -> bool {
    &&& HIDDEN_BIT * pow2(k) <= n < MANTISSA_LIMIT * pow2(k)
    &&& 2 * distance((m * pow2(k)) as int, n as int) <= pow2(k)
    &&& 2 * distance((m * pow2(k)) as int, n as int) == pow2(k) ==> m % 2 == 0
}

/// What was cut off from `n` on the way to `s`, after `i` halvings, is
/// `rest`; and `s` remembers of it what rounding needs.
pub open spec fn is_scaled(n: nat, s: Scaled, i: nat, rest: nat) -> bool {
    &&& s.exponent == UNIT_EXPONENT + i
    &&& n == s.mantissa * pow2(i) + rest
    &&& rest < pow2(i)
    &&& s.half == (i >= 1 && rest >= pow2((i - 1) as nat))
    &&& s.sticky == (rest != if s.half {
        pow2((i - 1) as nat)
    } else {
        0
    })
}

/// Halving keeps track of what is cut off, and ends with a mantissa of 53
/// bits where it halved at all.
proof fn lemma_scale_down(n: nat, s: Scaled, i: nat, rest: nat) -> (w: (nat, nat))
    requires
        is_scaled(n, s, i, rest),
        i == 0 || s.mantissa >= HIDDEN_BIT,
    ensures
        w.0 >= i,
        is_scaled(n, scale_down(s), w.0, w.1),
        scale_down(s).mantissa < MANTISSA_LIMIT,
        w.0 == 0 || scale_down(s).mantissa >= HIDDEN_BIT,
    decreases s.mantissa,
{
    if s.mantissa < MANTISSA_LIMIT {
        (i, rest)
    } else {
        let bit: nat = s.mantissa % 2;
        let next = Scaled {
            mantissa: s.mantissa / 2,
            exponent: s.exponent + 1,
            half: bit == 1,
            sticky: s.sticky || s.half,
        };
        let more: nat = bit * pow2(i) + rest;
        lemma_pow2_unfold(i + 1);
        lemma_pow2_pos(i);
        assert(s.mantissa == 2 * (s.mantissa / 2) + bit);
        assert(n == next.mantissa * pow2(i + 1) + more) by (nonlinear_arith)
            requires
                n == s.mantissa * pow2(i) + rest,
                s.mantissa == 2 * next.mantissa + bit,
                pow2(i + 1) == 2 * pow2(i),
                more == bit * pow2(i) + rest,
        ;
        assert(more < pow2(i + 1) && (bit == 1 <==> more >= pow2(i))) by (nonlinear_arith)
            requires
                more == bit * pow2(i) + rest,
                rest < pow2(i),
                bit == 0 || bit == 1,
                pow2(i + 1) == 2 * pow2(i),
        ;
        assert(bit * pow2(i) == if bit == 1 {
            pow2(i)
        } else {
            0
        }) by (nonlinear_arith)
            requires
                bit == 0 || bit == 1,
        ;
        if i >= 1 {
            lemma_pow2_pos((i - 1) as nat);
        }
        assert(is_scaled(n, next, i + 1, more));
        lemma_scale_down(n, next, i + 1, more)
    }
}

/// Doubling a mantissa up to 53 bits keeps its value.
proof fn lemma_normal(mantissa: nat, exponent: nat, j: nat)
    requires
        HIDDEN_BIT <= mantissa * pow2(j) < MANTISSA_LIMIT,
        j <= exponent,
    ensures
        normal_mantissa(mantissa, exponent) == mantissa * pow2(j),
        normal_exponent(mantissa, exponent) == exponent - j,
    decreases j,
{
    lemma2_to64();
    if j == 0 {
        assert(mantissa * pow2(0) == mantissa) by (nonlinear_arith)
            requires
                pow2(0) == 1,
        ;
    } else {
        lemma_pow2_unfold(j);
        lemma_pow2_pos((j - 1) as nat);
        assert(mantissa * pow2(j) == (2 * mantissa) * pow2((j - 1) as nat)) by (nonlinear_arith)
            requires
                pow2(j) == 2 * pow2((j - 1) as nat),
        ;
        assert(mantissa < HIDDEN_BIT && mantissa > 0) by (nonlinear_arith)
            requires
                HIDDEN_BIT <= (2 * mantissa) * pow2((j - 1) as nat) < MANTISSA_LIMIT,
                pow2((j - 1) as nat) >= 1,
                HIDDEN_BIT == 0x10_0000_0000_0000,
                MANTISSA_LIMIT == 0x20_0000_0000_0000,
        ;
        lemma_normal(2 * mantissa, (exponent - 1) as nat, (j - 1) as nat);
    }
}

/// The double of an integer of at most 53 bits holds the integer itself:
/// its mantissa is the integer times a power of two, and its exponent is
/// lower by as much.
pub proof fn lemma_double_bits_exact(n: nat, j: nat)
    requires
        HIDDEN_BIT <= n * pow2(j) < MANTISSA_LIMIT,
        j <= UNIT_EXPONENT,
    ensures
        double_bits(n) == (UNIT_EXPONENT - j) * HIDDEN_BIT + n * pow2(j) - HIDDEN_BIT,
{
    lemma_pow2_pos(j);
    assert(0 < n < MANTISSA_LIMIT) by (nonlinear_arith)
        requires
            HIDDEN_BIT <= n * pow2(j) < MANTISSA_LIMIT,
            pow2(j) >= 1,
            HIDDEN_BIT == 0x10_0000_0000_0000,
    ;
    let start = Scaled { mantissa: n, exponent: UNIT_EXPONENT as nat, half: false, sticky: false };
    assert(scale_down(start) == start);
    assert(round_nearest_even(start) == n);
    lemma_normal(n, UNIT_EXPONENT as nat, j);
}

/// The double of an integer of 53 bits or more is the nearest one: with the
/// integer divided by the power of two that leaves it 53 bits, the mantissa
/// is the integer nearest to the quotient, the even one of two equally
/// near, and the exponent is higher by that power.
pub proof fn lemma_double_bits_nearest(n: nat)
    requires
        n >= HIDDEN_BIT,
    ensures
        exists|k: nat, m: nat| #[trigger]
            rounds_to(n, k, m) && double_bits(n) == (UNIT_EXPONENT + k) * HIDDEN_BIT + m - HIDDEN_BIT,
{
    lemma2_to64();
    let start = Scaled { mantissa: n, exponent: UNIT_EXPONENT as nat, half: false, sticky: false };
    assert(n == n * pow2(0) + 0) by (nonlinear_arith)
        requires
            pow2(0) == 1,
    ;
    assert(is_scaled(n, start, 0, 0));
    let (k, rest) = lemma_scale_down(n, start, 0, 0);
    let s = scale_down(start);
    let q = s.mantissa;
    let m = round_nearest_even(s);
    let unit = pow2(k);
    lemma_pow2_pos(k);
    if k == 0 {
        assert(q == n) by (nonlinear_arith)
            requires
                n == q * pow2(0) + rest,
                rest < pow2(0),
                pow2(0) == 1,
        ;
    }
    assert(q >= HIDDEN_BIT);
    let half_unit: int = if k >= 1 {
        pow2((k - 1) as nat) as int
    } else {
        0
    };
    if k >= 1 {
        lemma_pow2_unfold(k);
        lemma_pow2_pos((k - 1) as nat);
    }
    assert(HIDDEN_BIT * unit <= n < MANTISSA_LIMIT * unit) by (nonlinear_arith)
        requires
            n == q * unit + rest,
            rest < unit,
            HIDDEN_BIT <= q < MANTISSA_LIMIT,
            unit >= 1,
    ;
    assert(m * unit - n == (m - q) * unit - rest) by (nonlinear_arith)
        requires
            n == q * unit + rest,
    ;
    assert((m - q) * unit == if m == q {
        0
    } else {
        unit as int
    }) by (nonlinear_arith)
        requires
            m == q || m == q + 1,
    ;
    assert(rounds_to(n, k, m));
    assert(normal_mantissa(m, s.exponent) == m);
    assert(normal_exponent(m, s.exponent) == s.exponent);
}

proof fn lemma_pow2_le(a: nat, b: nat)
    requires
        a <= b,
    ensures
        pow2(a) <= pow2(b),
{
    if a < b {
        lemma_pow2_strictly_increases(a, b);
    }
}

/// The bit pattern of the double nearest to `n`.
pub fn double_bits_of(n: u64) -> (r: u64)
    ensures
        r == double_bits(n as nat),
        r < NEGATIVE_ZERO,
{
    if n == 0 {
        return 0;
    }
    proof {
        lemma2_to64();
        lemma2_to64_rest();
    }
    let mut mantissa: u64 = n;
    let mut exponent: u64 = UNIT_EXPONENT;
    let mut half: bool = false;
    let mut sticky: bool = false;
    let ghost start = Scaled { mantissa: n as nat, exponent: UNIT_EXPONENT as nat, half: false, sticky: false };
    let ghost mut steps: nat = 0;
    while mantissa >= MANTISSA_LIMIT
        invariant
            mantissa > 0,
            exponent == UNIT_EXPONENT + steps,
            steps <= 11,
            mantissa as nat * pow2(steps) <= n,
            scale_down(start) == scale_down(
                Scaled { mantissa: mantissa as nat, exponent: exponent as nat, half, sticky },
            ),
        decreases mantissa,
    {
        proof {
            lemma2_to64();
            lemma_pow2_unfold(steps + 1);
            assert((mantissa / 2) as nat * (2 * pow2(steps)) <= mantissa as nat * pow2(steps))
                by (nonlinear_arith)
                requires
                    mantissa >= 0,
            ;
            if steps >= 11 {
                lemma_pow2_le(11, steps);
                assert(mantissa as nat * pow2(steps) >= 0x20_0000_0000_0000 * 0x800)
                    by (nonlinear_arith)
                    requires
                        mantissa >= 0x20_0000_0000_0000,
                        pow2(steps) >= 0x800,
                ;
            }
            steps = steps + 1;
        }
        sticky = sticky || half;
        half = mantissa % 2 == 1;
        mantissa = mantissa / 2;
        exponent = exponent + 1;
    }
    let rounded: u64 = if half && (sticky || mantissa % 2 == 1) {
        mantissa + 1
    } else {
        mantissa
    };
    let mut m: u64 = rounded;
    let mut e: u64 = exponent;
    let ghost mut doublings: nat = 0;
    while m < HIDDEN_BIT && e > 0
        invariant
            0 < m <= MANTISSA_LIMIT,
            doublings <= 52,
            pow2(doublings) <= m,
            e + doublings == exponent,
            UNIT_EXPONENT <= exponent <= UNIT_EXPONENT + 11,
            normal_exponent(rounded as nat, exponent as nat) == normal_exponent(m as nat, e as nat),
            normal_mantissa(rounded as nat, exponent as nat) == normal_mantissa(m as nat, e as nat),
        decreases
                (if m < HIDDEN_BIT {
                    HIDDEN_BIT - m
                } else {
                    0
                }),
    {
        proof {
            lemma2_to64_rest();
            if doublings >= 52 {
                lemma_pow2_le(52, doublings);
            }
            lemma_pow2_unfold(doublings + 1);
            doublings = doublings + 1;
        }
        m = 2 * m;
        e = e - 1;
    }
    assert(e * HIDDEN_BIT <= 1086 * HIDDEN_BIT) by (nonlinear_arith)
        requires
            e <= 1086,
    ;
    e * HIDDEN_BIT + (m - HIDDEN_BIT)
}

/// The order key of the double that `n` is read as.
pub fn key_of(n: &JsonNumber) -> (r: i128)
    ensures
        r == double_key(number_model(*n)),
{
    match n {
        JsonNumber::PosInt(u) => double_bits_of(*u) as i128,
        JsonNumber::NegInt(i) => {
            if *i >= 0 {
                double_bits_of(*i as u64) as i128
            } else {
                let magnitude: u64 = (-(*i as i128)) as u64;
                -(double_bits_of(magnitude) as i128)
            }
        },
        JsonNumber::Float(b) => {
            if *b < NEGATIVE_ZERO {
                *b as i128
            } else {
                -((*b - NEGATIVE_ZERO) as i128)
            }
        },
    }
}

/// Whether `a` is below `b`, both read as doubles.
pub fn number_less(a: &JsonNumber, b: &JsonNumber) -> (r: bool)
    ensures
        r == (double_key(number_model(*a)) < double_key(number_model(*b))),
{
    key_of(a) < key_of(b)
}

/// Whether `a` is at most `b`, both read as doubles.
pub fn number_at_most(a: &JsonNumber, b: &JsonNumber) -> (r: bool)
    ensures
        r == (double_key(number_model(*a)) <= double_key(number_model(*b))),
{
    key_of(a) <= key_of(b)
}

/// Whether two numbers are the same: two integers of one value, or two
/// doubles of one value.
pub fn numbers_equal(a: &JsonNumber, b: &JsonNumber) -> (r: bool)
    ensures
        r == (number_model(*a) == number_model(*b)),
{
    match (a, b) {
        (JsonNumber::PosInt(x), JsonNumber::PosInt(y)) => *x == *y,
        (JsonNumber::NegInt(x), JsonNumber::NegInt(y)) => *x == *y,
        (JsonNumber::PosInt(x), JsonNumber::NegInt(y)) => *y >= 0 && *x == *y as u64,
        (JsonNumber::NegInt(x), JsonNumber::PosInt(y)) => *x >= 0 && *y == *x as u64,
        (JsonNumber::Float(x), JsonNumber::Float(y)) => {
            let cx: u64 = if *x == NEGATIVE_ZERO { 0 } else { *x };
            let cy: u64 = if *y == NEGATIVE_ZERO { 0 } else { *y };
            cx == cy
        },
        _ => false,
    }
}

/// A copy of a number.
pub fn clone_number(n: &JsonNumber) -> (r: JsonNumber)
    ensures
        r == *n,
{
    match n {
        JsonNumber::PosInt(u) => JsonNumber::PosInt(*u),
        JsonNumber::NegInt(i) => JsonNumber::NegInt(*i),
        JsonNumber::Float(b) => JsonNumber::Float(*b),
    }
}

} // verus!
