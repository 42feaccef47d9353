use flowscript::number::{double_bits_of, key_of, number_at_most, number_less, numbers_equal};
use flowscript::value::JsonNumber;

fn samples() -> Vec<u64> {
    let mut out = vec![0u64, 1, 2, 3, 7, 1023, 1024, u64::MAX, u64::MAX - 1, u64::MAX - 1024, u64::MAX - 2048];
    for shift in 0..64u32 {
        let p = 1u64 << shift;
        for d in [0u64, 1, 2, 3] {
            out.push(p.wrapping_add(d));
            out.push(p.wrapping_sub(d));
        }
        out.push(p | (p >> 1));
        out.push(p | (p >> 53));
        out.push(p | (p >> 54));
        out.push(p | (p >> 53) | 1);
        out.push(p | (p >> 52) | (p >> 53));
        out.push(p | (p >> 52) | (p >> 53) | 1);
        out.push(p.wrapping_mul(3) / 2 + 1);
    }
    out
}

#[test]
fn nearest_double_of_integer() {
    for n in samples() {
        assert_eq!(double_bits_of(n), (n as f64).to_bits(), "for {}", n);
    }
}

#[test]
fn nearest_double_exact_values() {
    assert_eq!(double_bits_of(0), 0);
    assert_eq!(double_bits_of(1), 0x3FF0_0000_0000_0000);
    assert_eq!(double_bits_of(2), 0x4000_0000_0000_0000);
    assert_eq!(double_bits_of(3), 0x4008_0000_0000_0000);
    assert_eq!(double_bits_of((1 << 53) + 1), 0x4340_0000_0000_0000);
    assert_eq!(double_bits_of((1 << 53) + 3), 0x4340_0000_0000_0002);
    assert_eq!(double_bits_of(u64::MAX), 0x43F0_0000_0000_0000);
}

fn as_double(n: &JsonNumber) -> f64 {
    match n {
        JsonNumber::PosInt(u) => *u as f64,
        JsonNumber::NegInt(i) => *i as f64,
        JsonNumber::Float(b) => f64::from_bits(*b),
    }
}

fn numbers() -> Vec<JsonNumber> {
    let mut out = Vec::new();
    for u in [0u64, 1, 2, 1 << 53, (1 << 53) + 1, (1 << 53) + 2, u64::MAX, 1 << 63] {
        out.push(JsonNumber::PosInt(u));
    }
    for i in [-1i64, -2, i64::MIN, i64::MIN + 1, -(1 << 53), -(1 << 53) - 1, 5] {
        out.push(JsonNumber::NegInt(i));
    }
    for x in [0.0f64, -0.0, 1.0, -1.0, 0.5, 1e300, -1e300, f64::MAX, f64::MIN, f64::MIN_POSITIVE, 5e-324, -5e-324, 9007199254740992.0, 1.8446744073709552e19, -9.223372036854776e18] {
        out.push(JsonNumber::Float(x.to_bits()));
    }
    out
}

#[test]
fn order_agrees_with_doubles() {
    let all = numbers();
    for a in &all {
        for b in &all {
            assert_eq!(number_less(a, b), as_double(a) < as_double(b), "{:?} < {:?}", a, b);
            assert_eq!(number_at_most(a, b), as_double(a) <= as_double(b), "{:?} <= {:?}", a, b);
        }
    }
}

#[test]
fn keys_of_zeros_agree() {
    assert_eq!(key_of(&JsonNumber::Float(0.0f64.to_bits())), 0);
    assert_eq!(key_of(&JsonNumber::Float((-0.0f64).to_bits())), 0);
    assert_eq!(key_of(&JsonNumber::PosInt(0)), 0);
    assert_eq!(key_of(&JsonNumber::NegInt(-1)), -0x3FF0_0000_0000_0000);
}

#[test]
fn equality_keeps_integers_and_doubles_apart() {
    let one = JsonNumber::PosInt(1);
    assert!(numbers_equal(&one, &JsonNumber::PosInt(1)));
    assert!(numbers_equal(&one, &JsonNumber::NegInt(1)));
    assert!(!numbers_equal(&one, &JsonNumber::PosInt(2)));
    assert!(!numbers_equal(&one, &JsonNumber::Float(1.0f64.to_bits())));
    assert!(!numbers_equal(&JsonNumber::PosInt(u64::MAX), &JsonNumber::NegInt(-1)));
    assert!(numbers_equal(&JsonNumber::NegInt(-5), &JsonNumber::NegInt(-5)));
    assert!(numbers_equal(&JsonNumber::Float(0.0f64.to_bits()), &JsonNumber::Float((-0.0f64).to_bits())));
    assert!(numbers_equal(&JsonNumber::Float(2.5f64.to_bits()), &JsonNumber::Float(2.5f64.to_bits())));
    assert!(!numbers_equal(&JsonNumber::Float(2.5f64.to_bits()), &JsonNumber::Float((-2.5f64).to_bits())));
}
