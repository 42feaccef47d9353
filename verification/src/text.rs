//! Text as sequences of characters.

use vstd::prelude::*;
use vstd::string::StringExecFns;

verus! {

/// `String::push`, which is not proved here: the character is added at the
/// end.
pub assume_specification[ std::string::String::push ](s: &mut std::string::String, c: char)
    ensures
        final(s)@ == old(s)@.push(c),
;

/// The characters of `s`, in order.
pub fn chars_of(s: &str) -> (r: Vec<char>)
    ensures
        r@ == s@,
{
    let mut out: Vec<char> = Vec::new();
    for c in it: s.chars()
        invariant
            it.seq() == s@,
            out@ == s@.take(it.index() as int),
    {
        out.push(c);
    }
    out
}

/// The string made of `chars[from..to]`.
pub fn string_of(chars: &Vec<char>, from: usize, to: usize) -> (r: String)
    requires
        from <= to <= chars.len(),
    ensures
        r@ == chars@.subrange(from as int, to as int),
{
    let mut out = String::new();
    let mut i: usize = from;
    while i < to
        invariant
            from <= i <= to <= chars.len(),
            out@ == chars@.subrange(from as int, i as int),
        decreases to - i,
    {
        out.push(chars[i]);
        i += 1;
    }
    out
}

/// Whether `char::is_whitespace` holds of a character: whether Unicode
/// gives it the property White_Space.
pub uninterp spec fn is_whitespace(c: char) -> bool;

/// `char::is_whitespace`, which is not proved here: its result depends on
/// the character alone.
pub assume_specification[ char::is_whitespace ](c: char) -> (r: bool)
    ensures
        r == is_whitespace(c),
;

/// The offset of the first character from `i` on that is no whitespace.
pub open spec fn content_start(s: Seq<char>, i: int) -> int
    decreases s.len() - i,
{
    if 0 <= i < s.len() && is_whitespace(s[i]) {
        content_start(s, i + 1)
    } else {
        i
    }
}

/// The offset after the last character before `j` that is no whitespace.
pub open spec fn content_end(s: Seq<char>, j: int) -> int
    decreases j,
{
    if 0 < j <= s.len() && is_whitespace(s[j - 1]) {
        content_end(s, j - 1)
    } else {
        j
    }
}

/// `s[from..to]` without the whitespace at its start and at its end.
pub open spec fn trimmed(s: Seq<char>, from: int, to: int) -> Seq<char> {
    let part = s.subrange(from, to);
    let a = content_start(part, 0);
    if a >= part.len() {
        Seq::empty()
    } else {
        part.subrange(a, content_end(part, part.len() as int))
    }
}

/// The offset of the first `c` in `s` from `i` on, or the length of `s`.
pub open spec fn first_index_of(s: Seq<char>, c: char, i: int) -> int
    decreases s.len() - i,
{
    if 0 <= i < s.len() && s[i] != c {
        first_index_of(s, c, i + 1)
    } else {
        i
    }
}

/// The first `c` from `i` on is found at `i` or after it, within `s`.
pub proof fn lemma_first_index_bounds(s: Seq<char>, c: char, i: int)
    requires
        0 <= i <= s.len(),
    ensures
        i <= first_index_of(s, c, i) <= s.len(),
    decreases s.len() - i,
{
    if i < s.len() && s[i] != c {
        lemma_first_index_bounds(s, c, i + 1);
    }
}

/// The offset of the first `c` from `i` on, or the length of `chars`.
pub fn find_char(chars: &Vec<char>, c: char, i: usize) -> (r: usize)
    requires
        i <= chars.len(),
    ensures
        r == first_index_of(chars@, c, i as int),
        i <= r <= chars.len(),
{
    let mut j: usize = i;
    while j < chars.len() && chars[j] != c
        invariant
            i <= j <= chars.len(),
            first_index_of(chars@, c, i as int) == first_index_of(chars@, c, j as int),
        decreases chars.len() - j,
    {
        j += 1;
    }
    j
}

/// `chars[from..to]` without the whitespace at its start and at its end.
pub fn trim_of(chars: &Vec<char>, from: usize, to: usize) -> (r: String)
    requires
        from <= to <= chars.len(),
    ensures
        r@ == trimmed(chars@, from as int, to as int),
{
    let ghost part = chars@.subrange(from as int, to as int);
    let mut a: usize = from;
    while a < to && chars[a].is_whitespace()
        invariant
            from <= a <= to <= chars.len(),
            part == chars@.subrange(from as int, to as int),
            content_start(part, 0) == content_start(part, a - from),
        decreases to - a,
    {
        assert(part[a - from] == chars@[a as int]);
        a += 1;
    }
    assert(a < to ==> part[a - from] == chars@[a as int]);
    if a >= to {
        return String::new();
    }
    let mut b: usize = to;
    while chars[b - 1].is_whitespace()
        invariant
            from <= a < b <= to <= chars.len(),
            !is_whitespace(chars@[a as int]),
            part == chars@.subrange(from as int, to as int),
            content_end(part, part.len() as int) == content_end(part, b - from),
        decreases b,
    {
        assert(part[b - 1 - from] == chars@[b - 1]);
        b -= 1;
    }
    proof {
        assert(part[b - 1 - from] == chars@[b - 1]);
        assert(part.subrange(a - from, b - from) =~= chars@.subrange(a as int, b as int));
    }
    string_of(chars, a, b)
}

/// A line without the carriage return at its end, where it has one.
pub open spec fn without_return(line: Seq<char>) -> Seq<char> {
    if line.len() > 0 && line.last() == '\r' {
        line.drop_last()
    } else {
        line
    }
}

/// The lines of `s` from the offset `i` on: each ends before a line feed,
/// and loses a carriage return that stands before that line feed; what
/// follows the last line feed is a line if it is not empty.
pub open spec fn lines_from(s: Seq<char>, i: int) -> Seq<Seq<char>>
    decreases s.len() - i,
{
    if !(0 <= i < s.len()) {
        Seq::empty()
    } else {
        let end = first_index_of(s, '\n', i);
        if end >= s.len() {
            seq![s.subrange(i, s.len() as int)]
        } else {
            proof {
                lemma_first_index_bounds(s, '\n', i);
            }
            seq![without_return(s.subrange(i, end))] + lines_from(s, end + 1)
        }
    }
}

/// The lines of a text.
pub open spec fn lines_of(s: Seq<char>) -> Seq<Seq<char>> {
    lines_from(s, 0)
}

/// The texts of a list of strings.
pub open spec fn texts(strings: Seq<String>) -> Seq<Seq<char>> {
    strings.map_values(|s: String| s@)
}

/// The lines of a text.
pub fn split_lines(chars: &Vec<char>) -> (r: Vec<String>)
    ensures
        texts(r@) == lines_of(chars@),
{
    let mut lines: Vec<String> = Vec::new();
    let mut i: usize = 0;
    assert(texts(lines@) =~= Seq::empty());
    assert(Seq::<Seq<char>>::empty() + lines_from(chars@, 0) =~= lines_from(chars@, 0));
    while i < chars.len()
        invariant
            i <= chars.len(),
            lines_of(chars@) == texts(lines@) + lines_from(chars@, i as int),
        decreases chars.len() - i,
    {
        let end = find_char(chars, '\n', i);
        let ghost before = texts(lines@);
        if end >= chars.len() {
            let line = string_of(chars, i, chars.len());
            lines.push(line);
            proof {
                assert(texts(lines@) =~= before.push(line@));
                assert(before + seq![line@] =~= before.push(line@));
                assert(lines_from(chars@, chars.len() as int) =~= Seq::empty());
                assert(before.push(line@) + Seq::<Seq<char>>::empty() =~= before.push(line@));
            }
            i = chars.len();
        } else {
            let stop = if end > i && chars[end - 1] == '\r' {
                end - 1
            } else {
                end
            };
            let line = string_of(chars, i, stop);
            proof {
                let whole = chars@.subrange(i as int, end as int);
                if end > i {
                    assert(whole.last() == chars@[end - 1]);
                }
                assert(line@ =~= without_return(whole));
            }
            lines.push(line);
            proof {
                assert(texts(lines@) =~= before.push(line@));
                assert(before + (seq![line@] + lines_from(chars@, end + 1)) =~= before.push(line@)
                    + lines_from(chars@, end + 1));
            }
            i = end + 1;
        }
    }
    proof {
        assert(texts(lines@) + Seq::<Seq<char>>::empty() =~= texts(lines@));
    }
    lines
}

/// The texts joined, with `separator` between each two.
pub open spec fn join(parts: Seq<Seq<char>>, separator: char) -> Seq<char>
    decreases parts.len(),
{
    if parts.len() == 0 {
        Seq::empty()
    } else if parts.len() == 1 {
        parts[0]
    } else {
        join(parts.drop_last(), separator) + seq![separator] + parts.last()
    }
}

/// The strings joined, with `separator` between each two.
pub fn join_strings(parts: &Vec<String>, separator: char) -> (r: String)
    ensures
        r@ == join(texts(parts@), separator),
{
    let ghost all = texts(parts@);
    let mut out = String::new();
    let mut i: usize = 0;
    assert(all.take(0) =~= Seq::empty());
    while i < parts.len()
        invariant
            i <= parts.len(),
            all == texts(parts@),
            out@ == join(all.take(i as int), separator),
        decreases parts.len() - i,
    {
        proof {
            assert(all.take(i + 1).drop_last() =~= all.take(i as int));
            assert(all.take(i + 1).last() == parts@[i as int]@);
            if i == 0 {
                assert(all.take(1)[0] == parts@[0]@);
                assert(Seq::<char>::empty() + parts@[0]@ =~= parts@[0]@);
            }
        }
        if i > 0 {
            out.push(separator);
        }
        out.append(parts[i].as_str());
        i += 1;
    }
    assert(all.take(parts.len() as int) =~= all);
    out
}

} // verus!
