//! Putting corrected code into a source file: the lines of the file from
//! the first line of the new code to its last line give way to the new code.

use vstd::prelude::*;
use crate::table::same_text;
use crate::text::{chars_of, join, join_strings, lines_of, split_lines, texts};

verus! {

/// The first line that is not empty.
pub open spec fn first_content(lines: Seq<Seq<char>>) -> Option<Seq<char>>
    decreases lines.len(),
{
    if lines.len() == 0 {
        None
    } else if lines[0].len() > 0 {
        Some(lines[0])
    } else {
        first_content(lines.drop_first())
    }
}

/// The last line that is not empty.
pub open spec fn last_content(lines: Seq<Seq<char>>) -> Option<Seq<char>>
    decreases lines.len(),
{
    if lines.len() == 0 {
        None
    } else if lines.last().len() > 0 {
        Some(lines.last())
    } else {
        last_content(lines.drop_last())
    }
}

/// The lines of the old file that give way: from `start` to `end`, both
/// counted.
pub struct Span {
    pub start: int,
    pub end: int,
}

/// Looks for the span from the line `i` of the old file on, with `start`
/// found so far: a line equal to the first line of the new code starts the
/// span, also where one started it before; the first line after that equal
/// to the last line of the new code ends it, and the search. Empty lines do
/// neither. Where nothing ends the span, its end is 0.
pub open spec fn find_span(old: Seq<Seq<char>>, first: Seq<char>, last: Seq<char>, i: int, start: int) -> Span
    decreases old.len() - i,
{
    if !(0 <= i < old.len()) {
        Span { start, end: 0 }
    } else if old[i].len() == 0 {
        find_span(old, first, last, i + 1, start)
    } else if old[i] == first {
        find_span(old, first, last, i + 1, i)
    } else if old[i] == last {
        Span { start, end: i }
    } else {
        find_span(old, first, last, i + 1, start)
    }
}

/// The new contents of a file with the contents `old` when the code `new`
/// is put into it: the new code alone where no span is found; else the old
/// lines with the span replaced by the lines of the new code, joined by
/// line feeds. `None` where the new code has no line that is not empty, and
/// where the span found ends more than one line before it starts.
pub open spec fn replaced(old: Seq<char>, new: Seq<char>) -> Option<Seq<char>> {
    let new_lines = lines_of(new);
    let old_lines = lines_of(old);
    match (first_content(new_lines), last_content(new_lines)) {
        (Some(first), Some(last)) => {
            let span = find_span(old_lines, first, last, 0, 0);
            if span.start == 0 && span.end == 0 {
                Some(new)
            } else if span.start > span.end + 1 {
                None
            } else {
                Some(
                    join(
                        old_lines.subrange(0, span.start) + new_lines + old_lines.subrange(
                            span.end + 1,
                            old_lines.len() as int,
                        ),
                        '\n',
                    ),
                )
            }
        },
        _ => None,
    }
}

/// The index of the first line that is not empty.
fn find_first_content(lines: &Vec<String>) -> (r: Option<usize>)
    ensures
        match r {
            Some(i) => i < lines.len() && first_content(texts(lines@)) == Some(lines[i as int]@),
            None => first_content(texts(lines@)) is None,
        },
{
    let ghost all = texts(lines@);
    let mut i: usize = 0;
    assert(all.skip(0) =~= all);
    while i < lines.len()
        invariant
            i <= lines.len(),
            all == texts(lines@),
            first_content(all) == first_content(all.skip(i as int)),
        decreases lines.len() - i,
    {
        proof {
            assert(all.skip(i as int)[0] == lines@[i as int]@);
            assert(all.skip(i as int).drop_first() =~= all.skip(i + 1));
        }
        if !lines[i].as_str().is_empty() {
            return Some(i);
        }
        i += 1;
    }
    None
}

/// The index of the last line that is not empty.
fn find_last_content(lines: &Vec<String>) -> (r: Option<usize>)
    ensures
        match r {
            Some(i) => i < lines.len() && last_content(texts(lines@)) == Some(lines[i as int]@),
            None => last_content(texts(lines@)) is None,
        },
{
    let ghost all = texts(lines@);
    let mut i: usize = lines.len();
    assert(all.take(i as int) =~= all);
    while i > 0
        invariant
            i <= lines.len(),
            all == texts(lines@),
            last_content(all) == last_content(all.take(i as int)),
        decreases i,
    {
        proof {
            assert(all.take(i as int).last() == lines@[i - 1]@);
            assert(all.take(i as int).drop_last() =~= all.take(i - 1));
        }
        i -= 1;
        if !lines[i].as_str().is_empty() {
            return Some(i);
        }
    }
    None
}

/// The span of the old lines that gives way.
fn locate_span(old: &Vec<String>, first: &str, last: &str) -> (r: (usize, usize))
    ensures
        r.0 == find_span(texts(old@), first@, last@, 0, 0).start,
        r.1 == find_span(texts(old@), first@, last@, 0, 0).end,
        r.0 < old.len() || r.0 == 0,
        r.1 < old.len() || r.1 == 0,
{
    let ghost all = texts(old@);
    let mut start: usize = 0;
    let mut i: usize = 0;
    while i < old.len()
        invariant
            i <= old.len(),
            all == texts(old@),
            start < old.len() || start == 0,
            find_span(all, first@, last@, 0, 0) == find_span(all, first@, last@, i as int, start as int),
        decreases old.len() - i,
    {
        assert(all[i as int] == old@[i as int]@);
        let line = old[i].as_str();
        if line.is_empty() {
        } else if same_text(line, first) {
            start = i;
        } else if same_text(line, last) {
            return (start, i);
        }
        i += 1;
    }
    (start, 0)
}

/// The text of an optional string.
pub open spec fn text_of(r: Option<String>) -> Option<Seq<char>> {
    match r {
        Some(s) => Some(s@),
        None => None,
    }
}

/// The new contents of a file with the contents `old_contents` when
/// `new_code` is put into it. `None` where the new code has no line that is
/// not empty, and where the lines to give way end before they start.
pub fn replace_code(old_contents: &str, new_code: &str) -> (r: Option<String>)
    ensures
        text_of(r) == replaced(old_contents@, new_code@),
{
    let new_chars = chars_of(new_code);
    let new_lines = split_lines(&new_chars);
    let first = match find_first_content(&new_lines) {
        Some(i) => i,
        None => {
            return None;
        },
    };
    let last = match find_last_content(&new_lines) {
        Some(i) => i,
        None => {
            return None;
        },
    };
    let old_chars = chars_of(old_contents);
    let old_lines = split_lines(&old_chars);
    let (start, end) = locate_span(&old_lines, new_lines[first].as_str(), new_lines[last].as_str());
    if start == 0 && end == 0 {
        return Some(new_code.to_owned());
    }
    if start > end + 1 {
        return None;
    }
    let ghost olds = texts(old_lines@);
    let ghost news = texts(new_lines@);
    let mut lines: Vec<String> = Vec::new();
    let mut i: usize = 0;
    assert(texts(lines@) =~= olds.subrange(0, 0));
    while i < start
        invariant
            i <= start <= old_lines.len(),
            olds == texts(old_lines@),
            texts(lines@) == olds.subrange(0, i as int),
        decreases start - i,
    {
        let ghost before = texts(lines@);
        lines.push(old_lines[i].clone());
        assert(texts(lines@) =~= before.push(old_lines@[i as int]@));
        assert(before.push(olds[i as int]) =~= olds.subrange(0, i + 1));
        i += 1;
    }
    let mut j: usize = 0;
    assert(texts(lines@) =~= olds.subrange(0, start as int) + news.subrange(0, 0));
    while j < new_lines.len()
        invariant
            j <= new_lines.len(),
            news == texts(new_lines@),
            texts(lines@) == olds.subrange(0, start as int) + news.subrange(0, j as int),
        decreases new_lines.len() - j,
    {
        let ghost before = texts(lines@);
        lines.push(new_lines[j].clone());
        assert(texts(lines@) =~= before.push(new_lines@[j as int]@));
        assert(before.push(news[j as int]) =~= olds.subrange(0, start as int) + news.subrange(
            0,
            j + 1,
        ));
        j += 1;
    }
    assert(news.subrange(0, new_lines.len() as int) =~= news);
    let mut k: usize = end + 1;
    let ghost head = olds.subrange(0, start as int) + news;
    assert(texts(lines@) =~= head + olds.subrange(end + 1, k as int));
    while k < old_lines.len()
        invariant
            end + 1 <= k <= old_lines.len(),
            olds == texts(old_lines@),
            texts(lines@) == head + olds.subrange(end + 1, k as int),
        decreases old_lines.len() - k,
    {
        let ghost before = texts(lines@);
        lines.push(old_lines[k].clone());
        assert(texts(lines@) =~= before.push(old_lines@[k as int]@));
        assert(before.push(olds[k as int]) =~= head + olds.subrange(end + 1, k + 1));
        k += 1;
    }
    Some(join_strings(&lines, '\n'))
}

} // verus!
