//! Mapping the compiler's diagnostics to errors with the lines of the source
//! around them.

use vstd::prelude::*;
use vstd::string::StringExecFns;
use crate::compiler::{ClangOutputJson};
use crate::text::{chars_of, lines_of, split_lines, texts};

verus! {

/// A diagnostic with its place and the lines of the source around it.
#[derive(Debug, Clone, PartialEq, Eq)]
pub struct MappedJsonError {
    pub column: i32,
    pub line: i32,
    pub filepath: String,
    pub message: String,
    pub snippet: String,
}

/// The diagnostics to map.
#[derive(Debug, Clone, PartialEq, Eq)]
pub struct OutputJob {
    pub errors: Vec<ClangOutputJson>,
}

/// The lines from `from` up to `to`, each with a line feed after it.
pub open spec fn lines_text(lines: Seq<Seq<char>>, from: int, to: int) -> Seq<char>
    decreases to - from,
{
    if from >= to {
        Seq::empty()
    } else {
        lines_text(lines, from, to - 1) + lines[to - 1] + seq!['\n']
    }
}

/// The index of the first line of the snippet around the line `line`.
pub open spec fn snippet_start(line: int) -> int {
    if line - 3 > 0 {
        line - 3
    } else {
        0
    }
}

/// The index after the last line of the snippet around the line `line`, in
/// a file of `count` lines.
pub open spec fn snippet_end(line: int, count: int) -> int {
    if line + 3 < count {
        line + 3
    } else {
        count
    }
}

/// The lines of a file around the line `line`: from the third line before
/// it, counted from 0, up to the third after it, as far as the file has
/// them. Empty where the file has no such lines.
pub open spec fn snippet(contents: Seq<char>, line: int) -> Seq<char> {
    let lines = lines_of(contents);
    let start = snippet_start(line);
    let end = snippet_end(line, lines.len() as int);
    if start < end {
        lines_text(lines, start, end)
    } else {
        Seq::empty()
    }
}

/// The lines of a file around the line `line`.
pub fn get_file_snippet(file_contents: &str, line: i32) -> (r: String)
    ensures
        r@ == snippet(file_contents@, line as int),
{
    let chars = chars_of(file_contents);
    let lines = split_lines(&chars);
    let mut out = String::new();
    let start: usize = if line > 3 {
        (line - 3) as usize
    } else {
        0
    };
    let after: i64 = line as i64 + 3;
    if after <= 0 {
        return out;
    }
    let end: usize = if (after as usize) < lines.len() {
        after as usize
    } else {
        lines.len()
    };
    if start >= end {
        return out;
    }
    let ghost all = lines_of(file_contents@);
    let mut i: usize = start;
    while i < end
        invariant
            start <= i <= end <= lines.len(),
            all == texts(lines@),
            out@ == lines_text(all, start as int, i as int),
        decreases end - i,
    {
        assert(all[i as int] == lines@[i as int]@);
        out.append(lines[i].as_str());
        out.push('\n');
        i += 1;
    }
    out
}

/// The first place of the diagnostic with its message and the lines of the
/// file around the place, given the contents of that file; `None` for a
/// diagnostic without a place.
pub fn map_error(error: &ClangOutputJson, file_contents: &str) -> (r: Option<MappedJsonError>)
    ensures
        match r {
            Some(mapped) => {
                &&& error.locations.len() > 0
                &&& mapped.column == error.locations[0].caret.column
                &&& mapped.line == error.locations[0].caret.line
                &&& mapped.filepath@ == error.locations[0].caret.file@
                &&& mapped.message@ == error.message@
                &&& mapped.snippet@ == snippet(file_contents@, error.locations[0].caret.line as int)
            },
            None => error.locations.len() == 0,
        },
{
    if error.locations.len() == 0 {
        return None;
    }
    let caret = &error.locations[0].caret;
    Some(
        MappedJsonError {
            column: caret.column,
            line: caret.line,
            filepath: caret.file.clone(),
            message: error.message.clone(),
            snippet: get_file_snippet(file_contents, caret.line),
        },
    )
}

/// The diagnostic `i` is mapped to `mapped`, given the contents of its file.
pub open spec fn is_mapped(error: ClangOutputJson, contents: Seq<char>, mapped: MappedJsonError) -> bool {
    &&& error.locations.len() > 0
    &&& mapped.column == error.locations[0].caret.column
    &&& mapped.line == error.locations[0].caret.line
    &&& mapped.filepath@ == error.locations[0].caret.file@
    &&& mapped.message@ == error.message@
    &&& mapped.snippet@ == snippet(contents, error.locations[0].caret.line as int)
}

impl OutputJob {
    /// Maps every diagnostic of the job, given for each the contents of the
    /// file of its first place. Fails where a diagnostic has no place.
    pub fn map_output(&self, contents: &Vec<String>) -> (r: Result<Vec<MappedJsonError>, String>)
        requires
            contents.len() == self.errors.len(),
        ensures
            match r {
                Ok(mapped) => mapped.len() == self.errors.len() && forall|i: int|
                    0 <= i < mapped.len() ==> is_mapped(
                        self.errors[i],
                        contents[i]@,
                        #[trigger] mapped[i],
                    ),
                Err(message) => message@ == "No location"@ && exists|i: int|
                    0 <= i < self.errors.len() && (#[trigger] self.errors[i]).locations.len() == 0,
            },
    {
        let mut mapped_errors: Vec<MappedJsonError> = Vec::new();
        let mut i: usize = 0;
        while i < self.errors.len()
            invariant
                i <= self.errors.len(),
                contents.len() == self.errors.len(),
                mapped_errors.len() == i,
                forall|k: int|
                    0 <= k < i ==> is_mapped(self.errors[k], contents[k]@, #[trigger] mapped_errors[k]),
            decreases self.errors.len() - i,
        {
            match map_error(&self.errors[i], contents[i].as_str()) {
                Some(mapped) => {
                    mapped_errors.push(mapped);
                },
                None => {
                    return Err("No location".to_owned());
                },
            }
            i += 1;
        }
        Ok(mapped_errors)
    }
}

} // verus!
