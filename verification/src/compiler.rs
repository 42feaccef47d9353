//! Compiling C++ sources: the command that is run, and which of the
//! compiler's diagnostics are reported.

use vstd::prelude::*;
use vstd::string::StringExecFns;
use crate::text::{join, join_strings, texts};

verus! {

/// How grave a diagnostic is.
#[derive(Debug, Clone, Copy, PartialEq, Eq)]
pub enum ErrorKind {
    Error,
    Warning,
}

/// A place in a source file.
#[derive(Debug, Clone, PartialEq, Eq)]
pub struct Location {
    pub file: String,
    pub line: i32,
    pub column: i32,
}

/// The place that a diagnostic points at, and where what it is about ends.
#[derive(Debug, Clone, PartialEq, Eq)]
pub struct LocationPair {
    pub caret: Location,
    pub finish: Option<Location>,
}

/// One diagnostic of the compiler.
#[derive(Debug, Clone, PartialEq, Eq)]
pub struct ClangOutputJson {
    pub kind: ErrorKind,
    pub message: String,
    pub locations: Vec<LocationPair>,
}

/// The sources to compile, and whether warnings are reported too.
#[derive(Debug, Clone, PartialEq, Eq)]
pub struct CompileJob {
    pub files: Vec<String>,
    pub fix_warnings: bool,
}

/// The command that compiles the files.
pub open spec fn compile_command(files: Seq<String>) -> Seq<char> {
    "g++-13 -std=c++17 "@ + join(texts(files), ' ') + " -fdiagnostics-format=json"@
}

/// The diagnostics that are reported: all of them where warnings are
/// reported, the errors otherwise.
pub open spec fn reported(diagnostics: Seq<ClangOutputJson>, fix_warnings: bool) -> Seq<ClangOutputJson>
    decreases diagnostics.len(),
{
    if diagnostics.len() == 0 {
        Seq::empty()
    } else {
        let before = reported(diagnostics.drop_last(), fix_warnings);
        if fix_warnings || diagnostics.last().kind is Error {
            before.push(diagnostics.last())
        } else {
            before
        }
    }
}

impl CompileJob {
    /// The command that compiles the files of the job.
    pub fn command(&self) -> (r: String)
        ensures
            r@ == compile_command(self.files@),
    {
        let list = join_strings(&self.files, ' ');
        let mut command = "g++-13 -std=c++17 ".to_owned();
        command.append(list.as_str());
        command.append(" -fdiagnostics-format=json");
        command
    }

    /// What the job reports of the compiler's diagnostics: all of them where
    /// warnings are to be fixed, the errors otherwise, in their order.
    pub fn compile(&self, diagnostics: Vec<ClangOutputJson>) -> (r: Vec<ClangOutputJson>)
        ensures
            r@ == reported(diagnostics@, self.fix_warnings),
    {
        let ghost all = diagnostics@;
        let mut out: Vec<ClangOutputJson> = Vec::new();
        for e in it: diagnostics
            invariant
                it.seq() == all,
                out@ == reported(all.take(it.index() as int), self.fix_warnings),
        {
            proof {
                assert(all.take(it.index() + 1).drop_last() =~= all.take(it.index() as int));
                assert(all.take(it.index() + 1).last() == e);
            }
            if self.fix_warnings || matches!(e.kind, ErrorKind::Error) {
                out.push(e);
            }
        }
        assert(all.take(all.len() as int) =~= all);
        out
    }
}

/// The place that a diagnostic points at first.
pub fn first_location(error: &ClangOutputJson) -> (r: Option<&Location>)
    ensures
        match r {
            Some(location) => error.locations.len() > 0 && *location == error.locations[0].caret,
            None => error.locations.len() == 0,
        },
{
    if error.locations.len() > 0 {
        Some(&error.locations[0].caret)
    } else {
        None
    }
}

} // verus!
