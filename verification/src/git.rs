//! Whether a working tree holds changes that are not committed.

use vstd::prelude::*;

verus! {

/// What the repository says of one file.
#[derive(Debug, Clone, Copy, PartialEq, Eq)]
pub struct FileStatus {
    pub wt_new: bool,
    pub wt_modified: bool,
    pub wt_deleted: bool,
    pub index_new: bool,
    pub index_modified: bool,
    pub index_deleted: bool,
}

/// The file is new, modified or deleted, in the working tree or in the
/// index.
pub open spec fn is_changed(status: FileStatus) -> bool {
    status.wt_new || status.wt_modified || status.wt_deleted || status.index_new
        || status.index_modified || status.index_deleted
}

/// Whether any of the files is changed: in the working tree, or in the
/// index and not committed.
pub fn check_unsaved_files(statuses: &Vec<FileStatus>) -> (r: bool)
    ensures
        r == exists|i: int| 0 <= i < statuses.len() && is_changed(#[trigger] statuses[i]),
{
    let mut unsaved_files = false;
    let mut uncommitted_files = false;
    let mut i: usize = 0;
    while i < statuses.len()
        invariant
            i <= statuses.len(),
            (unsaved_files || uncommitted_files) == exists|k: int|
                0 <= k < i && is_changed(#[trigger] statuses[k]),
        decreases statuses.len() - i,
    {
        let status = statuses[i];
        if status.wt_new || status.wt_modified || status.wt_deleted {
            unsaved_files = true;
        }
        if status.index_new || status.index_modified || status.index_deleted {
            uncommitted_files = true;
        }
        proof {
            if is_changed(statuses[i as int]) {
                assert(0 <= i < i + 1 && is_changed(statuses[i as int]));
            } else if exists|k: int| 0 <= k < i + 1 && is_changed(#[trigger] statuses[k]) {
                let k = choose|k: int| 0 <= k < i + 1 && is_changed(#[trigger] statuses[k]);
                assert(k < i);
            }
        }
        i += 1;
    }
    unsaved_files || uncommitted_files
}

} // verus!
