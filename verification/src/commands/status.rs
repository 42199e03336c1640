use vstd::prelude::*;

verus! {

use crate::VcsError;
use crate::tree::{ChangeRecord, file_changes_spec};
use crate::state::{VcsStateManager, store_index, store_tree};

/// What `status` reports: the current branch, and the change set of the
/// working tree relative to the current head commit.
#[derive(Debug, PartialEq, Eq)]
pub struct StatusResult {
    pub branch: String,
    pub file_changes: Vec<ChangeRecord>,
}

/// Report the changes to be committed: the change set between the live
/// working tree and the snapshot of the current head commit, together
/// with the current branch. A pure read; the state is not touched.
pub fn status_in_repo(state: &VcsStateManager) -> (r: Result<StatusResult, VcsError>)
    ensures
        match r {
            Ok(s) => store_index(state@.snapshots, state@.cur_commit) >= 0 && s.branch@
                == state@.cur_branch && s.file_changes.deep_view() == file_changes_spec(
                state@.working,
                store_tree(state@.snapshots, state@.cur_commit),
            ),
            Err(e) => store_index(state@.snapshots, state@.cur_commit) == -1 && e
                == VcsError::CommitNotFound,
        },
{
    let cur_commit = state.get_commit();
    let file_changes = match state.get_file_changes_commit(&cur_commit) {
        Err(e) => {
            return Err(e);
        },
        Ok(f) => f,
    };
    Ok(StatusResult { branch: state.get_branch(), file_changes })
}

} // verus!
