use vstd::prelude::*;

verus! {

use crate::VcsError;
use crate::tree::{ChangeRecord, ChangeModel, file_changes_spec};
use crate::state::{VcsStateManager, StateV, store_index, store_tree, cc_ok, cc_apply};
use crate::metadata::{branch_index, ledger_of};
use crate::hashing::contents_hash_of;

/// What `commit` reports: whether the commit was allowed (the head must
/// sit on its branch's tip), the branch, the resulting commit id, and the
/// change set that was recorded.
#[derive(Debug, PartialEq, Eq)]
pub struct CommitResult {
    pub successful: bool,
    pub branch: String,
    pub commit: String,
    pub file_changes: Vec<ChangeRecord>,
}

/// The state after `commit`: unchanged unless the head sits on its
/// branch's tip, the working tree differs from the head snapshot, and the
/// new snapshot's hash is fresh; then the full commit is applied.
pub open spec fn commit_next(v: StateV, msg: Seq<char>, ts: u64) -> StateV {
    let led = ledger_of(v.branches, v.cur_branch);
    let diff = file_changes_spec(v.working, store_tree(v.snapshots, v.cur_commit));
    if branch_index(v.branches, v.cur_branch) == -1 {
        v
    } else if led.len() == 0 {
        v
    } else if led.last() != v.cur_commit {
        v
    } else if store_index(v.snapshots, v.cur_commit) == -1 {
        v
    } else if diff.len() == 0 {
        v
    } else if !cc_ok(v, v.working) {
        v
    } else {
        cc_apply(v, msg, v.cur_branch, v.working, ts)
    }
}

/// The result `commit` reports for each state: the errors for a missing
/// branch ledger or snapshot, "not successful" away from the tip, the
/// no-op success on an unchanged tree, and otherwise the new commit id
/// with the recorded change set.
pub open spec fn commit_result_matches(
    v: StateV,
    msg: Seq<char>,
    ts: u64,
    r: Result<CommitResult, VcsError>,
) -> bool {
    let led = ledger_of(v.branches, v.cur_branch);
    let diff = file_changes_spec(v.working, store_tree(v.snapshots, v.cur_commit));
    if branch_index(v.branches, v.cur_branch) == -1 {
        r == Err::<CommitResult, VcsError>(VcsError::BranchNotFound)
    } else if led.len() == 0 {
        r == Err::<CommitResult, VcsError>(VcsError::CommitNotFound)
    } else if led.last() != v.cur_commit {
        r matches Ok(cr) && cr.successful == false && cr.branch@ == v.cur_branch && cr.commit@
            == v.cur_commit && cr.file_changes.deep_view() == Seq::<ChangeModel>::empty()
    } else if store_index(v.snapshots, v.cur_commit) == -1 {
        r == Err::<CommitResult, VcsError>(VcsError::CommitNotFound)
    } else if diff.len() == 0 {
        r matches Ok(cr) && cr.successful == true && cr.branch@ == v.cur_branch && cr.commit@
            == v.cur_commit && cr.file_changes.deep_view() == diff
    } else if !cc_ok(v, v.working) {
        r == Err::<CommitResult, VcsError>(VcsError::CommitExists)
    } else {
        r matches Ok(cr) && cr.successful == true && cr.branch@ == v.cur_branch && cr.commit@
            == contents_hash_of(v.working) && cr.file_changes.deep_view() == diff
    }
}

/// Commit the current working tree. The commit is refused (reported "not
/// successful", nothing changed) unless the head commit is the last entry
/// of its branch's ledger; an unchanged tree is a successful no-op that
/// creates no commit; otherwise the tree is snapshotted under its content
/// hash and head, catalog and ledger move to it.
pub fn commit_in_repo(state: &mut VcsStateManager, message: &String, timestamp: u64) -> (r: Result<
    CommitResult,
    VcsError,
>)
    ensures
        final(state)@ == commit_next(old(state)@, message@, timestamp),
        commit_result_matches(old(state)@, message@, timestamp, r),
{
    let ghost v = old(state)@;
    let commit = state.get_commit();
    let branch = state.get_branch();
    let led = match state.get_commits(&branch) {
        None => {
            return Err(VcsError::BranchNotFound);
        },
        Some(l) => l,
    };
    proof {
        assert(led.deep_view() == ledger_of(v.branches, v.cur_branch));
    }
    if led.len() == 0 {
        return Err(VcsError::CommitNotFound);
    }
    let at_tip = led[led.len() - 1] == commit;
    proof {
        assert(led.deep_view().len() == led@.len());
        assert(led.deep_view()[led@.len() - 1] == led[led@.len() - 1]@);
    }
    if !at_tip {
        let empty_changes: Vec<ChangeRecord> = Vec::new();
        proof {
            assert(empty_changes.deep_view() =~= Seq::<ChangeModel>::empty());
        }
        return Ok(
            CommitResult { successful: false, branch, commit, file_changes: empty_changes },
        );
    }
    let file_changes = match state.get_file_changes_commit(&commit) {
        Err(e) => {
            return Err(e);
        },
        Ok(f) => f,
    };
    if file_changes.len() > 0 {
        let new_commit = match state.commit(message, &branch, timestamp) {
            Err(e) => {
                return Err(e);
            },
            Ok(c) => c,
        };
        Ok(CommitResult { successful: true, branch, commit: new_commit, file_changes })
    } else {
        Ok(CommitResult { successful: true, branch, commit, file_changes })
    }
}

} // verus!
