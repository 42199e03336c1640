use vstd::prelude::*;

verus! {

use crate::VcsError;
use crate::tree::{ChangeRecord, file_changes_spec};
use crate::state::{VcsStateManager, StateV, store_index, store_tree};
use crate::metadata::{branch_index, ledger_of, commit_index, owning_branch};

/// The outcome of a jump.
#[derive(Debug, PartialEq, Eq)]
pub enum JumpResult {
    /// The working tree differs from the head snapshot; these changes
    /// must be committed or dropped first.
    UncommittedChanges { file_changes: Vec<ChangeRecord> },
    /// No such commit in the catalog, or no such branch.
    NotFound,
    /// The working tree now holds the target commit's snapshot.
    Success { commit: String, branch: String },
}

/// The state after jumping to commit `target`: unchanged unless the
/// working tree is clean, the target is in the catalog, a branch owns it
/// and a snapshot is stored for it; then the head moves to the target on
/// its owning branch and the working tree is replaced by the snapshot.
pub open spec fn jump_next(v: StateV, target: Seq<char>) -> StateV {
    let diff = file_changes_spec(v.working, store_tree(v.snapshots, v.cur_commit));
    if store_index(v.snapshots, v.cur_commit) == -1 {
        v
    } else if diff.len() > 0 {
        v
    } else if commit_index(v.commits, target) == -1 {
        v
    } else if owning_branch(v.branches, target) is None {
        v
    } else if store_index(v.snapshots, target) == -1 {
        v
    } else {
        StateV {
            cur_commit: target,
            cur_branch: owning_branch(v.branches, target)->Some_0,
            working: store_tree(v.snapshots, target),
            ..v
        }
    }
}

/// The result a jump to commit `target` reports for each state.
pub open spec fn jump_result_matches(
    v: StateV,
    target: Seq<char>,
    r: Result<JumpResult, VcsError>,
) -> bool {
    let diff = file_changes_spec(v.working, store_tree(v.snapshots, v.cur_commit));
    if store_index(v.snapshots, v.cur_commit) == -1 {
        r == Err::<JumpResult, VcsError>(VcsError::CommitNotFound)
    } else if diff.len() > 0 {
        r matches Ok(JumpResult::UncommittedChanges { file_changes }) && file_changes.deep_view()
            == diff
    } else if commit_index(v.commits, target) == -1 {
        r matches Ok(jr) && jr is NotFound
    } else if owning_branch(v.branches, target) is None {
        r == Err::<JumpResult, VcsError>(VcsError::BranchNotFound)
    } else if store_index(v.snapshots, target) == -1 {
        r == Err::<JumpResult, VcsError>(VcsError::CommitNotFound)
    } else {
        r matches Ok(JumpResult::Success { commit, branch }) && commit@ == target && branch@
            == owning_branch(v.branches, target)->Some_0
    }
}

/// Jump to the given commit: refuse while the working tree has
/// uncommitted changes; report `NotFound` for a commit id absent from the
/// catalog; otherwise restore its snapshot and move the head to it, on
/// its owning branch.
pub fn jump_commit_in_repo(state: &mut VcsStateManager, commit: &String) -> (r: Result<
    JumpResult,
    VcsError,
>)
    ensures
        final(state)@ == jump_next(old(state)@, commit@),
        jump_result_matches(old(state)@, commit@, r),
{
    let cur_commit = state.get_commit();
    let file_changes = match state.get_file_changes_commit(&cur_commit) {
        Err(e) => {
            return Err(e);
        },
        Ok(f) => f,
    };
    if file_changes.len() > 0 {
        return Ok(JumpResult::UncommittedChanges { file_changes });
    }
    match state.get_commit_data(commit) {
        None => Ok(JumpResult::NotFound),
        Some(_) => {
            match state.jump_to_commit(commit) {
                Err(e) => Err(e),
                Ok(_) => Ok(
                    JumpResult::Success { commit: state.get_commit(), branch: state.get_branch() },
                ),
            }
        },
    }
}

/// Jump to the last commit of the given branch; `NotFound` when the
/// branch has no ledger.
pub fn jump_branch_in_repo(state: &mut VcsStateManager, branch: &String) -> (r: Result<
    JumpResult,
    VcsError,
>)
    ensures
        ({
            let v = old(state)@;
            let led = ledger_of(v.branches, branch@);
            if branch_index(v.branches, branch@) == -1 {
                (r matches Ok(jr) && jr is NotFound) && final(state)@ == v
            } else if led.len() == 0 {
                r == Err::<JumpResult, VcsError>(VcsError::CommitNotFound) && final(state)@ == v
            } else {
                final(state)@ == jump_next(v, led.last()) && jump_result_matches(v, led.last(), r)
            }
        }),
{
    let ghost v = old(state)@;
    let led = match state.get_commits(branch) {
        None => {
            return Ok(JumpResult::NotFound);
        },
        Some(l) => l,
    };
    if led.len() == 0 {
        return Err(VcsError::CommitNotFound);
    }
    let last = &led[led.len() - 1];
    proof {
        assert(led.deep_view()[led@.len() - 1] == led[led@.len() - 1]@);
        assert(last@ == ledger_of(v.branches, branch@).last());
    }
    jump_commit_in_repo(state, last)
}

} // verus!
