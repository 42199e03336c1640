use vstd::prelude::*;

verus! {

use crate::state::{VcsStateManager, StateV};
use crate::metadata::{master, master_name, add_branch_spec};

/// The outcome of creating a branch.
#[derive(Debug, PartialEq, Eq)]
pub enum NewBranchResult {
    /// Branches may only be created while the head is on `master`.
    OnlyFromMaster,
    /// The branch was created, rooted at the given commit.
    Success { commit: String },
    /// The requested name is `master` itself.
    AlreadyExists,
}

/// Create a new branch from the current commit. Allowed only from
/// `master`; the name `master` itself is refused; otherwise the current
/// commit id becomes (or is appended to) the named branch's ledger.
pub fn new_branch_in_repo(state: &mut VcsStateManager, new_branch: &String) -> (r: NewBranchResult)
    ensures
        ({
            let v = old(state)@;
            if v.cur_branch != master() {
                r is OnlyFromMaster && final(state)@ == v
            } else if new_branch@ == master() {
                r is AlreadyExists && final(state)@ == v
            } else {
                &&& (r matches NewBranchResult::Success { commit } && commit@ == v.cur_commit)
                &&& final(state)@ == (StateV {
                    branches: add_branch_spec(v.branches, new_branch@, v.cur_commit),
                    ..v
                })
            }
        }),
{
    let cur_branch = state.get_branch();
    let m = master_name();
    if cur_branch != m {
        NewBranchResult::OnlyFromMaster
    } else if *new_branch != cur_branch {
        state.new_branch(new_branch);
        NewBranchResult::Success { commit: state.get_commit() }
    } else {
        NewBranchResult::AlreadyExists
    }
}

} // verus!
