use vstd::prelude::*;

verus! {

use crate::tree::TreeEntry;
use crate::state::{VcsStateManager, StateV, cc_apply};
use crate::metadata::{master, CommitDataV, BranchDataV};
use crate::state::SnapshotV;
use crate::hashing::contents_hash_of;

/// The state of a repository that was just initialized over the given
/// tracked tree at the given time: exactly the initial commit, on
/// `master`.
pub open spec fn init_state(working: Seq<crate::tree::EntryModel>, timestamp: u64) -> StateV {
    cc_apply(
        StateV {
            cur_commit: Seq::<char>::empty(),
            cur_branch: Seq::<char>::empty(),
            commits: Seq::<CommitDataV>::empty(),
            branches: Seq::<BranchDataV>::empty(),
            snapshots: Seq::<SnapshotV>::empty(),
            working: working,
        },
        "Initial commit"@,
        master(),
        working,
        timestamp,
    )
}

/// Initialize an empty repository over the given tracked tree: perform
/// the initial commit, with the fixed message, on `master`. Returns the
/// repository state and the initial commit's id.
pub fn init(working: Vec<TreeEntry>, timestamp: u64) -> (r: (VcsStateManager, String))
    ensures
        r.0@ == init_state(working.deep_view(), timestamp),
        r.1@ == contents_hash_of(working.deep_view()),
{
    let ghost wm = working.deep_view();
    let mut state = VcsStateManager::init(working);
    let commit = match state.init_repository(timestamp) {
        Ok(c) => c,
        Err(_) => {
            proof {
                assert(false);
            }
            vstd::pervasive::unreached()
        },
    };
    (state, commit)
}

} // verus!
