use vstd::prelude::*;

verus! {

use crate::VcsError;
use crate::tree::{ChangeRecord, ChangeModel, get_file_changes, file_changes_spec};
use crate::state::{VcsStateManager, store_index, store_tree, history_spec};
use crate::metadata::{CommitData, CommitDataV, branch_index, ledger_of, commit_index, master};

/// What `log` reports: for each commit of the linear history, newest
/// first, its catalog record and the change set it introduced over its
/// predecessor; the origin commit carries an empty change set.
pub struct LogResult {
    pub commit_list: Vec<(CommitData, Vec<ChangeRecord>)>,
}

/// The entry logged for position `i` of the history `h` (newest first):
/// the commit's record, and its changes relative to the next older
/// commit.
pub open spec fn log_entry(
    v: crate::state::StateV,
    h: Seq<Seq<char>>,
    i: int,
) -> (CommitDataV, Seq<ChangeModel>) {
    (
        v.commits[commit_index(v.commits, h[i])],
        if i + 1 < h.len() {
            file_changes_spec(store_tree(v.snapshots, h[i]), store_tree(v.snapshots, h[i + 1]))
        } else {
            Seq::empty()
        },
    )
}

pub open spec fn log_entries(v: crate::state::StateV, h: Seq<Seq<char>>) -> Seq<
    (CommitDataV, Seq<ChangeModel>),
> {
    Seq::new(h.len(), |i: int| log_entry(v, h, i))
}

/// Every commit of the history is in the catalog, and, as soon as
/// adjacent pairs are diffed, has a stored snapshot.
pub open spec fn log_ok(v: crate::state::StateV, h: Seq<Seq<char>>) -> bool {
    &&& forall|i: int| 0 <= i < h.len() ==> commit_index(v.commits, #[trigger] h[i]) >= 0
    &&& h.len() > 1 ==> forall|i: int|
        0 <= i < h.len() ==> store_index(v.snapshots, #[trigger] h[i]) >= 0
}

/// Log the commit history up to the current head, newest first, each
/// entry carrying its commit record and the change set it introduced.
/// A pure read; the state is not touched.
pub fn log_in_repo(state: &VcsStateManager) -> (r: Result<LogResult, VcsError>)
    ensures
        ({
            let v = state@;
            let h = history_spec(v);
            if branch_index(v.branches, v.cur_branch) == -1 {
                r == Err::<LogResult, VcsError>(VcsError::BranchNotFound)
            } else if v.cur_branch != master() && branch_index(v.branches, master()) == -1 {
                r == Err::<LogResult, VcsError>(VcsError::BranchNotFound)
            } else if v.cur_branch != master() && ledger_of(v.branches, master()).len() > 0
                && ledger_of(v.branches, v.cur_branch).len() == 0 {
                r == Err::<LogResult, VcsError>(VcsError::CommitNotFound)
            } else if !log_ok(v, h) {
                r == Err::<LogResult, VcsError>(VcsError::CommitNotFound)
            } else {
                r matches Ok(lr) && lr.commit_list.deep_view() == log_entries(v, h)
            }
        }),
{
    let ghost v = state@;
    let commit_history = match state.get_commit_history() {
        Err(e) => {
            return Err(e);
        },
        Ok(h) => h,
    };
    let ghost hm = commit_history.deep_view();
    proof {
        assert(hm == history_spec(v));
    }
    let mut commit_list: Vec<(CommitData, Vec<ChangeRecord>)> = Vec::new();
    let mut i: usize = 0;
    while i < commit_history.len()
        invariant
            0 <= i <= commit_history.len(),
            v == state@,
            hm == commit_history.deep_view(),
            hm == history_spec(v),
            hm.len() == commit_history.len(),
            branch_index(v.branches, v.cur_branch) != -1,
            v.cur_branch != master() ==> branch_index(v.branches, master()) != -1,
            !(v.cur_branch != master() && ledger_of(v.branches, master()).len() > 0 && ledger_of(
                v.branches,
                v.cur_branch,
            ).len() == 0),
            commit_list.deep_view().len() == i,
            forall|k: int| 0 <= k < i ==> #[trigger] commit_list.deep_view()[k] == log_entry(
                v,
                hm,
                k,
            ),
            forall|k: int| 0 <= k < i ==> commit_index(v.commits, #[trigger] hm[k]) >= 0,
            forall|k: int|
                0 <= k < i && k + 1 < hm.len() ==> store_index(v.snapshots, #[trigger] hm[k]) >= 0,
            forall|k: int|
                1 <= k < i + 1 && k < hm.len() ==> store_index(v.snapshots, #[trigger] hm[k]) >= 0,
        decreases commit_history.len() - i,
    {
        proof {
            assert(hm[i as int] == commit_history[i as int]@);
            if i + 1 < commit_history.len() {
                assert(hm[i + 1] == commit_history[i + 1 as int]@);
            }
        }
        let commit_data = match state.get_commit_data(&commit_history[i]) {
            None => {
                proof {
                    assert(commit_index(v.commits, hm[i as int]) == -1);
                }
                return Err(VcsError::CommitNotFound);
            },
            Some(cd) => cd,
        };
        let file_changes: Vec<ChangeRecord> = if i + 1 < commit_history.len() {
            let newer = match state.get_commit_contents(&commit_history[i]) {
                Err(e) => {
                    return Err(e);
                },
                Ok(t) => t,
            };
            let older = match state.get_commit_contents(&commit_history[i + 1]) {
                Err(e) => {
                    return Err(e);
                },
                Ok(t) => t,
            };
            get_file_changes(&newer, &older)
        } else {
            Vec::new()
        };
        let ghost before = commit_list.deep_view();
        proof {
            assert(commit_data.deep_view() == v.commits[commit_index(v.commits, hm[i as int])]);
            assert(file_changes.deep_view() == log_entry(v, hm, i as int).1);
        }
        commit_list.push((commit_data, file_changes));
        proof {
            assert(commit_list.deep_view() =~= before.push(log_entry(v, hm, i as int)));
        }
        i = i + 1;
    }
    proof {
        assert(commit_list.deep_view() =~= log_entries(v, hm));
        if hm.len() > 1 {
            assert forall|k: int| 0 <= k < hm.len() implies store_index(
                v.snapshots,
                #[trigger] hm[k],
            ) >= 0 by {
                if k == 0 {
                    assert(0 <= k < hm.len() && k + 1 < hm.len());
                }
            }
        }
        assert(log_ok(v, hm));
    }
    Ok(LogResult { commit_list })
}

} // verus!
