use vstd::prelude::*;

verus! {

use vstd::string::StringExecFns;
use vstd::std_specs::cmp::PartialEqSpec;
use crate::VcsError;
use crate::tree::{
    TreeEntry,
    EntryModel,
    ChangeRecord,
    ChangeModel,
    get_file_changes,
    file_changes_spec,
    find_entry,
    files_equal,
    entry_index,
};
use crate::state::{
    VcsStateManager,
    StateV,
    store_index,
    store_tree,
    cc_ok,
    cc_apply,
    clone_tree,
};
use crate::metadata::{branch_index, ledger_of, remove_branch_spec, master, master_name};
use crate::hashing::contents_hash_of;

/// The outcome of merging a branch into `master`.
#[derive(Debug, PartialEq, Eq)]
pub enum MergeResult {
    /// Merging is allowed only from the last commit of `master`.
    NotLastCommit,
    /// The same relative path was changed differently on both sides; the
    /// two commits and the path identify the clashing snapshot entries.
    MergeConflict { commit1: String, commit2: String, path: Vec<u8> },
    /// The merge commit was created and the source branch removed.
    Success { commit: String, file_changes: Vec<ChangeRecord> },
    /// The branch to merge must differ from `master`.
    MergeWithMaster,
}

/// How the scan over the `master`-side changes ends: with a comparison of
/// two entries that exist in neither snapshot (a failure), with the first
/// conflicting path, or with the merged file list.
pub ghost enum MergeScan {
    Failed,
    Conflict { path: Seq<u8> },
    Merged { files: Seq<EntryModel> },
}

/// Whether some change record concerns the given path.
pub open spec fn has_change_at(cs: Seq<ChangeModel>, p: Seq<u8>) -> bool {
    exists|i: int| 0 <= i < cs.len() && (#[trigger] cs[i]).path == p
}

/// Walk the `master`-side changes in order, against the branch-side
/// changes and the two tip trees, accumulating the merged file list that
/// starts from the branch tip's entries. A path changed on both sides
/// must hold equal entries in both tips, else it is the conflict; a path
/// changed only on the `master` side is taken from the `master` tip
/// unless the branch tip already has it.
pub open spec fn merge_scan(
    mcs: Seq<ChangeModel>,
    bcs: Seq<ChangeModel>,
    mtree: Seq<EntryModel>,
    btree: Seq<EntryModel>,
    acc: Seq<EntryModel>,
) -> MergeScan
    decreases mcs.len(),
{
    if mcs.len() == 0 {
        MergeScan::Merged { files: acc }
    } else {
        let rel = mcs[0].path;
        let rest = mcs.drop_first();
        if has_change_at(bcs, rel) {
            let mi = entry_index(mtree, rel);
            let bi = entry_index(btree, rel);
            let mfile = mi >= 0 && mtree[mi].is_file;
            let bfile = bi >= 0 && btree[bi].is_file;
            if mfile != bfile {
                MergeScan::Conflict { path: rel }
            } else if mi >= 0 && !mtree[mi].is_file {
                merge_scan(rest, bcs, mtree, btree, acc)
            } else if mi < 0 {
                MergeScan::Failed
            } else if mtree[mi].data == btree[bi].data {
                merge_scan(rest, bcs, mtree, btree, acc)
            } else {
                MergeScan::Conflict { path: rel }
            }
        } else {
            if entry_index(btree, rel) >= 0 {
                merge_scan(rest, bcs, mtree, btree, acc)
            } else if entry_index(mtree, rel) >= 0 {
                merge_scan(rest, bcs, mtree, btree, acc.push(mtree[entry_index(mtree, rel)]))
            } else {
                merge_scan(
                    rest,
                    bcs,
                    mtree,
                    btree,
                    acc.push(EntryModel { path: rel, is_file: false, data: Seq::empty() }),
                )
            }
        }
    }
}

/// The scan the merge of `branch` performs, over the stored snapshots of
/// the two tips and their common ancestor, the branch's fork point.
pub open spec fn merge_scan_of(v: StateV, branch: Seq<char>) -> MergeScan {
    let mtip = ledger_of(v.branches, master()).last();
    let btip = ledger_of(v.branches, branch).last();
    let common = ledger_of(v.branches, branch)[0];
    let mtree = store_tree(v.snapshots, mtip);
    let btree = store_tree(v.snapshots, btip);
    let ctree = store_tree(v.snapshots, common);
    merge_scan(
        file_changes_spec(mtree, ctree),
        file_changes_spec(btree, ctree),
        mtree,
        btree,
        btree,
    )
}

/// The message of the merge commit.
pub open spec fn merge_msg(branch: Seq<char>) -> Seq<char> {
    "Merged branch "@ + branch
}

/// Whether all of merge's guards pass: not `master` itself, both ledgers
/// present and nonempty, the head on `master`'s tip, all three snapshots
/// stored.
pub open spec fn merge_guards_pass(v: StateV, branch: Seq<char>) -> bool {
    &&& branch != master()
    &&& branch_index(v.branches, master()) >= 0
    &&& ledger_of(v.branches, master()).len() > 0
    &&& branch_index(v.branches, branch) >= 0
    &&& ledger_of(v.branches, branch).len() > 0
    &&& ledger_of(v.branches, master()).last() == v.cur_commit
    &&& store_index(v.snapshots, ledger_of(v.branches, master()).last()) >= 0
    &&& store_index(v.snapshots, ledger_of(v.branches, branch).last()) >= 0
    &&& store_index(v.snapshots, ledger_of(v.branches, branch)[0]) >= 0
}

/// The state after merging `branch` into `master`: unchanged unless every
/// guard passes, the scan finds no failure and no conflict, and the
/// merged list's hash is fresh; then the merged list is committed on
/// `master` and the branch's record is removed.
pub open spec fn merge_next(v: StateV, branch: Seq<char>, ts: u64) -> StateV {
    if merge_guards_pass(v, branch) && (merge_scan_of(v, branch) matches MergeScan::Merged { files }
        && cc_ok(v, files)) {
        let files = merge_scan_of(v, branch)->Merged_files;
        let committed = cc_apply(v, merge_msg(branch), master(), files, ts);
        StateV { branches: remove_branch_spec(committed.branches, branch), ..committed }
    } else {
        v
    }
}

/// The result a merge of `branch` reports for each state: each refusal
/// and error in the order the guards are checked, the first conflicting
/// path, or the merge commit's id with its change set over the former
/// `master` tip.
pub open spec fn merge_result_matches(
    v: StateV,
    branch: Seq<char>,
    ts: u64,
    r: Result<MergeResult, VcsError>,
) -> bool {
    let mled = ledger_of(v.branches, master());
    let bled = ledger_of(v.branches, branch);
    if branch == master() {
        r matches Ok(mr) && mr is MergeWithMaster
    } else if branch_index(v.branches, master()) == -1 {
        r == Err::<MergeResult, VcsError>(VcsError::BranchNotFound)
    } else if mled.len() == 0 {
        r == Err::<MergeResult, VcsError>(VcsError::CommitNotFound)
    } else if branch_index(v.branches, branch) == -1 {
        r == Err::<MergeResult, VcsError>(VcsError::BranchNotFound)
    } else if bled.len() == 0 {
        r == Err::<MergeResult, VcsError>(VcsError::CommitNotFound)
    } else if mled.last() != v.cur_commit {
        r matches Ok(mr) && mr is NotLastCommit
    } else if store_index(v.snapshots, mled.last()) == -1 {
        r == Err::<MergeResult, VcsError>(VcsError::CommitNotFound)
    } else if store_index(v.snapshots, bled.last()) == -1 {
        r == Err::<MergeResult, VcsError>(VcsError::CommitNotFound)
    } else if store_index(v.snapshots, bled[0]) == -1 {
        r == Err::<MergeResult, VcsError>(VcsError::CommitNotFound)
    } else if merge_scan_of(v, branch) is Failed {
        r == Err::<MergeResult, VcsError>(VcsError::FileNotFound)
    } else if merge_scan_of(v, branch) is Conflict {
        r matches Ok(MergeResult::MergeConflict { commit1, commit2, path: p }) && commit1@
            == mled.last() && commit2@ == bled.last() && p@ == merge_scan_of(v, branch)->Conflict_path
    } else if !cc_ok(v, merge_scan_of(v, branch)->Merged_files) {
        r == Err::<MergeResult, VcsError>(VcsError::CommitExists)
    } else {
        let files = merge_scan_of(v, branch)->Merged_files;
        r matches Ok(MergeResult::Success { commit, file_changes }) && commit@
            == contents_hash_of(files) && file_changes.deep_view() == file_changes_spec(
            files,
            store_tree(v.snapshots, mled.last()),
        )
    }
}

/// Whether some change record of the list concerns the given path.
fn changes_contain(changes: &Vec<ChangeRecord>, p: &Vec<u8>) -> (r: bool)
    ensures
        r == has_change_at(changes.deep_view(), p@),
{
    broadcast use crate::lemma_bytes_deep_view;

    let ghost cm = changes.deep_view();
    let mut i: usize = 0;
    while i < changes.len()
        invariant
            0 <= i <= changes.len(),
            cm == changes.deep_view(),
            cm.len() == changes.len(),
            forall|j: int| 0 <= j < i ==> (#[trigger] cm[j]).path != p@,
        decreases changes.len() - i,
    {
        let hit = changes[i].path == *p;
        proof {
            assert(cm[i as int] == changes[i as int].deep_view());
            if hit {
                assert(changes[i as int].path@ =~= p@);
            } else {
                if changes[i as int].path@ == p@ {
                    assert(changes[i as int].path.eq_spec(p));
                }
            }
        }
        if hit {
            proof {
                assert(cm[i as int].path == p@);
            }
            return true;
        }
        i = i + 1;
    }
    proof {
        if has_change_at(cm, p@) {
            let w = choose|j: int| 0 <= j < cm.len() && (#[trigger] cm[j]).path == p@;
            assert(cm[w].path != p@);
        }
    }
    false
}

/// Merge the given branch into `master`: allowed only from `master`'s
/// tip; a path changed differently on both sides since the fork point is
/// a conflict and nothing changes; otherwise the merged file list is
/// committed on `master` and the source branch's record is removed.
pub fn merge_in_repo(state: &mut VcsStateManager, branch: &String, timestamp: u64) -> (r: Result<
    MergeResult,
    VcsError,
>)
    ensures
        final(state)@ == merge_next(old(state)@, branch@, timestamp),
        merge_result_matches(old(state)@, branch@, timestamp, r),
{
    broadcast use crate::lemma_bytes_deep_view;

    let ghost v = old(state)@;
    let m = master_name();
    if *branch == m {
        return Ok(MergeResult::MergeWithMaster);
    }
    let master_l = match state.get_commits(&m) {
        None => {
            return Err(VcsError::BranchNotFound);
        },
        Some(l) => l,
    };
    if master_l.len() == 0 {
        return Err(VcsError::CommitNotFound);
    }
    let last_master_commit = master_l[master_l.len() - 1].clone();
    proof {
        assert(last_master_commit@ == ledger_of(v.branches, master()).last());
    }
    let branch_l = match state.get_commits(branch) {
        None => {
            return Err(VcsError::BranchNotFound);
        },
        Some(l) => l,
    };
    if branch_l.len() == 0 {
        return Err(VcsError::CommitNotFound);
    }
    let last_branch_commit = branch_l[branch_l.len() - 1].clone();
    proof {
        assert(last_branch_commit@ == ledger_of(v.branches, branch@).last());
    }
    let cur = state.get_commit();
    if last_master_commit != cur {
        return Ok(MergeResult::NotLastCommit);
    }
    let common_commit = branch_l[0].clone();
    proof {
        assert(common_commit@ == ledger_of(v.branches, branch@)[0]);
    }
    let master_contents = match state.get_commit_contents(&last_master_commit) {
        Err(e) => {
            return Err(e);
        },
        Ok(t) => t,
    };
    let branch_contents = match state.get_commit_contents(&last_branch_commit) {
        Err(e) => {
            return Err(e);
        },
        Ok(t) => t,
    };
    let common_contents = match state.get_commit_contents(&common_commit) {
        Err(e) => {
            return Err(e);
        },
        Ok(t) => t,
    };
    let ghost mtree = master_contents.deep_view();
    let ghost btree = branch_contents.deep_view();
    let file_changes_master = get_file_changes(&master_contents, &common_contents);
    let file_changes_branch = get_file_changes(&branch_contents, &common_contents);
    let ghost mcs = file_changes_master.deep_view();
    let ghost bcs = file_changes_branch.deep_view();
    let mut files_to_merge = clone_tree(&branch_contents);
    let mut i: usize = 0;
    proof {
        assert(mcs.skip(0) =~= mcs);
        assert(merge_scan_of(v, branch@) == merge_scan(
            mcs.skip(0),
            bcs,
            mtree,
            btree,
            files_to_merge.deep_view(),
        ));
    }
    while i < file_changes_master.len()
        invariant
            0 <= i <= file_changes_master.len(),
            v == old(state)@,
            state@ == v,
            merge_guards_pass(v, branch@),
            last_master_commit@ == ledger_of(v.branches, master()).last(),
            last_branch_commit@ == ledger_of(v.branches, branch@).last(),
            mtree == store_tree(v.snapshots, ledger_of(v.branches, master()).last()),
            btree == store_tree(v.snapshots, ledger_of(v.branches, branch@).last()),
            mcs == file_changes_master.deep_view(),
            mcs.len() == file_changes_master.len(),
            bcs == file_changes_branch.deep_view(),
            mtree == master_contents.deep_view(),
            btree == branch_contents.deep_view(),
            merge_scan_of(v, branch@) == merge_scan(
                mcs.skip(i as int),
                bcs,
                mtree,
                btree,
                files_to_merge.deep_view(),
            ),
        decreases file_changes_master.len() - i,
    {
        let ghost scur = mcs.skip(i as int);
        proof {
            assert(scur[0] == mcs[i as int]);
            assert(scur.drop_first() =~= mcs.skip(i + 1));
        }
        let rel = &file_changes_master[i].path;
        proof {
            assert(rel@ == mcs[i as int].path);
        }
        if changes_contain(&file_changes_branch, rel) {
            let mi = find_entry(&master_contents, rel);
            let bi = find_entry(&branch_contents, rel);
            let mfile = match mi {
                Some(k) => master_contents[k].is_file,
                None => false,
            };
            let bfile = match bi {
                Some(k) => branch_contents[k].is_file,
                None => false,
            };
            proof {
                if mi is Some {
                    assert(mtree[mi->Some_0 as int] == master_contents[mi->Some_0 as int].deep_view());
                }
                if bi is Some {
                    assert(btree[bi->Some_0 as int] == branch_contents[bi->Some_0 as int].deep_view());
                }
            }
            proof {
                let smi = entry_index(mtree, scur[0].path);
                let sbi = entry_index(btree, scur[0].path);
                assert((smi >= 0 && mtree[smi].is_file) == mfile);
                assert((sbi >= 0 && btree[sbi].is_file) == bfile);
            }
            if mfile != bfile {
                proof {
                    assert(merge_scan(scur, bcs, mtree, btree, files_to_merge.deep_view())
                        == (MergeScan::Conflict { path: rel@ }));
                }
                let conflict_path = rel.clone();
                proof {
                    assert(conflict_path@ =~= rel@);
                }
                return Ok(
                    MergeResult::MergeConflict {
                        commit1: last_master_commit,
                        commit2: last_branch_commit,
                        path: conflict_path,
                    },
                );
            }
            match mi {
                Some(k) => {
                    if !master_contents[k].is_file {
                        // Directories merge silently.
                    } else {
                        let bk = match bi {
                            Some(bk) => bk,
                            None => {
                                proof {
                                    assert(false);
                                }
                                vstd::pervasive::unreached()
                            },
                        };
                        if !files_equal(&master_contents[k], &branch_contents[bk]) {
                            proof {
                                assert(merge_scan(
                                    scur,
                                    bcs,
                                    mtree,
                                    btree,
                                    files_to_merge.deep_view(),
                                ) == (MergeScan::Conflict { path: rel@ }));
                            }
                            let conflict_path = rel.clone();
                            proof {
                                assert(conflict_path@ =~= rel@);
                            }
                            return Ok(
                                MergeResult::MergeConflict {
                                    commit1: last_master_commit,
                                    commit2: last_branch_commit,
                                    path: conflict_path,
                                },
                            );
                        }
                    }
                },
                None => {
                    return Err(VcsError::FileNotFound);
                },
            }
        } else {
            if find_entry(&branch_contents, rel).is_some() {
                // The branch tip already carries this path.
            } else {
                let ghost before = files_to_merge.deep_view();
                match find_entry(&master_contents, rel) {
                    Some(k) => {
                        let e = master_contents[k].clone();
                        files_to_merge.push(e);
                        proof {
                            assert(files_to_merge.deep_view() =~= before.push(
                                mtree[entry_index(mtree, rel@)],
                            ));
                        }
                    },
                    None => {
                        let dir_entry = TreeEntry {
                            path: rel.clone(),
                            is_file: false,
                            data: Vec::new(),
                        };
                        proof {
                            assert(dir_entry.path@ =~= rel@);
                            assert(dir_entry.data@ =~= Seq::<u8>::empty());
                            assert(dir_entry.deep_view() =~= (EntryModel {
                                path: rel@,
                                is_file: false,
                                data: Seq::empty(),
                            }));
                        }
                        files_to_merge.push(dir_entry);
                        proof {
                            assert(files_to_merge.deep_view() =~= before.push(
                                (EntryModel { path: rel@, is_file: false, data: Seq::empty() }),
                            ));
                        }
                    },
                }
            }
        }
        i = i + 1;
    }
    proof {
        assert(mcs.skip(mcs.len() as int).len() == 0);
        assert(merge_scan_of(v, branch@) == (MergeScan::Merged {
            files: files_to_merge.deep_view(),
        }));
    }
    let mut message: String = "Merged branch ".to_owned();
    message.append(branch.as_str());
    proof {
        assert(message@ == merge_msg(branch@));
    }
    let new_commit = match state.commit_contents(&message, &m, &files_to_merge, timestamp) {
        Err(e) => {
            return Err(e);
        },
        Ok(c) => c,
    };
    let file_changes = get_file_changes(&files_to_merge, &master_contents);
    state.remove_branch(branch);
    proof {
        assert(state@ =~= merge_next(v, branch@, timestamp));
    }
    Ok(MergeResult::Success { commit: new_commit, file_changes })
}

} // verus!
