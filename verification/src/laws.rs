use vstd::prelude::*;

verus! {

use crate::tree::{EntryModel, file_changes_spec};
use crate::state::{StateV, store_index, store_tree, cc_ok, cc_apply};
use crate::state::{lemma_store_index, lemma_store_index_at};
use crate::metadata::{
    BranchDataV,
    branch_index,
    ledger_of,
    add_branch_spec,
    lemma_branch_index,
    lemma_branch_index_at,
};
use crate::hashing::contents_hash_of;
use crate::commands::commit::{commit_next, commit_result_matches};
use crate::commands::merge::{
    MergeResult,
    MergeScan,
    merge_scan,
    merge_scan_of,
    merge_guards_pass,
    merge_result_matches,
    has_change_at,
};
use crate::tree::entry_index;

/// Committing with no working-tree changes since the head commit is a
/// no-op: the reported change set is empty and the state — catalog,
/// ledgers, snapshots and head — is untouched.
pub proof fn lemma_noop_commit(v: StateV, msg: Seq<char>, ts: u64, r: Result<
    crate::commands::commit::CommitResult,
    crate::VcsError,
>)
    requires
        branch_index(v.branches, v.cur_branch) >= 0,
        ledger_of(v.branches, v.cur_branch).len() > 0,
        ledger_of(v.branches, v.cur_branch).last() == v.cur_commit,
        store_index(v.snapshots, v.cur_commit) >= 0,
        file_changes_spec(v.working, store_tree(v.snapshots, v.cur_commit)) == Seq::<
            crate::tree::ChangeModel,
        >::empty(),
        commit_result_matches(v, msg, ts, r),
    ensures
        commit_next(v, msg, ts) == v,
        r matches Ok(cr) && cr.successful && cr.commit@ == v.cur_commit
            && cr.file_changes.deep_view().len() == 0,
{
}

/// Status/commit consistency: on a state where a commit is permitted
/// (the head sits on its branch's tip), the change set that `status`
/// reports and the change set that `commit` records are one and the
/// same sequence: the diff of the working tree against the head
/// snapshot.
pub proof fn lemma_status_commit_consistency(v: StateV, msg: Seq<char>, ts: u64, rs: Result<
    crate::commands::status::StatusResult,
    crate::VcsError,
>, rc: Result<crate::commands::commit::CommitResult, crate::VcsError>)
    requires
        branch_index(v.branches, v.cur_branch) >= 0,
        ledger_of(v.branches, v.cur_branch).len() > 0,
        ledger_of(v.branches, v.cur_branch).last() == v.cur_commit,
        store_index(v.snapshots, v.cur_commit) >= 0,
        rs matches Ok(s) && s.file_changes.deep_view() == file_changes_spec(
            v.working,
            store_tree(v.snapshots, v.cur_commit),
        ),
        commit_result_matches(v, msg, ts, rc),
        rc is Ok,
    ensures
        rs->Ok_0.file_changes.deep_view() == rc->Ok_0.file_changes.deep_view(),
{
}

/// A well-formed snapshot: no two entries share a path. Every tree read
/// from a directory walk has this shape.
pub open spec fn tree_wf(t: Seq<EntryModel>) -> bool {
    forall|i: int, j: int|
        0 <= i < t.len() && 0 <= j < t.len() && i != j ==> (#[trigger] t[i]).path != (
        #[trigger] t[j]).path
}

/// A duplicate-free tree diffed against itself yields no changes: every
/// entry is matched by itself and consumed silently.
pub proof fn lemma_diff_of_identical_trees(a: Seq<EntryModel>)
    requires
        tree_wf(a),
    ensures
        file_changes_spec(a, a) == Seq::<crate::tree::ChangeModel>::empty(),
{
    assert forall|n: int| 0 <= n <= a.len() implies crate::tree::added_modified(a.take(n), a)
        =~= Seq::<crate::tree::ChangeModel>::empty() by {
        lemma_added_modified_self_empty(a, n);
    }
    assert(a.take(a.len() as int) =~= a);
    assert forall|n: int| 0 <= n <= a.len() implies crate::tree::removed_changes(a, a.take(n))
        =~= Seq::<crate::tree::ChangeModel>::empty() by {
        lemma_removed_self_empty(a, n);
    }
    assert(file_changes_spec(a, a) =~= Seq::<crate::tree::ChangeModel>::empty());
}

proof fn lemma_added_modified_self_empty(a: Seq<EntryModel>, n: int)
    requires
        tree_wf(a),
        0 <= n <= a.len(),
    ensures
        crate::tree::added_modified(a.take(n), a) =~= Seq::<crate::tree::ChangeModel>::empty(),
    decreases n,
{
    if n > 0 {
        lemma_added_modified_self_empty(a, n - 1);
        assert(a.take(n).drop_last() =~= a.take(n - 1));
        assert(a.take(n).last() == a[n - 1]);
        crate::tree::lemma_entry_index_first(a, a[n - 1].path, n - 1);
    }
}

proof fn lemma_removed_self_empty(a: Seq<EntryModel>, n: int)
    requires
        tree_wf(a),
        0 <= n <= a.len(),
    ensures
        crate::tree::removed_changes(a, a.take(n)) =~= Seq::<crate::tree::ChangeModel>::empty(),
    decreases n,
{
    if n > 0 {
        lemma_removed_self_empty(a, n - 1);
        assert(a.take(n).drop_last() =~= a.take(n - 1));
        assert(a.take(n).last() == a[n - 1]);
        crate::tree::lemma_entry_index_first(a, a[n - 1].path, n - 1);
    }
}

/// A fresh commit leaves a clean head: immediately after committing a
/// duplicate-free working tree, the working tree and the head commit's
/// snapshot diff to nothing — which is also what lets a later jump leave
/// this commit and, by the jump contract, restore this exact tree.
pub proof fn lemma_commit_leaves_clean_head(v: StateV, msg: Seq<char>, ts: u64)
    requires
        tree_wf(v.working),
        cc_ok(v, v.working),
    ensures
        ({
            let v1 = cc_apply(v, msg, v.cur_branch, v.working, ts);
            file_changes_spec(v1.working, store_tree(v1.snapshots, v1.cur_commit)) == Seq::<
                crate::tree::ChangeModel,
            >::empty()
        }),
{
    lemma_commit_stores_tree(v, msg, v.cur_branch, v.working, ts);
    lemma_diff_of_identical_trees(v.working);
}

/// A commit stores its own tree: after applying a commit of `contents`
/// whose hash is fresh, the snapshot store maps the new commit id to
/// exactly `contents`.
pub proof fn lemma_commit_stores_tree(
    v: StateV,
    msg: Seq<char>,
    branch: Seq<char>,
    contents: Seq<EntryModel>,
    ts: u64,
)
    requires
        cc_ok(v, contents),
    ensures
        store_tree(cc_apply(v, msg, branch, contents, ts).snapshots, contents_hash_of(contents))
            == contents,
{
    let h = contents_hash_of(contents);
    let st = cc_apply(v, msg, branch, contents, ts).snapshots;
    lemma_store_index(v.snapshots, h);
    assert(forall|i: int| 0 <= i < v.snapshots.len() ==> (#[trigger] v.snapshots[i]).id != h);
    assert(forall|i: int| 0 <= i < v.snapshots.len() ==> st[i] == #[trigger] v.snapshots[i]);
    assert(st[v.snapshots.len() as int].id == h);
    lemma_store_index_at(st, h, v.snapshots.len() as int);
}

/// Snapshot immutability, the other half of the jump round-trip: any
/// later commit only appends to the snapshot store and leaves what an
/// existing commit id resolves to unchanged. Together with
/// `lemma_commit_stores_tree` and the jump contract, jumping back to a
/// commit of tree `W` restores the working tree to exactly `W`.
pub proof fn lemma_later_commits_preserve_snapshots(
    v: StateV,
    msg: Seq<char>,
    branch: Seq<char>,
    contents: Seq<EntryModel>,
    ts: u64,
    id: Seq<char>,
)
    requires
        store_index(v.snapshots, id) >= 0,
    ensures
        store_tree(cc_apply(v, msg, branch, contents, ts).snapshots, id) == store_tree(
            v.snapshots,
            id,
        ),
{
    crate::state::lemma_store_append_preserves_lookup(
        v.snapshots,
        (crate::state::SnapshotV { id: contents_hash_of(contents), tree: contents }),
        id,
    );
}

/// Appending a commit to one branch's ledger never touches another
/// branch's ledger: its record, and hence its last commit id, stay as
/// they were.
pub proof fn lemma_add_branch_commit_isolated(
    bs: Seq<BranchDataV>,
    name: Seq<char>,
    c: Seq<char>,
    other: Seq<char>,
)
    requires
        other != name,
    ensures
        branch_index(add_branch_spec(bs, name, c), other) == branch_index(bs, other),
        ledger_of(add_branch_spec(bs, name, c), other) == ledger_of(bs, other),
{
    let bs2 = add_branch_spec(bs, name, c);
    let k = branch_index(bs, name);
    let j = branch_index(bs, other);
    lemma_branch_index(bs, name);
    lemma_branch_index(bs, other);
    if k < 0 {
        if j < 0 {
            lemma_branch_index(bs2, other);
            if branch_index(bs2, other) >= 0 {
                assert(bs2[branch_index(bs2, other)].name == other);
                assert(branch_index(bs2, other) == bs.len());
            }
        } else {
            assert(forall|i: int| 0 <= i < j ==> (#[trigger] bs2[i]).name == bs[i].name);
            lemma_branch_index_at(bs2, other, j);
        }
    } else {
        if j < 0 {
            lemma_branch_index(bs2, other);
            if branch_index(bs2, other) >= 0 {
                let w = branch_index(bs2, other);
                assert(bs2[w].name == other);
                assert(bs[w].name == if w == k {
                    name
                } else {
                    bs[w].name
                });
            }
        } else {
            assert(j != k);
            assert(bs2[j].name == other);
            assert(forall|i: int| 0 <= i < j ==> (#[trigger] bs2[i]).name == bs[i].name);
            lemma_branch_index_at(bs2, other, j);
            assert(bs2[j] == bs[j]);
        }
    }
}

/// Branch isolation: a commit applied while the head is on branch `b`
/// leaves every other branch's ledger — `master`'s in particular —
/// exactly as it was.
pub proof fn lemma_commit_branch_isolated(
    v: StateV,
    msg: Seq<char>,
    contents: Seq<EntryModel>,
    ts: u64,
    other: Seq<char>,
)
    requires
        other != v.cur_branch,
    ensures
        ledger_of(cc_apply(v, msg, v.cur_branch, contents, ts).branches, other) == ledger_of(
            v.branches,
            other,
        ),
{
    lemma_add_branch_commit_isolated(
        v.branches,
        v.cur_branch,
        contents_hash_of(contents),
        other,
    );
}

/// Whether the two tip trees agree at a path: they hold the same kind of
/// entry there, and for files the same bytes. Directories agree with
/// each other and with their own absence on the branch side.
pub open spec fn sides_agree(mtree: Seq<EntryModel>, btree: Seq<EntryModel>, p: Seq<u8>) -> bool {
    let mi = entry_index(mtree, p);
    let bi = entry_index(btree, p);
    let mfile = mi >= 0 && mtree[mi].is_file;
    let bfile = bi >= 0 && btree[bi].is_file;
    &&& mfile == bfile
    &&& (mfile ==> mtree[mi].data == btree[bi].data)
}

/// A conflict is sound: when the scan reports a conflicting path, that
/// path was changed on both sides and the two tips disagree on it.
pub proof fn lemma_scan_conflict_sound(
    mcs: Seq<crate::tree::ChangeModel>,
    bcs: Seq<crate::tree::ChangeModel>,
    mtree: Seq<EntryModel>,
    btree: Seq<EntryModel>,
    acc: Seq<EntryModel>,
)
    requires
        merge_scan(mcs, bcs, mtree, btree, acc) is Conflict,
    ensures
        ({
            let p = merge_scan(mcs, bcs, mtree, btree, acc)->Conflict_path;
            &&& has_change_at(mcs, p)
            &&& has_change_at(bcs, p)
            &&& !sides_agree(mtree, btree, p)
        }),
    decreases mcs.len(),
{
    let p = merge_scan(mcs, bcs, mtree, btree, acc)->Conflict_path;
    let rel = mcs[0].path;
    if has_change_at(bcs, rel) {
        let mi = entry_index(mtree, rel);
        let bi = entry_index(btree, rel);
        let mfile = mi >= 0 && mtree[mi].is_file;
        let bfile = bi >= 0 && btree[bi].is_file;
        if mfile != bfile {
            assert(mcs[0].path == p);
        } else if mi >= 0 && !mtree[mi].is_file {
            lemma_scan_conflict_sound(mcs.drop_first(), bcs, mtree, btree, acc);
            assert(has_change_at(mcs.drop_first(), p) ==> has_change_at(mcs, p)) by {
                if has_change_at(mcs.drop_first(), p) {
                    let w = choose|i: int|
                        0 <= i < mcs.drop_first().len() && (#[trigger] mcs.drop_first()[i]).path
                            == p;
                    assert(mcs[w + 1].path == p);
                }
            }
        } else if mi < 0 {
        } else if mtree[mi].data == btree[bi].data {
            lemma_scan_conflict_sound(mcs.drop_first(), bcs, mtree, btree, acc);
            assert(has_change_at(mcs.drop_first(), p) ==> has_change_at(mcs, p)) by {
                if has_change_at(mcs.drop_first(), p) {
                    let w = choose|i: int|
                        0 <= i < mcs.drop_first().len() && (#[trigger] mcs.drop_first()[i]).path
                            == p;
                    assert(mcs[w + 1].path == p);
                }
            }
        } else {
            assert(mcs[0].path == p);
        }
    } else {
        let acc2 = if entry_index(btree, rel) >= 0 {
            acc
        } else if entry_index(mtree, rel) >= 0 {
            acc.push(mtree[entry_index(mtree, rel)])
        } else {
            acc.push(EntryModel { path: rel, is_file: false, data: Seq::empty() })
        };
        lemma_scan_conflict_sound(mcs.drop_first(), bcs, mtree, btree, acc2);
        assert(has_change_at(mcs.drop_first(), p) ==> has_change_at(mcs, p)) by {
            if has_change_at(mcs.drop_first(), p) {
                let w = choose|i: int|
                    0 <= i < mcs.drop_first().len() && (#[trigger] mcs.drop_first()[i]).path == p;
                assert(mcs[w + 1].path == p);
            }
        }
    }
}

/// A merge conflict is genuine: whenever `merge` reports a conflicting
/// path, that path was changed since the fork point on both the `master`
/// side and the branch side, and the two tips disagree on its content.
pub proof fn lemma_merge_conflict_is_genuine(v: StateV, branch: Seq<char>, ts: u64, r: Result<
    MergeResult,
    crate::VcsError,
>)
    requires
        merge_guards_pass(v, branch),
        merge_result_matches(v, branch, ts, r),
        r matches Ok(mr) && mr is MergeConflict,
    ensures
        ({
            let mtip = ledger_of(v.branches, crate::metadata::master()).last();
            let btip = ledger_of(v.branches, branch).last();
            let common = ledger_of(v.branches, branch)[0];
            let mtree = store_tree(v.snapshots, mtip);
            let btree = store_tree(v.snapshots, btip);
            let ctree = store_tree(v.snapshots, common);
            let p = r->Ok_0->MergeConflict_path@;
            &&& has_change_at(file_changes_spec(mtree, ctree), p)
            &&& has_change_at(file_changes_spec(btree, ctree), p)
            &&& !sides_agree(mtree, btree, p)
        }),
{
    let mtip = ledger_of(v.branches, crate::metadata::master()).last();
    let btip = ledger_of(v.branches, branch).last();
    let common = ledger_of(v.branches, branch)[0];
    let mtree = store_tree(v.snapshots, mtip);
    let btree = store_tree(v.snapshots, btip);
    let ctree = store_tree(v.snapshots, common);
    assert(merge_scan_of(v, branch) is Conflict);
    lemma_scan_conflict_sound(
        file_changes_spec(mtree, ctree),
        file_changes_spec(btree, ctree),
        mtree,
        btree,
        btree,
    );
}

/// Coinciding changes never conflict at the level of `merge` itself:
/// when the two tips agree on every path changed on both sides, and the
/// `master` tip holds an entry for each such path, `merge` does not
/// report a conflict.
pub proof fn lemma_merge_agreement_never_conflicts(
    v: StateV,
    branch: Seq<char>,
    ts: u64,
    r: Result<MergeResult, crate::VcsError>,
)
    requires
        merge_guards_pass(v, branch),
        merge_result_matches(v, branch, ts, r),
        ({
            let mtip = ledger_of(v.branches, crate::metadata::master()).last();
            let btip = ledger_of(v.branches, branch).last();
            let common = ledger_of(v.branches, branch)[0];
            let mtree = store_tree(v.snapshots, mtip);
            let btree = store_tree(v.snapshots, btip);
            let ctree = store_tree(v.snapshots, common);
            let mcs = file_changes_spec(mtree, ctree);
            let bcs = file_changes_spec(btree, ctree);
            &&& forall|i: int|
                0 <= i < mcs.len() && has_change_at(bcs, (#[trigger] mcs[i]).path) ==> sides_agree(
                    mtree,
                    btree,
                    mcs[i].path,
                )
            &&& forall|i: int|
                0 <= i < mcs.len() && has_change_at(bcs, (#[trigger] mcs[i]).path) ==> entry_index(
                    mtree,
                    mcs[i].path,
                ) >= 0
        }),
    ensures
        !(r matches Ok(mr) && mr is MergeConflict),
{
    let mtip = ledger_of(v.branches, crate::metadata::master()).last();
    let btip = ledger_of(v.branches, branch).last();
    let common = ledger_of(v.branches, branch)[0];
    let mtree = store_tree(v.snapshots, mtip);
    let btree = store_tree(v.snapshots, btip);
    let ctree = store_tree(v.snapshots, common);
    lemma_scan_agreement_merges(
        file_changes_spec(mtree, ctree),
        file_changes_spec(btree, ctree),
        mtree,
        btree,
        btree,
    );
}

/// Coinciding changes do not conflict: when the two tips agree on every
/// path that was changed on both sides, and the `master` tip still holds
/// an entry for each such path, the scan ends with a merged file list —
/// never with a conflict and never with a failure.
pub proof fn lemma_scan_agreement_merges(
    mcs: Seq<crate::tree::ChangeModel>,
    bcs: Seq<crate::tree::ChangeModel>,
    mtree: Seq<EntryModel>,
    btree: Seq<EntryModel>,
    acc: Seq<EntryModel>,
)
    requires
        forall|i: int|
            0 <= i < mcs.len() && has_change_at(bcs, (#[trigger] mcs[i]).path) ==> sides_agree(
                mtree,
                btree,
                mcs[i].path,
            ),
        forall|i: int|
            0 <= i < mcs.len() && has_change_at(bcs, (#[trigger] mcs[i]).path) ==> entry_index(
                mtree,
                mcs[i].path,
            ) >= 0,
    ensures
        merge_scan(mcs, bcs, mtree, btree, acc) is Merged,
    decreases mcs.len(),
{
    if mcs.len() > 0 {
        let rel = mcs[0].path;
        assert(mcs[0].path == rel);
        assert(forall|i: int|
            0 <= i < mcs.drop_first().len() ==> (#[trigger] mcs.drop_first()[i]) == mcs[i + 1]);
        if has_change_at(bcs, rel) {
            let acc2 = acc;
            lemma_scan_agreement_merges(mcs.drop_first(), bcs, mtree, btree, acc2);
        } else {
            let acc2 = if entry_index(btree, rel) >= 0 {
                acc
            } else if entry_index(mtree, rel) >= 0 {
                acc.push(mtree[entry_index(mtree, rel)])
            } else {
                acc.push(EntryModel { path: rel, is_file: false, data: Seq::empty() })
            };
            lemma_scan_agreement_merges(mcs.drop_first(), bcs, mtree, btree, acc2);
        }
    }
}

} // verus!
