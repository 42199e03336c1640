use vstd::prelude::*;

verus! {

use crate::VcsError;
use crate::tree::{TreeEntry, EntryModel, ChangeRecord, get_file_changes, file_changes_spec};
use crate::hashing::{get_contents_hash, contents_hash_of};
use crate::metadata::{
    CommitData,
    CommitDataV,
    CommitList,
    BranchData,
    BranchDataV,
    BranchList,
    commit_index,
    branch_index,
    ledger_of,
    cid_index,
    add_branch_spec,
    remove_branch_spec,
    owning_branch,
    nonmaster_index,
    lemma_nonmaster_index,
    lemma_nonmaster_index_at,
    find_commit,
    find_branch,
    find_cid,
    ledger_contains,
    master,
    master_name,
};

broadcast use crate::lemma_bytes_deep_view;

/// One stored snapshot: a commit id and the full copy of the tracked
/// tree it was made from. Never mutated after creation.
pub struct Snapshot {
    pub id: String,
    pub tree: Vec<TreeEntry>,
}

/// Mathematical model of a stored snapshot.
#[verifier::ext_equal]
pub ghost struct SnapshotV {
    pub id: Seq<char>,
    pub tree: Seq<EntryModel>,
}

impl DeepView for Snapshot {
    type V = SnapshotV;

    open spec fn deep_view(&self) -> SnapshotV {
        SnapshotV { id: self.id@, tree: self.tree.deep_view() }
    }
}

/// First store position of the snapshot with id `id`, or `-1`.
pub open spec fn store_index(st: Seq<SnapshotV>, id: Seq<char>) -> int
    decreases st.len(),
{
    if st.len() == 0 {
        -1
    } else if st[0].id == id {
        0
    } else {
        let r = store_index(st.drop_first(), id);
        if r < 0 {
            -1
        } else {
            r + 1
        }
    }
}

/// The tree stored for commit `id`; empty if there is no such snapshot.
pub open spec fn store_tree(st: Seq<SnapshotV>, id: Seq<char>) -> Seq<EntryModel> {
    if store_index(st, id) >= 0 {
        st[store_index(st, id)].tree
    } else {
        Seq::empty()
    }
}

pub proof fn lemma_store_index(st: Seq<SnapshotV>, id: Seq<char>)
    ensures
        store_index(st, id) == -1 || (0 <= store_index(st, id) < st.len()),
        store_index(st, id) == -1 ==> forall|i: int| 0 <= i < st.len() ==> (#[trigger] st[i]).id
            != id,
        store_index(st, id) >= 0 ==> st[store_index(st, id)].id == id,
        store_index(st, id) >= 0 ==> forall|i: int|
            0 <= i < store_index(st, id) ==> (#[trigger] st[i]).id != id,
    decreases st.len(),
{
    if st.len() > 0 && st[0].id != id {
        lemma_store_index(st.drop_first(), id);
        assert(forall|i: int| 1 <= i < st.len() ==> st.drop_first()[i - 1] == #[trigger] st[i]);
    }
}

pub proof fn lemma_store_index_at(st: Seq<SnapshotV>, id: Seq<char>, k: int)
    requires
        0 <= k < st.len(),
        st[k].id == id,
        forall|i: int| 0 <= i < k ==> (#[trigger] st[i]).id != id,
    ensures
        store_index(st, id) == k,
    decreases st.len(),
{
    if k > 0 {
        lemma_store_index_at(st.drop_first(), id, k - 1);
    }
}

/// Appending a snapshot with a fresh id never changes what is stored
/// under an id already present: stored snapshots are immutable.
pub proof fn lemma_store_append_preserves_lookup(st: Seq<SnapshotV>, s: SnapshotV, id: Seq<char>)
    requires
        store_index(st, id) >= 0,
    ensures
        store_index(st.push(s), id) == store_index(st, id),
        store_tree(st.push(s), id) == store_tree(st, id),
{
    lemma_store_index(st, id);
    let k = store_index(st, id);
    assert(st.push(s)[k] == st[k]);
    assert(forall|i: int| 0 <= i < k ==> st.push(s)[i] == #[trigger] st[i]);
    lemma_store_index_at(st.push(s), id, k);
}

/// Find a snapshot by commit id: position of the first match.
pub fn find_snapshot(snapshots: &Vec<Snapshot>, id: &String) -> (r: Option<usize>)
    ensures
        match r {
            Some(i) => i < snapshots.len() && store_index(snapshots.deep_view(), id@) == i as int,
            None => store_index(snapshots.deep_view(), id@) == -1,
        },
{
    let ghost st = snapshots.deep_view();
    let mut i: usize = 0;
    while i < snapshots.len()
        invariant
            0 <= i <= snapshots.len(),
            st == snapshots.deep_view(),
            st.len() == snapshots.len(),
            forall|j: int| 0 <= j < i ==> (#[trigger] st[j]).id != id@,
        decreases snapshots.len() - i,
    {
        let hit = snapshots[i].id == *id;
        proof {
            assert(st[i as int] == snapshots[i as int].deep_view());
        }
        if hit {
            proof {
                lemma_store_index_at(st, id@, i as int);
            }
            return Some(i);
        }
        i = i + 1;
    }
    proof {
        lemma_store_index(st, id@);
    }
    None
}

/// Clone a tracked tree entry by entry.
pub fn clone_tree(t: &Vec<TreeEntry>) -> (r: Vec<TreeEntry>)
    ensures
        r.deep_view() == t.deep_view(),
{
    let mut r: Vec<TreeEntry> = Vec::new();
    let mut i: usize = 0;
    while i < t.len()
        invariant
            0 <= i <= t.len(),
            r.deep_view() == t.deep_view().take(i as int),
        decreases t.len() - i,
    {
        let e = t[i].clone();
        proof {
            assert(e.deep_view() == t.deep_view()[i as int]);
        }
        let ghost before = r.deep_view();
        r.push(e);
        proof {
            assert(r.deep_view() =~= before.push(t.deep_view()[i as int]));
            assert(r.deep_view() =~= t.deep_view().take(i + 1));
        }
        i = i + 1;
    }
    proof {
        assert(t.deep_view().take(t.len() as int) =~= t.deep_view());
    }
    r
}

/// The whole state of one repository, held in memory while a command
/// runs: the head pointer, the two catalogs, the snapshot store, and the
/// tracked working tree.
pub struct VcsStateManager {
    pub cur_commit: String,
    pub cur_branch: String,
    pub commit_list: CommitList,
    pub branch_list: BranchList,
    pub snapshots: Vec<Snapshot>,
    pub working: Vec<TreeEntry>,
}

/// Mathematical model of a repository state.
#[verifier::ext_equal]
pub ghost struct StateV {
    pub cur_commit: Seq<char>,
    pub cur_branch: Seq<char>,
    pub commits: Seq<CommitDataV>,
    pub branches: Seq<BranchDataV>,
    pub snapshots: Seq<SnapshotV>,
    pub working: Seq<EntryModel>,
}

impl View for VcsStateManager {
    type V = StateV;

    open spec fn view(&self) -> StateV {
        StateV {
            cur_commit: self.cur_commit@,
            cur_branch: self.cur_branch@,
            commits: self.commit_list.commits.deep_view(),
            branches: self.branch_list.branches.deep_view(),
            snapshots: self.snapshots.deep_view(),
            working: self.working.deep_view(),
        }
    }
}

impl VcsStateManager {
    /// A fresh state manager over the given working tree: empty head
    /// pointer and empty catalogs, as before initialization.
    pub fn init(working: Vec<TreeEntry>) -> (r: Self)
        ensures
            r@ == (StateV {
                cur_commit: Seq::<char>::empty(),
                cur_branch: Seq::<char>::empty(),
                commits: Seq::<CommitDataV>::empty(),
                branches: Seq::<BranchDataV>::empty(),
                snapshots: Seq::<SnapshotV>::empty(),
                working: working.deep_view(),
            }),
    {
        let r = VcsStateManager {
            cur_commit: String::new(),
            cur_branch: String::new(),
            commit_list: CommitList::new(),
            branch_list: BranchList::new(),
            snapshots: Vec::new(),
            working,
        };
        proof {
            assert(r@.commits =~= Seq::<CommitDataV>::empty());
            assert(r@.branches =~= Seq::<BranchDataV>::empty());
            assert(r@.snapshots =~= Seq::<SnapshotV>::empty());
            assert(r@ =~= (StateV {
                cur_commit: Seq::<char>::empty(),
                cur_branch: Seq::<char>::empty(),
                commits: Seq::<CommitDataV>::empty(),
                branches: Seq::<BranchDataV>::empty(),
                snapshots: Seq::<SnapshotV>::empty(),
                working: r.working.deep_view(),
            }));
        }
        r
    }

    /// The head pointer's current commit id.
    pub fn get_commit(&self) -> (r: String)
        ensures
            r@ == self@.cur_commit,
    {
        self.cur_commit.clone()
    }

    /// The head pointer's current branch name.
    pub fn get_branch(&self) -> (r: String)
        ensures
            r@ == self@.cur_branch,
    {
        self.cur_branch.clone()
    }

    /// Set the head pointer's commit, preserving the branch.
    pub fn set_commit(&mut self, commit: &String)
        ensures
            final(self)@ == (StateV { cur_commit: commit@, ..old(self)@ }),
    {
        self.cur_commit = commit.clone();
        proof {
            assert(self@ =~= (StateV { cur_commit: commit@, ..old(self)@ }));
        }
    }

    /// Set the head pointer's branch, preserving the commit.
    pub fn set_branch(&mut self, branch: &String)
        ensures
            final(self)@ == (StateV { cur_branch: branch@, ..old(self)@ }),
    {
        self.cur_branch = branch.clone();
        proof {
            assert(self@ =~= (StateV { cur_branch: branch@, ..old(self)@ }));
        }
    }

    /// A copy of the commit catalog.
    pub fn get_commit_list(&self) -> (r: CommitList)
        ensures
            r.commits.deep_view() == self@.commits,
    {
        let r = self.commit_list.clone();
        proof {
            assert(r.commits.deep_view() =~= self@.commits);
        }
        r
    }

    /// Replace the commit catalog.
    pub fn set_commit_list(&mut self, commit_list: CommitList)
        ensures
            final(self)@ == (StateV { commits: commit_list.commits.deep_view(), ..old(self)@ }),
    {
        self.commit_list = commit_list;
        proof {
            assert(self@ =~= (StateV { commits: self.commit_list.commits.deep_view(), ..old(
                self,
            )@ }));
        }
    }

    /// Append one record to the commit catalog.
    pub fn add_commit_data(&mut self, commit_data: CommitData)
        ensures
            final(self)@ == (StateV {
                commits: old(self)@.commits.push(commit_data.deep_view()),
                ..old(self)@
            }),
    {
        let ghost cd = commit_data.deep_view();
        self.commit_list.commits.push(commit_data);
        proof {
            assert(self@.commits =~= old(self)@.commits.push(cd));
            assert(self@ =~= (StateV { commits: old(self)@.commits.push(cd), ..old(self)@ }));
        }
    }

    /// Look a commit record up by its hash: a copy of the first record
    /// with that hash, or nothing.
    pub fn get_commit_data(&self, commit: &String) -> (r: Option<CommitData>)
        ensures
            match r {
                None => commit_index(self@.commits, commit@) == -1,
                Some(cd) => commit_index(self@.commits, commit@) >= 0 && cd.deep_view()
                    == self@.commits[commit_index(self@.commits, commit@)],
            },
    {
        match find_commit(&self.commit_list.commits, commit) {
            None => None,
            Some(i) => {
                let cd = self.commit_list.commits[i].clone();
                proof {
                    assert(cd.deep_view() == self.commit_list.commits[i as int].deep_view());
                }
                Some(cd)
            },
        }
    }

    /// A copy of the branch catalog.
    pub fn get_branch_list(&self) -> (r: BranchList)
        ensures
            r.branches.deep_view() == self@.branches,
    {
        self.branch_list.clone()
    }

    /// Replace the branch catalog.
    pub fn set_branch_list(&mut self, branch_list: BranchList)
        ensures
            final(self)@ == (StateV { branches: branch_list.branches.deep_view(), ..old(self)@ }),
    {
        self.branch_list = branch_list;
        proof {
            assert(self@ =~= (StateV { branches: self.branch_list.branches.deep_view(), ..old(
                self,
            )@ }));
        }
    }

    /// Append the commit to the given branch's ledger, creating the
    /// branch record when there is none.
    pub fn add_branch_commit(&mut self, branch: &String, commit: &String)
        ensures
            final(self)@ == (StateV {
                branches: add_branch_spec(old(self)@.branches, branch@, commit@),
                ..old(self)@
            }),
    {
        let ghost bs = self@.branches;
        match find_branch(&self.branch_list.branches, branch) {
            Some(i) => {
                let mut bd = self.branch_list.branches.remove(i);
                bd.commits.push(commit.clone());
                let ghost bdv = bd.deep_view();
                self.branch_list.branches.insert(i, bd);
                proof {
                    assert(bdv.commits =~= bs[i as int].commits.push(commit@));
                    assert(bdv =~= (BranchDataV {
                        name: bs[i as int].name,
                        commits: bs[i as int].commits.push(commit@),
                    }));
                    assert(self@.branches =~= bs.update(i as int, bdv));
                    assert(self@.branches =~= add_branch_spec(bs, branch@, commit@));
                    assert(self@ =~= (StateV {
                        branches: add_branch_spec(bs, branch@, commit@),
                        ..old(self)@
                    }));
                }
            },
            None => {
                let bd = BranchData::from(branch.clone(), commit.clone());
                self.branch_list.branches.push(bd);
                proof {
                    assert(self@.branches =~= bs.push(
                        (BranchDataV { name: branch@, commits: seq![commit@] }),
                    ));
                    assert(self@.branches =~= add_branch_spec(bs, branch@, commit@));
                    assert(self@ =~= (StateV {
                        branches: add_branch_spec(bs, branch@, commit@),
                        ..old(self)@
                    }));
                }
            },
        }
    }

    /// The ledger of the given branch, copied; nothing when the branch
    /// has no record.
    pub fn get_commits(&self, branch: &String) -> (r: Option<Vec<String>>)
        ensures
            match r {
                None => branch_index(self@.branches, branch@) == -1,
                Some(l) => branch_index(self@.branches, branch@) >= 0 && l.deep_view()
                    == self@.branches[branch_index(self@.branches, branch@)].commits,
            },
    {
        match find_branch(&self.branch_list.branches, branch) {
            None => None,
            Some(i) => {
                let l = self.branch_list.branches[i].commits.clone();
                proof {
                    assert(l.deep_view() =~= self.branch_list.branches[i as int].commits.deep_view());
                }
                Some(l)
            },
        }
    }

    /// Remove the branch's record from the catalog; no record, no change.
    pub fn remove_branch(&mut self, branch: &String)
        ensures
            final(self)@ == (StateV {
                branches: remove_branch_spec(old(self)@.branches, branch@),
                ..old(self)@
            }),
    {
        let ghost bs = self@.branches;
        match find_branch(&self.branch_list.branches, branch) {
            Some(i) => {
                self.branch_list.branches.remove(i);
                proof {
                    assert(self@.branches =~= bs.remove(i as int));
                    assert(self@ =~= (StateV {
                        branches: remove_branch_spec(bs, branch@),
                        ..old(self)@
                    }));
                }
            },
            None => {
                proof {
                    assert(self@ =~= (StateV {
                        branches: remove_branch_spec(bs, branch@),
                        ..old(self)@
                    }));
                }
            },
        }
    }

    /// A copy of the tree stored for the given commit; the commit must
    /// have a snapshot, else `CommitNotFound`.
    pub fn get_commit_contents(&self, commit: &String) -> (r: Result<Vec<TreeEntry>, VcsError>)
        ensures
            match r {
                Ok(t) => store_index(self@.snapshots, commit@) >= 0 && t.deep_view() == store_tree(
                    self@.snapshots,
                    commit@,
                ),
                Err(e) => store_index(self@.snapshots, commit@) == -1 && e
                    == VcsError::CommitNotFound,
            },
    {
        match find_snapshot(&self.snapshots, commit) {
            None => Err(VcsError::CommitNotFound),
            Some(i) => {
                let t = clone_tree(&self.snapshots[i].tree);
                proof {
                    assert(self@.snapshots[i as int] == self.snapshots[i as int].deep_view());
                }
                Ok(t)
            },
        }
    }

    /// The change set of the working tree relative to the given commit's
    /// snapshot.
    pub fn get_file_changes_commit(&self, commit: &String) -> (r: Result<Vec<ChangeRecord>, VcsError>)
        ensures
            match r {
                Ok(c) => store_index(self@.snapshots, commit@) >= 0 && c.deep_view()
                    == file_changes_spec(self@.working, store_tree(self@.snapshots, commit@)),
                Err(e) => store_index(self@.snapshots, commit@) == -1 && e
                    == VcsError::CommitNotFound,
            },
    {
        match find_snapshot(&self.snapshots, commit) {
            None => Err(VcsError::CommitNotFound),
            Some(i) => {
                proof {
                    assert(self@.snapshots[i as int] == self.snapshots[i as int].deep_view());
                }
                Ok(get_file_changes(&self.working, &self.snapshots[i].tree))
            },
        }
    }

    /// The branch owning the given commit: the first branch other than
    /// `master` whose ledger holds it, else `master` when some ledger
    /// holds it, else nothing.
    pub fn get_branch_with_commit(&self, commit: &String) -> (r: Option<String>)
        ensures
            match r {
                None => owning_branch(self@.branches, commit@) is None,
                Some(s) => owning_branch(self@.branches, commit@) == Some(s@),
            },
    {
        let ghost bs = self@.branches;
        let m = master_name();
        let mut res_branch: Option<String> = None;
        let mut i: usize = 0;
        while i < self.branch_list.branches.len()
            invariant
                0 <= i <= self.branch_list.branches.len(),
                bs == self@.branches,
                bs.len() == self.branch_list.branches.len(),
                m@ == master(),
                forall|j: int|
                    0 <= j < i ==> !((#[trigger] bs[j]).commits.contains(commit@) && bs[j].name
                        != master()),
                match res_branch {
                    None => forall|j: int|
                        0 <= j < i ==> !(#[trigger] bs[j]).commits.contains(commit@),
                    Some(s) => s@ == master() && exists|j: int|
                        0 <= j < i && (#[trigger] bs[j]).commits.contains(commit@),
                },
            decreases self.branch_list.branches.len() - i,
        {
            let b = &self.branch_list.branches[i];
            proof {
                assert(bs[i as int] == self.branch_list.branches[i as int].deep_view());
            }
            if ledger_contains(&b.commits, commit) {
                if b.name != m {
                    proof {
                        lemma_nonmaster_index_at(bs, commit@, i as int);
                    }
                    return Some(b.name.clone());
                }
                res_branch = Some(b.name.clone());
                proof {
                    assert(bs[i as int].commits.contains(commit@));
                }
            }
            i = i + 1;
        }
        proof {
            lemma_nonmaster_index(bs, commit@);
            if nonmaster_index(bs, commit@) >= 0 {
                assert(bs[nonmaster_index(bs, commit@)].commits.contains(commit@)
                    && bs[nonmaster_index(bs, commit@)].name != master());
            }
            match res_branch {
                None => {
                    if exists|j: int| 0 <= j < bs.len() && (#[trigger] bs[j]).commits.contains(
                        commit@,
                    ) {
                        let w = choose|j: int|
                            0 <= j < bs.len() && (#[trigger] bs[j]).commits.contains(commit@);
                        assert(!bs[w].commits.contains(commit@));
                    }
                },
                Some(_) => {},
            }
        }
        res_branch
    }
}

/// Whether storing a snapshot of `contents` is possible: no snapshot with
/// the same content hash may already be stored.
pub open spec fn cc_ok(v: StateV, contents: Seq<EntryModel>) -> bool {
    store_index(v.snapshots, contents_hash_of(contents)) == -1
}

/// The state after committing `contents` with the given message, branch
/// and timestamp: head moves to the new id on the given branch, the
/// commit record is appended to the catalog, the id is appended to the
/// branch's ledger, and the snapshot is stored. The working tree is
/// untouched.
pub open spec fn cc_apply(
    v: StateV,
    msg: Seq<char>,
    branch: Seq<char>,
    contents: Seq<EntryModel>,
    ts: u64,
) -> StateV {
    let h = contents_hash_of(contents);
    StateV {
        cur_commit: h,
        cur_branch: branch,
        commits: v.commits.push(CommitDataV { hash: h, message: msg, date: ts }),
        branches: add_branch_spec(v.branches, branch, h),
        snapshots: v.snapshots.push(SnapshotV { id: h, tree: contents }),
        working: v.working,
    }
}

/// The prefix of a ledger strictly before the first occurrence of `x`;
/// the whole ledger when `x` does not occur.
pub open spec fn take_to_excl(l: Seq<Seq<char>>, x: Seq<char>) -> Seq<Seq<char>> {
    if cid_index(l, x) < 0 {
        l
    } else {
        l.take(cid_index(l, x))
    }
}

/// The prefix of a ledger up to and including the first occurrence of
/// `x`; the whole ledger when `x` does not occur.
pub open spec fn take_to_incl(l: Seq<Seq<char>>, x: Seq<char>) -> Seq<Seq<char>> {
    if cid_index(l, x) < 0 {
        l
    } else {
        l.take(cid_index(l, x) + 1)
    }
}

/// The linear history of the current head, newest first: the current
/// branch's ledger up to the current commit, preceded by `master`'s
/// ledger up to (excluding) the branch's fork point when the head is not
/// on `master`.
pub open spec fn history_spec(v: StateV) -> Seq<Seq<char>> {
    let cur = ledger_of(v.branches, v.cur_branch);
    let prefix = if v.cur_branch != master() {
        take_to_excl(ledger_of(v.branches, master()), cur[0])
    } else {
        Seq::empty()
    };
    (prefix + take_to_incl(cur, v.cur_commit)).reverse()
}

/// Reverse a list of commit ids.
fn reverse_ids(l: &Vec<String>) -> (r: Vec<String>)
    ensures
        r.deep_view() == l.deep_view().reverse(),
{
    let mut r: Vec<String> = Vec::new();
    let mut i: usize = 0;
    while i < l.len()
        invariant
            0 <= i <= l.len(),
            r.deep_view().len() == i,
            forall|k: int| 0 <= k < i ==> #[trigger] r.deep_view()[k] == l.deep_view()[l.len() - 1
                - k],
        decreases l.len() - i,
    {
        let ghost before = r.deep_view();
        let e = l[l.len() - 1 - i].clone();
        r.push(e);
        proof {
            assert(r.deep_view() =~= before.push(l.deep_view()[l@.len() - 1 - i]));
        }
        i = i + 1;
    }
    proof {
        assert(r.deep_view() =~= l.deep_view().reverse());
    }
    r
}

impl VcsStateManager {
    /// Commit the given files and folders: store their snapshot under
    /// their content hash, move the head to it on the given branch, and
    /// append the catalog and ledger records. Fails with `CommitExists`,
    /// changing nothing, when a snapshot with the same hash is already
    /// stored.
    pub fn commit_contents(
        &mut self,
        message: &String,
        branch: &String,
        contents: &Vec<TreeEntry>,
        timestamp: u64,
    ) -> (r: Result<String, VcsError>)
        ensures
            cc_ok(old(self)@, contents.deep_view()) ==> (r matches Ok(h) && h@
                == contents_hash_of(contents.deep_view())) && final(self)@ == cc_apply(
                old(self)@,
                message@,
                branch@,
                contents.deep_view(),
                timestamp,
            ),
            !cc_ok(old(self)@, contents.deep_view()) ==> r == Err::<String, VcsError>(
                VcsError::CommitExists,
            ) && final(self)@ == old(self)@,
    {
        let commit = get_contents_hash(contents);
        if find_snapshot(&self.snapshots, &commit).is_some() {
            return Err(VcsError::CommitExists);
        }
        let tree_copy = clone_tree(contents);
        let ghost v0 = self@;
        self.snapshots.push(Snapshot { id: commit.clone(), tree: tree_copy });
        proof {
            assert(self@.snapshots =~= v0.snapshots.push(
                (SnapshotV { id: commit@, tree: contents.deep_view() }),
            ));
            assert(self@ =~= (StateV {
                snapshots: v0.snapshots.push(
                    (SnapshotV { id: commit@, tree: contents.deep_view() }),
                ),
                ..v0
            }));
        }
        self.set_commit(&commit);
        self.set_branch(branch);
        self.add_commit_data(CommitData::from(commit.clone(), message.clone(), timestamp));
        self.add_branch_commit(branch, &commit);
        proof {
            assert(self@ =~= cc_apply(v0, message@, branch@, contents.deep_view(), timestamp));
        }
        Ok(commit)
    }

    /// Commit the working tree on the given branch.
    pub fn commit(&mut self, message: &String, branch: &String, timestamp: u64) -> (r: Result<
        String,
        VcsError,
    >)
        ensures
            cc_ok(old(self)@, old(self)@.working) ==> (r matches Ok(h) && h@ == contents_hash_of(
                old(self)@.working,
            )) && final(self)@ == cc_apply(
                old(self)@,
                message@,
                branch@,
                old(self)@.working,
                timestamp,
            ),
            !cc_ok(old(self)@, old(self)@.working) ==> r == Err::<String, VcsError>(
                VcsError::CommitExists,
            ) && final(self)@ == old(self)@,
    {
        let contents = clone_tree(&self.working);
        self.commit_contents(message, branch, &contents, timestamp)
    }

    /// Perform the initial commit of the working tree on `master`.
    pub fn init_repository(&mut self, timestamp: u64) -> (r: Result<String, VcsError>)
        ensures
            cc_ok(old(self)@, old(self)@.working) ==> (r matches Ok(h) && h@ == contents_hash_of(
                old(self)@.working,
            )) && final(self)@ == cc_apply(
                old(self)@,
                "Initial commit"@,
                master(),
                old(self)@.working,
                timestamp,
            ),
            !cc_ok(old(self)@, old(self)@.working) ==> r == Err::<String, VcsError>(
                VcsError::CommitExists,
            ) && final(self)@ == old(self)@,
    {
        let message: String = "Initial commit".to_owned();
        let m = master_name();
        self.commit(&message, &m, timestamp)
    }

    /// Replace the working tree with the given commit's snapshot and move
    /// the head pointer to that commit and its owning branch. Fails,
    /// changing nothing, when no branch owns the commit or no snapshot is
    /// stored for it.
    pub fn jump_to_commit(&mut self, commit: &String) -> (r: Result<(), VcsError>)
        ensures
            owning_branch(old(self)@.branches, commit@) is None ==> r == Err::<(), VcsError>(
                VcsError::BranchNotFound,
            ) && final(self)@ == old(self)@,
            owning_branch(old(self)@.branches, commit@) is Some && store_index(
                old(self)@.snapshots,
                commit@,
            ) == -1 ==> r == Err::<(), VcsError>(VcsError::CommitNotFound) && final(self)@ == old(
                self,
            )@,
            owning_branch(old(self)@.branches, commit@) is Some && store_index(
                old(self)@.snapshots,
                commit@,
            ) >= 0 ==> r is Ok && final(self)@ == (StateV {
                cur_commit: commit@,
                cur_branch: owning_branch(old(self)@.branches, commit@)->Some_0,
                working: store_tree(old(self)@.snapshots, commit@),
                ..old(self)@
            }),
    {
        let branch_with_commit = match self.get_branch_with_commit(commit) {
            None => {
                return Err(VcsError::BranchNotFound);
            },
            Some(b) => b,
        };
        let i = match find_snapshot(&self.snapshots, commit) {
            None => {
                return Err(VcsError::CommitNotFound);
            },
            Some(i) => i,
        };
        let tree = clone_tree(&self.snapshots[i].tree);
        proof {
            assert(self@.snapshots[i as int] == self.snapshots[i as int].deep_view());
        }
        let ghost v0 = self@;
        self.working = tree;
        self.set_commit(commit);
        self.set_branch(&branch_with_commit);
        proof {
            assert(self@ =~= (StateV {
                cur_commit: commit@,
                cur_branch: branch_with_commit@,
                working: store_tree(v0.snapshots, commit@),
                ..v0
            }));
        }
        Ok(())
    }

    /// Create a new branch rooted at the current commit: the current
    /// commit id is appended to (or becomes the sole entry of) the named
    /// branch's ledger.
    pub fn new_branch(&mut self, new_branch: &String)
        ensures
            final(self)@ == (StateV {
                branches: add_branch_spec(
                    old(self)@.branches,
                    new_branch@,
                    old(self)@.cur_commit,
                ),
                ..old(self)@
            }),
    {
        let cur_commit = self.get_commit();
        self.add_branch_commit(new_branch, &cur_commit);
    }

    /// The linear commit history from the repository's origin up to the
    /// current head, newest first.
    pub fn get_commit_history(&self) -> (r: Result<Vec<String>, VcsError>)
        ensures
            ({
                let v = self@;
                let bi = branch_index(v.branches, v.cur_branch);
                let mi = branch_index(v.branches, master());
                if bi == -1 {
                    r == Err::<Vec<String>, VcsError>(VcsError::BranchNotFound)
                } else if v.cur_branch != master() && mi == -1 {
                    r == Err::<Vec<String>, VcsError>(VcsError::BranchNotFound)
                } else if v.cur_branch != master() && ledger_of(v.branches, master()).len() > 0
                    && ledger_of(v.branches, v.cur_branch).len() == 0 {
                    r == Err::<Vec<String>, VcsError>(VcsError::CommitNotFound)
                } else {
                    r matches Ok(h) && h.deep_view() == history_spec(v)
                }
            }),
    {
        let ghost v = self@;
        let cur_commit = self.get_commit();
        let cur_branch = self.get_branch();
        let m = master_name();
        let cur_l = match self.get_commits(&cur_branch) {
            None => {
                return Err(VcsError::BranchNotFound);
            },
            Some(l) => l,
        };
        proof {
            assert(cur_l.deep_view() == ledger_of(v.branches, v.cur_branch));
        }
        let mut commit_history: Vec<String> = Vec::new();
        if cur_branch != m {
            let master_l = match self.get_commits(&m) {
                None => {
                    return Err(VcsError::BranchNotFound);
                },
                Some(l) => l,
            };
            proof {
                assert(master_l.deep_view() == ledger_of(v.branches, master()));
            }
            if master_l.len() > 0 {
                if cur_l.len() == 0 {
                    return Err(VcsError::CommitNotFound);
                }
                let fork = &cur_l[0];
                proof {
                    assert(fork@ == ledger_of(v.branches, v.cur_branch)[0]);
                }
                let stop = match find_cid(&master_l, fork) {
                    Some(k) => k,
                    None => master_l.len(),
                };
                let mut i: usize = 0;
                while i < stop
                    invariant
                        0 <= i <= stop,
                        stop <= master_l.len(),
                        master_l.deep_view().len() == master_l.len(),
                        commit_history.deep_view() == master_l.deep_view().take(i as int),
                    decreases stop - i,
                {
                    let ghost before = commit_history.deep_view();
                    let e = master_l[i].clone();
                    commit_history.push(e);
                    proof {
                        assert(commit_history.deep_view() =~= before.push(
                            master_l.deep_view()[i as int],
                        ));
                        assert(commit_history.deep_view() =~= master_l.deep_view().take(i + 1));
                    }
                    i = i + 1;
                }
                proof {
                    assert(commit_history.deep_view() =~= take_to_excl(
                        master_l.deep_view(),
                        fork@,
                    )) by {
                        if cid_index(master_l.deep_view(), fork@) < 0 {
                            assert(master_l.deep_view().take(master_l@.len() as int)
                                =~= master_l.deep_view());
                        }
                    }
                }
            } else {
                proof {
                    assert(master_l.deep_view().len() == 0);
                    assert(commit_history.deep_view() =~= take_to_excl(
                        master_l.deep_view(),
                        ledger_of(v.branches, v.cur_branch)[0],
                    ));
                }
            }
            proof {
                assert(commit_history.deep_view() == take_to_excl(
                    ledger_of(v.branches, master()),
                    ledger_of(v.branches, v.cur_branch)[0],
                ));
            }
        }
        let ghost base = commit_history.deep_view();
        let stop2 = match find_cid(&cur_l, &cur_commit) {
            Some(k) => k + 1,
            None => cur_l.len(),
        };
        let mut i: usize = 0;
        while i < stop2
            invariant
                0 <= i <= stop2,
                stop2 <= cur_l.len(),
                cur_l.deep_view().len() == cur_l.len(),
                base.len() + i == commit_history.deep_view().len(),
                commit_history.deep_view() == base + cur_l.deep_view().take(i as int),
            decreases stop2 - i,
        {
            let ghost before = commit_history.deep_view();
            let e = cur_l[i].clone();
            commit_history.push(e);
            proof {
                assert(commit_history.deep_view() =~= before.push(cur_l.deep_view()[i as int]));
                assert(commit_history.deep_view() =~= base + cur_l.deep_view().take(i + 1));
            }
            i = i + 1;
        }
        proof {
            assert(commit_history.deep_view() =~= base + take_to_incl(
                cur_l.deep_view(),
                cur_commit@,
            )) by {
                if cid_index(cur_l.deep_view(), cur_commit@) < 0 {
                    assert(cur_l.deep_view().take(cur_l@.len() as int) =~= cur_l.deep_view());
                }
            }
            if v.cur_branch == master() {
                assert(base =~= Seq::<Seq<char>>::empty());
            }
            assert(commit_history.deep_view() == (if v.cur_branch != master() {
                take_to_excl(
                    ledger_of(v.branches, master()),
                    ledger_of(v.branches, v.cur_branch)[0],
                )
            } else {
                Seq::<Seq<char>>::empty()
            }) + take_to_incl(ledger_of(v.branches, v.cur_branch), v.cur_commit));
        }
        let reversed = reverse_ids(&commit_history);
        proof {
            assert(reversed.deep_view() == history_spec(v));
        }
        Ok(reversed)
    }
}

} // verus!
