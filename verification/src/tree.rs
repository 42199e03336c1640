use vstd::prelude::*;

verus! {

use vstd::std_specs::cmp::PartialEqSpec;

broadcast use crate::lemma_bytes_deep_view;

/// The kind of difference the diff engine reports for one tracked path.
/// `Equal` is never emitted in a change set; it exists so the comparison
/// of two matched entries can be named before filtering.
#[derive(Clone, Copy, Debug, PartialEq, Eq, Structural)]
pub enum FileChange {
    Equal,
    Added,
    Modified,
    Removed,
}

/// One tracked entry of a directory tree: its path relative to the tree
/// root (as raw bytes), whether it is a file, and, for files, its bytes.
/// Directories carry no content.
#[derive(Debug, PartialEq, Eq)]
pub struct TreeEntry {
    pub path: Vec<u8>,
    pub is_file: bool,
    pub data: Vec<u8>,
}

/// Mathematical model of a tree entry.
#[verifier::ext_equal]
pub ghost struct EntryModel {
    pub path: Seq<u8>,
    pub is_file: bool,
    pub data: Seq<u8>,
}

impl DeepView for TreeEntry {
    type V = EntryModel;

    open spec fn deep_view(&self) -> EntryModel {
        EntryModel { path: self.path.deep_view(), is_file: self.is_file, data: self.data.deep_view() }
    }
}

impl Clone for TreeEntry {
    fn clone(&self) -> (res: Self)
        ensures
            res.deep_view() == self.deep_view(),
    {
        let res = TreeEntry { path: self.path.clone(), is_file: self.is_file, data: self.data.clone() };
        proof {
            assert(res.path@ =~= self.path@);
            assert(res.data@ =~= self.data@);
            assert(res.deep_view() =~= self.deep_view());
        }
        res
    }
}

/// One entry of a change set: what happened to the path, and the path
/// itself, relative to the first tree handed to the diff.
#[derive(Debug, PartialEq, Eq)]
pub struct ChangeRecord {
    pub kind: FileChange,
    pub path: Vec<u8>,
}

/// Mathematical model of a change record.
#[verifier::ext_equal]
pub ghost struct ChangeModel {
    pub kind: FileChange,
    pub path: Seq<u8>,
}

impl DeepView for ChangeRecord {
    type V = ChangeModel;

    open spec fn deep_view(&self) -> ChangeModel {
        ChangeModel { kind: self.kind, path: self.path.deep_view() }
    }
}

impl Clone for ChangeRecord {
    fn clone(&self) -> (res: Self)
        ensures
            res.deep_view() == self.deep_view(),
    {
        let res = ChangeRecord { kind: self.kind, path: self.path.clone() };
        proof {
            assert(res.path@ =~= self.path@);
            assert(res.deep_view() =~= self.deep_view());
        }
        res
    }
}

/// Two matched entries count as equal when they agree on being a file,
/// and, for files, on every byte. Directories are equal to each other.
pub open spec fn entry_equal(a: EntryModel, b: EntryModel) -> bool {
    a.is_file == b.is_file && (a.is_file ==> a.data == b.data)
}

/// Compare two tree entries the way two paths of a snapshot are compared:
/// by file/directory kind, and for files byte for byte.
pub fn files_equal(e1: &TreeEntry, e2: &TreeEntry) -> (r: bool)
    ensures
        r == entry_equal(e1.deep_view(), e2.deep_view()),
{
    if e1.is_file != e2.is_file {
        false
    } else if !e1.is_file {
        true
    } else {
        let eq = e1.data == e2.data;
        proof {
            if eq {
                assert(e1.data@ =~= e2.data@);
            } else {
                if e1.data@ == e2.data@ {
                    assert(e1.data.eq_spec(&e2.data));
                }
            }
        }
        eq
    }
}

/// Index of the first entry of `t` whose path is `p`, or `-1` if none.
pub open spec fn entry_index(t: Seq<EntryModel>, p: Seq<u8>) -> int
    decreases t.len(),
{
    if t.len() == 0 {
        -1
    } else if t[0].path == p {
        0
    } else {
        let r = entry_index(t.drop_first(), p);
        if r < 0 {
            -1
        } else {
            r + 1
        }
    }
}

pub proof fn lemma_entry_index(t: Seq<EntryModel>, p: Seq<u8>)
    ensures
        entry_index(t, p) == -1 || (0 <= entry_index(t, p) < t.len()),
        entry_index(t, p) == -1 ==> forall|i: int| 0 <= i < t.len() ==> (#[trigger] t[i]).path != p,
        entry_index(t, p) >= 0 ==> t[entry_index(t, p)].path == p,
        entry_index(t, p) >= 0 ==> forall|i: int| 0 <= i < entry_index(t, p) ==> (#[trigger] t[i]).path != p,
    decreases t.len(),
{
    if t.len() > 0 && t[0].path != p {
        lemma_entry_index(t.drop_first(), p);
        assert forall|i: int| 1 <= i < t.len() implies t.drop_first()[i - 1] == t[i] by {}
    }
}

/// The first index with path `p` determines `entry_index`.
pub proof fn lemma_entry_index_first(t: Seq<EntryModel>, p: Seq<u8>, k: int)
    requires
        0 <= k < t.len(),
        t[k].path == p,
        forall|i: int| 0 <= i < k ==> (#[trigger] t[i]).path != p,
    ensures
        entry_index(t, p) == k,
    decreases t.len(),
{
    if k > 0 {
        assert(t[0].path != p);
        lemma_entry_index_first(t.drop_first(), p, k - 1);
    }
}

/// Find the first entry of `t` whose path equals `p`.
pub fn find_entry(t: &Vec<TreeEntry>, p: &Vec<u8>) -> (r: Option<usize>)
    ensures
        match r {
            Some(i) => i < t.len() && entry_index(t.deep_view(), p.deep_view()) == i as int,
            None => entry_index(t.deep_view(), p.deep_view()) == -1,
        },
{
    let ghost tm = t.deep_view();
    let mut i: usize = 0;
    while i < t.len()
        invariant
            0 <= i <= t.len(),
            tm == t.deep_view(),
            tm.len() == t.len(),
            forall|j: int| 0 <= j < i ==> (#[trigger] tm[j]).path != p.deep_view(),
        decreases t.len() - i,
    {
        let eq = t[i].path == *p;
        proof {
            if eq {
                assert(t[i as int].path@ =~= p@);
            } else {
                if t[i as int].path@ == p@ {
                    assert(t[i as int].path.eq_spec(p));
                }
            }
        }
        if eq {
            proof {
                lemma_entry_index_first(tm, p.deep_view(), i as int);
            }
            return Some(i);
        }
        i = i + 1;
    }
    proof {
        lemma_entry_index(tm, p.deep_view());
        if entry_index(tm, p.deep_view()) >= 0 {
            assert(tm[entry_index(tm, p.deep_view())].path == p.deep_view());
        }
    }
    None
}

/// The change, if any, that entry `e` of the first tree contributes when
/// compared against the second tree `b`: `Added` when `b` has no entry at
/// the same path, `Modified` when it has a differing one, nothing when the
/// matched entries are equal.
pub open spec fn change_of(e: EntryModel, b: Seq<EntryModel>) -> Seq<ChangeModel> {
    let k = entry_index(b, e.path);
    if k < 0 {
        seq![ChangeModel { kind: FileChange::Added, path: e.path }]
    } else if !entry_equal(e, b[k]) {
        seq![ChangeModel { kind: FileChange::Modified, path: e.path }]
    } else {
        Seq::empty()
    }
}

/// The `Added`/`Modified` part of the change set, in the order of the
/// first tree.
pub open spec fn added_modified(a: Seq<EntryModel>, b: Seq<EntryModel>) -> Seq<ChangeModel>
    decreases a.len(),
{
    if a.len() == 0 {
        Seq::empty()
    } else {
        added_modified(a.drop_last(), b) + change_of(a.last(), b)
    }
}

/// The `Removed` part of the change set: every path of the second tree
/// that the first tree lacks, in the order of the second tree.
pub open spec fn removed_changes(a: Seq<EntryModel>, b: Seq<EntryModel>) -> Seq<ChangeModel>
    decreases b.len(),
{
    if b.len() == 0 {
        Seq::empty()
    } else {
        removed_changes(a, b.drop_last()) + (if entry_index(a, b.last().path) < 0 {
            seq![ChangeModel { kind: FileChange::Removed, path: b.last().path }]
        } else {
            Seq::empty()
        })
    }
}

/// The change set of tree `a` relative to tree `b`: additions and
/// modifications as seen from `a`, then the paths removed from `b`.
pub open spec fn file_changes_spec(a: Seq<EntryModel>, b: Seq<EntryModel>) -> Seq<ChangeModel> {
    added_modified(a, b) + removed_changes(a, b)
}

/// Diff engine: how the tree `contents` differs from the tree
/// `relative_to`. Every reported path is relative to the first tree's
/// root; matched entries with equal content are consumed silently.
pub fn get_file_changes(contents: &Vec<TreeEntry>, relative_to: &Vec<TreeEntry>) -> (r: Vec<
    ChangeRecord,
>)
    ensures
        r.deep_view() == file_changes_spec(contents.deep_view(), relative_to.deep_view()),
{
    let ghost a = contents.deep_view();
    let ghost b = relative_to.deep_view();
    let mut r: Vec<ChangeRecord> = Vec::new();
    let mut i: usize = 0;
    proof {
        assert(a.take(0) =~= Seq::<EntryModel>::empty());
    }
    while i < contents.len()
        invariant
            0 <= i <= contents.len(),
            a == contents.deep_view(),
            b == relative_to.deep_view(),
            a.len() == contents.len(),
            r.deep_view() == added_modified(a.take(i as int), b),
        decreases contents.len() - i,
    {
        let ghost prefix = a.take(i as int);
        let ghost prefix1 = a.take(i + 1 as int);
        proof {
            assert(prefix1.drop_last() =~= prefix);
            assert(prefix1.last() == a[i as int]);
        }
        let entry = &contents[i];
        match find_entry(relative_to, &entry.path) {
            None => {
                r.push(ChangeRecord { kind: FileChange::Added, path: entry.path.clone() });
                proof {
                    assert(r.deep_view().last().path =~= a[i as int].path);
                    assert(r.deep_view() =~= added_modified(prefix, b) + change_of(a[i as int], b));
                }
            },
            Some(k) => {
                if !files_equal(entry, &relative_to[k]) {
                    r.push(ChangeRecord { kind: FileChange::Modified, path: entry.path.clone() });
                    proof {
                        assert(r.deep_view().last().path =~= a[i as int].path);
                        assert(r.deep_view() =~= added_modified(prefix, b) + change_of(
                            a[i as int],
                            b,
                        ));
                    }
                } else {
                    proof {
                        assert(r.deep_view() =~= added_modified(prefix, b) + change_of(
                            a[i as int],
                            b,
                        ));
                    }
                }
            },
        }
        i = i + 1;
    }
    proof {
        assert(a.take(contents.len() as int) =~= a);
        assert(removed_changes(a, b.take(0)) =~= Seq::<ChangeModel>::empty());
        assert(r.deep_view() =~= added_modified(a, b) + removed_changes(a, b.take(0)));
    }
    let mut j: usize = 0;
    while j < relative_to.len()
        invariant
            0 <= j <= relative_to.len(),
            a == contents.deep_view(),
            b == relative_to.deep_view(),
            b.len() == relative_to.len(),
            r.deep_view() == added_modified(a, b) + removed_changes(a, b.take(j as int)),
        decreases relative_to.len() - j,
    {
        let ghost prefix = b.take(j as int);
        let ghost prefix1 = b.take(j + 1 as int);
        proof {
            assert(prefix1.drop_last() =~= prefix);
            assert(prefix1.last() == b[j as int]);
        }
        let entry = &relative_to[j];
        match find_entry(contents, &entry.path) {
            None => {
                let ghost before = r.deep_view();
                let ghost rec = ChangeModel { kind: FileChange::Removed, path: b[j as int].path };
                r.push(ChangeRecord { kind: FileChange::Removed, path: entry.path.clone() });
                proof {
                    assert(r.deep_view() =~= before.push(rec));
                    assert(removed_changes(a, prefix1) =~= removed_changes(a, prefix) + seq![rec]);
                    assert(r.deep_view() =~= added_modified(a, b) + removed_changes(a, prefix1));
                }
            },
            Some(_) => {
                proof {
                    assert(removed_changes(a, prefix1) =~= removed_changes(a, prefix));
                }
            },
        }
        j = j + 1;
    }
    proof {
        assert(b.take(relative_to.len() as int) =~= b);
    }
    r
}

/// Lexicographic order on byte sequences; a prefix comes before every
/// extension of it.
pub open spec fn lex_leq(a: Seq<u8>, b: Seq<u8>) -> bool
    decreases a.len(),
{
    if a.len() == 0 {
        true
    } else if b.len() == 0 {
        false
    } else if a[0] < b[0] {
        true
    } else if a[0] > b[0] {
        false
    } else {
        lex_leq(a.drop_first(), b.drop_first())
    }
}

pub proof fn lemma_lex_total(a: Seq<u8>, b: Seq<u8>)
    ensures
        lex_leq(a, b) || lex_leq(b, a),
    decreases a.len(),
{
    if a.len() > 0 && b.len() > 0 && a[0] == b[0] {
        lemma_lex_total(a.drop_first(), b.drop_first());
    }
}

pub proof fn lemma_lex_antisym(a: Seq<u8>, b: Seq<u8>)
    requires
        lex_leq(a, b),
        lex_leq(b, a),
    ensures
        a == b,
    decreases a.len(),
{
    if a.len() == 0 {
        assert(b.len() == 0);
        assert(a =~= b);
    } else {
        assert(b.len() > 0);
        assert(a[0] == b[0]);
        lemma_lex_antisym(a.drop_first(), b.drop_first());
        let ad = a.drop_first();
        let bd = b.drop_first();
        assert(ad == bd);
        assert(a.len() == b.len());
        assert forall|i: int| 0 <= i < a.len() implies a[i] == b[i] by {
            if i >= 1 {
                assert(a[i] == ad[i - 1]);
                assert(b[i] == bd[i - 1]);
            }
        }
        assert(a =~= b);
    }
}

pub proof fn lemma_lex_trans(a: Seq<u8>, b: Seq<u8>, c: Seq<u8>)
    requires
        lex_leq(a, b),
        lex_leq(b, c),
    ensures
        lex_leq(a, c),
    decreases a.len(),
{
    if a.len() > 0 {
        assert(b.len() > 0);
        assert(c.len() > 0);
        if a[0] == b[0] && b[0] == c[0] {
            lemma_lex_trans(a.drop_first(), b.drop_first(), c.drop_first());
        }
    }
}

/// Total order on tree entries used to bring a snapshot into canonical
/// form before hashing: by path, then directories before files, then by
/// content bytes.
pub open spec fn entry_leq(a: EntryModel, b: EntryModel) -> bool {
    if a.path != b.path {
        lex_leq(a.path, b.path)
    } else if a.is_file != b.is_file {
        !a.is_file
    } else {
        lex_leq(a.data, b.data)
    }
}

pub open spec fn entry_leqf() -> spec_fn(EntryModel, EntryModel) -> bool {
    |x: EntryModel, y: EntryModel| entry_leq(x, y)
}

pub proof fn lemma_entry_leq_total_ordering()
    ensures
        vstd::relations::total_ordering(entry_leqf()),
{
    let leq = entry_leqf();
    assert forall|x: EntryModel| #[trigger] leq(x, x) by {
        lemma_lex_total(x.data, x.data);
    }
    assert forall|x: EntryModel, y: EntryModel| #[trigger] leq(x, y) && #[trigger] leq(y, x)
        implies x == y by {
        if x.path != y.path {
            lemma_lex_antisym(x.path, y.path);
        } else {
            assert(x.is_file == y.is_file);
            lemma_lex_antisym(x.data, y.data);
            assert(x =~= y);
        }
    }
    assert forall|x: EntryModel, y: EntryModel, z: EntryModel|
        #[trigger] leq(x, y) && #[trigger] leq(y, z) implies leq(x, z) by {
        if x.path == y.path && y.path == z.path {
            if x.is_file == y.is_file && y.is_file == z.is_file {
                lemma_lex_trans(x.data, y.data, z.data);
            }
        } else if x.path != y.path && y.path != z.path {
            lemma_lex_trans(x.path, y.path, z.path);
            if x.path == z.path {
                lemma_lex_antisym(x.path, y.path);
            }
        }
    }
    assert forall|x: EntryModel, y: EntryModel| #[trigger] leq(x, y) || #[trigger] leq(y, x) by {
        if x.path != y.path {
            lemma_lex_total(x.path, y.path);
        } else if x.is_file == y.is_file {
            lemma_lex_total(x.data, y.data);
        }
    }
}

/// The canonical form of a snapshot: its entries sorted by `entry_leq`.
pub open spec fn sort_of(t: Seq<EntryModel>) -> Seq<EntryModel> {
    t.sort_by(entry_leqf())
}

/// Compare two byte vectors lexicographically.
fn bytes_le(a: &Vec<u8>, b: &Vec<u8>) -> (r: bool)
    ensures
        r == lex_leq(a@, b@),
{
    let mut i: usize = 0;
    proof {
        assert(a@.skip(0) =~= a@);
        assert(b@.skip(0) =~= b@);
    }
    while i < a.len() && i < b.len()
        invariant
            0 <= i <= a.len(),
            0 <= i <= b.len(),
            lex_leq(a@, b@) == lex_leq(a@.skip(i as int), b@.skip(i as int)),
        decreases a.len() - i,
    {
        let ghost sa = a@.skip(i as int);
        let ghost sb = b@.skip(i as int);
        proof {
            assert(sa[0] == a@[i as int]);
            assert(sb[0] == b@[i as int]);
        }
        if a[i] < b[i] {
            return true;
        }
        if a[i] > b[i] {
            return false;
        }
        proof {
            assert(sa.drop_first() =~= a@.skip(i + 1));
            assert(sb.drop_first() =~= b@.skip(i + 1));
        }
        i = i + 1;
    }
    proof {
        if i == a.len() {
            assert(a@.skip(i as int).len() == 0);
        } else {
            assert(b@.skip(i as int).len() == 0);
            assert(a@.skip(i as int).len() > 0);
        }
    }
    i == a.len()
}

/// Compare two tree entries in the canonical hashing order.
fn entry_le(e1: &TreeEntry, e2: &TreeEntry) -> (r: bool)
    ensures
        r == entry_leq(e1.deep_view(), e2.deep_view()),
{
    let paths_equal = e1.path == e2.path;
    proof {
        if paths_equal {
            assert(e1.path@ =~= e2.path@);
        } else {
            if e1.path@ == e2.path@ {
                assert(e1.path.eq_spec(&e2.path));
            }
        }
    }
    if !paths_equal {
        bytes_le(&e1.path, &e2.path)
    } else if e1.is_file != e2.is_file {
        !e1.is_file
    } else {
        bytes_le(&e1.data, &e2.data)
    }
}

/// Sort a snapshot's entries into the canonical hashing order.
pub fn sort_entries(contents: &Vec<TreeEntry>) -> (r: Vec<TreeEntry>)
    ensures
        r.deep_view() == sort_of(contents.deep_view()),
{
    broadcast use vstd::seq_lib::group_to_multiset_ensures;

    let ghost leq = entry_leqf();
    proof {
        lemma_entry_leq_total_ordering();
    }
    let ghost cm = contents.deep_view();
    let mut r: Vec<TreeEntry> = Vec::new();
    let mut i: usize = 0;
    proof {
        assert(cm.take(0) =~= Seq::<EntryModel>::empty());
        assert(r.deep_view() =~= Seq::<EntryModel>::empty());
        assert(Seq::<EntryModel>::empty().to_multiset() =~= cm.take(0).to_multiset());
    }
    while i < contents.len()
        invariant
            0 <= i <= contents.len(),
            cm == contents.deep_view(),
            cm.len() == contents.len(),
            leq == entry_leqf(),
            vstd::relations::total_ordering(leq),
            vstd::relations::sorted_by(r.deep_view(), leq),
            r.deep_view().to_multiset() == cm.take(i as int).to_multiset(),
        decreases contents.len() - i,
    {
        let e = contents[i].clone();
        let ghost ev = e.deep_view();
        proof {
            assert(ev == cm[i as int]);
        }
        let mut j: usize = 0;
        while j < r.len() && !entry_le(&e, &r[j])
            invariant
                0 <= j <= r.len(),
                e.deep_view() == ev,
                vstd::relations::total_ordering(leq),
                leq == entry_leqf(),
                forall|k: int| 0 <= k < j ==> leq(#[trigger] r.deep_view()[k], ev),
            decreases r.len() - j,
        {
            proof {
                let rj = r.deep_view()[j as int];
                assert(rj == r[j as int].deep_view());
                assert(!entry_leq(ev, rj));
                if rj.path != ev.path {
                    lemma_lex_total(rj.path, ev.path);
                } else if rj.is_file == ev.is_file {
                    lemma_lex_total(rj.data, ev.data);
                }
                assert(entry_leq(rj, ev));
                assert(leq(rj, ev));
            }
            j = j + 1;
        }
        proof {
            if j < r.len() {
                assert(entry_leq(ev, r.deep_view()[j as int]));
                assert(leq(ev, r.deep_view()[j as int]));
            }
        }
        let ghost before = r.deep_view();
        r.insert(j, e);
        proof {
            assert(r.deep_view() =~= before.insert(j as int, ev));
            assert(vstd::relations::sorted_by(r.deep_view(), leq)) by {
                let after = r.deep_view();
                assert forall|m: int, n: int| 0 <= m < n < after.len() implies leq(
                    after[m],
                    after[n],
                ) by {
                    assert(vstd::relations::transitive(leq));
                    if n < j {
                        assert(after[m] == before[m] && after[n] == before[n]);
                    } else if m > j {
                        assert(after[m] == before[m - 1] && after[n] == before[n - 1]);
                    } else if m < j && n == j {
                        assert(after[m] == before[m]);
                        assert(leq(before[m], ev));
                    } else if m == j && n > j {
                        assert(after[n] == before[n - 1]);
                        assert(leq(ev, before[j as int]));
                        assert(leq(before[j as int], before[n - 1]));
                    } else if m < j && n > j {
                        assert(after[m] == before[m] && after[n] == before[n - 1]);
                    }
                }
            }
            assert(r.deep_view().to_multiset() =~= cm.take(i + 1).to_multiset()) by {
                vstd::seq_lib::to_multiset_insert(before, j as int, ev);
                vstd::seq_lib::to_multiset_build(cm.take(i as int), cm[i as int]);
                assert(cm.take(i + 1) =~= cm.take(i as int).push(cm[i as int]));
            }
        }
        i = i + 1;
    }
    proof {
        assert(cm.take(contents.len() as int) =~= cm);
        cm.lemma_sort_by_ensures(leq);
        vstd::seq_lib::lemma_sorted_unique(r.deep_view(), cm.sort_by(leq), leq);
        assert(r.deep_view() =~= sort_of(cm));
    }
    r
}

} // verus!
