use vstd::prelude::*;

verus! {

/// The distinguished branch that exists from initialization on.
pub open spec fn master() -> Seq<char> {
    "master"@
}

/// The name of the distinguished branch.
pub fn master_name() -> (r: String)
    ensures
        r@ == master(),
{
    "master".to_owned()
}

/// One record of the commit catalog: the commit's content hash, its
/// message, and its timestamp in milliseconds.
#[derive(Debug)]
pub struct CommitData {
    pub hash: String,
    pub message: String,
    pub date: u64,
}

/// Mathematical model of a commit record.
#[verifier::ext_equal]
pub ghost struct CommitDataV {
    pub hash: Seq<char>,
    pub message: Seq<char>,
    pub date: u64,
}

impl DeepView for CommitData {
    type V = CommitDataV;

    open spec fn deep_view(&self) -> CommitDataV {
        CommitDataV { hash: self.hash@, message: self.message@, date: self.date }
    }
}

impl Clone for CommitData {
    fn clone(&self) -> (res: Self)
        ensures
            res == *self,
    {
        CommitData { hash: self.hash.clone(), message: self.message.clone(), date: self.date }
    }
}

impl CommitData {
    pub fn from(hash: String, message: String, time: u64) -> (r: Self)
        ensures
            r.deep_view() == (CommitDataV { hash: hash@, message: message@, date: time }),
    {
        CommitData { hash, message, date: time }
    }
}

/// The commit catalog: every commit record ever created, in order of
/// creation. Append-only.
pub struct CommitList {
    pub commits: Vec<CommitData>,
}

impl CommitList {
    pub fn new() -> (r: Self)
        ensures
            r.commits@ =~= Seq::<CommitData>::empty(),
    {
        CommitList { commits: Vec::new() }
    }
}

impl Clone for CommitList {
    fn clone(&self) -> (res: Self)
        ensures
            res.commits@ == self.commits@,
    {
        let commits = self.commits.clone();
        proof {
            assert(commits@ =~= self.commits@);
        }
        CommitList { commits }
    }
}

/// One record of the branch catalog: a branch's name and its ledger, the
/// ordered commit ids belonging to it, starting at its fork point.
pub struct BranchData {
    pub name: String,
    pub commits: Vec<String>,
}

/// Mathematical model of a branch record.
#[verifier::ext_equal]
pub ghost struct BranchDataV {
    pub name: Seq<char>,
    pub commits: Seq<Seq<char>>,
}

impl DeepView for BranchData {
    type V = BranchDataV;

    open spec fn deep_view(&self) -> BranchDataV {
        BranchDataV { name: self.name@, commits: self.commits.deep_view() }
    }
}

impl Clone for BranchData {
    fn clone(&self) -> (res: Self)
        ensures
            res.deep_view() == self.deep_view(),
            res.name@ == self.name@,
            res.commits@ == self.commits@,
    {
        let commits = self.commits.clone();
        proof {
            assert(commits@ =~= self.commits@);
        }
        let res = BranchData { name: self.name.clone(), commits };
        proof {
            assert(res.deep_view() =~= self.deep_view());
        }
        res
    }
}

impl BranchData {
    pub fn from(name: String, commit: String) -> (r: Self)
        ensures
            r.deep_view() == (BranchDataV { name: name@, commits: seq![commit@] }),
    {
        let mut commits: Vec<String> = Vec::new();
        commits.push(commit);
        let r = BranchData { name, commits };
        proof {
            assert(r.deep_view().commits =~= seq![r.commits[0]@]);
            assert(r.deep_view() =~= (BranchDataV { name: r.name@, commits: seq![r.commits[0]@] }));
        }
        r
    }
}

/// The branch catalog, keyed by branch name.
pub struct BranchList {
    pub branches: Vec<BranchData>,
}

impl BranchList {
    pub fn new() -> (r: Self)
        ensures
            r.branches@ =~= Seq::<BranchData>::empty(),
    {
        BranchList { branches: Vec::new() }
    }
}

impl Clone for BranchList {
    fn clone(&self) -> (res: Self)
        ensures
            res.branches.deep_view() == self.branches.deep_view(),
    {
        let branches = self.branches.clone();
        proof {
            assert(branches.deep_view() =~= self.branches.deep_view());
        }
        BranchList { branches }
    }
}

/// First catalog position of the commit with hash `h`, or `-1`.
pub open spec fn commit_index(cs: Seq<CommitDataV>, h: Seq<char>) -> int
    decreases cs.len(),
{
    if cs.len() == 0 {
        -1
    } else if cs[0].hash == h {
        0
    } else {
        let r = commit_index(cs.drop_first(), h);
        if r < 0 {
            -1
        } else {
            r + 1
        }
    }
}

pub proof fn lemma_commit_index(cs: Seq<CommitDataV>, h: Seq<char>)
    ensures
        commit_index(cs, h) == -1 || (0 <= commit_index(cs, h) < cs.len()),
        commit_index(cs, h) == -1 ==> forall|i: int| 0 <= i < cs.len() ==> (#[trigger] cs[i]).hash
            != h,
        commit_index(cs, h) >= 0 ==> cs[commit_index(cs, h)].hash == h,
        commit_index(cs, h) >= 0 ==> forall|i: int|
            0 <= i < commit_index(cs, h) ==> (#[trigger] cs[i]).hash != h,
    decreases cs.len(),
{
    if cs.len() > 0 && cs[0].hash != h {
        lemma_commit_index(cs.drop_first(), h);
        assert(forall|i: int| 1 <= i < cs.len() ==> cs.drop_first()[i - 1] == #[trigger] cs[i]);
    }
}

pub proof fn lemma_commit_index_at(cs: Seq<CommitDataV>, h: Seq<char>, k: int)
    requires
        0 <= k < cs.len(),
        cs[k].hash == h,
        forall|i: int| 0 <= i < k ==> (#[trigger] cs[i]).hash != h,
    ensures
        commit_index(cs, h) == k,
    decreases cs.len(),
{
    if k > 0 {
        lemma_commit_index_at(cs.drop_first(), h, k - 1);
    }
}

/// First catalog position of the branch named `name`, or `-1`.
pub open spec fn branch_index(bs: Seq<BranchDataV>, name: Seq<char>) -> int
    decreases bs.len(),
{
    if bs.len() == 0 {
        -1
    } else if bs[0].name == name {
        0
    } else {
        let r = branch_index(bs.drop_first(), name);
        if r < 0 {
            -1
        } else {
            r + 1
        }
    }
}

pub proof fn lemma_branch_index(bs: Seq<BranchDataV>, name: Seq<char>)
    ensures
        branch_index(bs, name) == -1 || (0 <= branch_index(bs, name) < bs.len()),
        branch_index(bs, name) == -1 ==> forall|i: int|
            0 <= i < bs.len() ==> (#[trigger] bs[i]).name != name,
        branch_index(bs, name) >= 0 ==> bs[branch_index(bs, name)].name == name,
        branch_index(bs, name) >= 0 ==> forall|i: int|
            0 <= i < branch_index(bs, name) ==> (#[trigger] bs[i]).name != name,
    decreases bs.len(),
{
    if bs.len() > 0 && bs[0].name != name {
        lemma_branch_index(bs.drop_first(), name);
        assert(forall|i: int| 1 <= i < bs.len() ==> bs.drop_first()[i - 1] == #[trigger] bs[i]);
    }
}

pub proof fn lemma_branch_index_at(bs: Seq<BranchDataV>, name: Seq<char>, k: int)
    requires
        0 <= k < bs.len(),
        bs[k].name == name,
        forall|i: int| 0 <= i < k ==> (#[trigger] bs[i]).name != name,
    ensures
        branch_index(bs, name) == k,
    decreases bs.len(),
{
    if k > 0 {
        lemma_branch_index_at(bs.drop_first(), name, k - 1);
    }
}

/// The ledger of the branch named `name`; empty if there is none.
pub open spec fn ledger_of(bs: Seq<BranchDataV>, name: Seq<char>) -> Seq<Seq<char>> {
    if branch_index(bs, name) >= 0 {
        bs[branch_index(bs, name)].commits
    } else {
        Seq::empty()
    }
}

/// First position of commit id `x` in a ledger, or `-1`.
pub open spec fn cid_index(l: Seq<Seq<char>>, x: Seq<char>) -> int
    decreases l.len(),
{
    if l.len() == 0 {
        -1
    } else if l[0] == x {
        0
    } else {
        let r = cid_index(l.drop_first(), x);
        if r < 0 {
            -1
        } else {
            r + 1
        }
    }
}

pub proof fn lemma_cid_index(l: Seq<Seq<char>>, x: Seq<char>)
    ensures
        cid_index(l, x) == -1 || (0 <= cid_index(l, x) < l.len()),
        cid_index(l, x) == -1 ==> forall|i: int| 0 <= i < l.len() ==> (#[trigger] l[i]) != x,
        cid_index(l, x) >= 0 ==> l[cid_index(l, x)] == x,
        cid_index(l, x) >= 0 ==> forall|i: int| 0 <= i < cid_index(l, x) ==> (#[trigger] l[i]) != x,
        cid_index(l, x) >= 0 <==> l.contains(x),
    decreases l.len(),
{
    if l.len() > 0 && l[0] != x {
        lemma_cid_index(l.drop_first(), x);
        assert(forall|i: int| 1 <= i < l.len() ==> l.drop_first()[i - 1] == #[trigger] l[i]);
        if l.drop_first().contains(x) {
            let w = choose|i: int| 0 <= i < l.drop_first().len() && l.drop_first()[i] == x;
            assert(l[w + 1] == x);
        }
    }
}

pub proof fn lemma_cid_index_at(l: Seq<Seq<char>>, x: Seq<char>, k: int)
    requires
        0 <= k < l.len(),
        l[k] == x,
        forall|i: int| 0 <= i < k ==> (#[trigger] l[i]) != x,
    ensures
        cid_index(l, x) == k,
    decreases l.len(),
{
    if k > 0 {
        lemma_cid_index_at(l.drop_first(), x, k - 1);
    }
}

/// The branch catalog after appending commit `c` to the branch named
/// `name`: the ledger of the first branch of that name grows by one
/// entry, or a fresh single-entry branch record is appended.
pub open spec fn add_branch_spec(bs: Seq<BranchDataV>, name: Seq<char>, c: Seq<char>) -> Seq<
    BranchDataV,
> {
    let k = branch_index(bs, name);
    if k < 0 {
        bs.push(BranchDataV { name: name, commits: seq![c] })
    } else {
        bs.update(k, BranchDataV { name: bs[k].name, commits: bs[k].commits.push(c) })
    }
}

/// The branch catalog after removing the first branch named `name`;
/// unchanged if there is none.
pub open spec fn remove_branch_spec(bs: Seq<BranchDataV>, name: Seq<char>) -> Seq<BranchDataV> {
    let k = branch_index(bs, name);
    if k < 0 {
        bs
    } else {
        bs.remove(k)
    }
}

/// First catalog position of a branch not named `master` whose ledger
/// holds commit `c`, or `-1`.
pub open spec fn nonmaster_index(bs: Seq<BranchDataV>, c: Seq<char>) -> int
    decreases bs.len(),
{
    if bs.len() == 0 {
        -1
    } else if bs[0].commits.contains(c) && bs[0].name != master() {
        0
    } else {
        let r = nonmaster_index(bs.drop_first(), c);
        if r < 0 {
            -1
        } else {
            r + 1
        }
    }
}

pub proof fn lemma_nonmaster_index(bs: Seq<BranchDataV>, c: Seq<char>)
    ensures
        nonmaster_index(bs, c) == -1 || (0 <= nonmaster_index(bs, c) < bs.len()),
        nonmaster_index(bs, c) == -1 ==> forall|i: int|
            0 <= i < bs.len() ==> !((#[trigger] bs[i]).commits.contains(c) && bs[i].name
                != master()),
        nonmaster_index(bs, c) >= 0 ==> bs[nonmaster_index(bs, c)].commits.contains(c)
            && bs[nonmaster_index(bs, c)].name != master(),
        nonmaster_index(bs, c) >= 0 ==> forall|i: int|
            0 <= i < nonmaster_index(bs, c) ==> !((#[trigger] bs[i]).commits.contains(c)
                && bs[i].name != master()),
    decreases bs.len(),
{
    if bs.len() > 0 && !(bs[0].commits.contains(c) && bs[0].name != master()) {
        lemma_nonmaster_index(bs.drop_first(), c);
        assert(forall|i: int| 1 <= i < bs.len() ==> bs.drop_first()[i - 1] == #[trigger] bs[i]);
    }
}

pub proof fn lemma_nonmaster_index_at(bs: Seq<BranchDataV>, c: Seq<char>, k: int)
    requires
        0 <= k < bs.len(),
        bs[k].commits.contains(c),
        bs[k].name != master(),
        forall|i: int|
            0 <= i < k ==> !((#[trigger] bs[i]).commits.contains(c) && bs[i].name != master()),
    ensures
        nonmaster_index(bs, c) == k,
    decreases bs.len(),
{
    if k > 0 {
        lemma_nonmaster_index_at(bs.drop_first(), c, k - 1);
    }
}

/// The branch that owns commit `c` for the purpose of a jump: the first
/// branch other than `master` whose ledger holds `c`; `master` when only
/// branches of that name hold it; none when no ledger holds it.
pub open spec fn owning_branch(bs: Seq<BranchDataV>, c: Seq<char>) -> Option<Seq<char>> {
    if nonmaster_index(bs, c) >= 0 {
        Some(bs[nonmaster_index(bs, c)].name)
    } else if exists|i: int| 0 <= i < bs.len() && (#[trigger] bs[i]).commits.contains(c) {
        Some(master())
    } else {
        None
    }
}

/// Find a commit record by hash: position of the first match.
pub fn find_commit(commits: &Vec<CommitData>, hash: &String) -> (r: Option<usize>)
    ensures
        match r {
            Some(i) => i < commits.len() && commit_index(commits.deep_view(), hash@) == i as int,
            None => commit_index(commits.deep_view(), hash@) == -1,
        },
{
    let ghost cs = commits.deep_view();
    let mut i: usize = 0;
    while i < commits.len()
        invariant
            0 <= i <= commits.len(),
            cs == commits.deep_view(),
            cs.len() == commits.len(),
            forall|j: int| 0 <= j < i ==> (#[trigger] cs[j]).hash != hash@,
        decreases commits.len() - i,
    {
        let hit = commits[i].hash == *hash;
        proof {
            assert(cs[i as int] == commits[i as int].deep_view());
        }
        if hit {
            proof {
                lemma_commit_index_at(cs, hash@, i as int);
            }
            return Some(i);
        }
        i = i + 1;
    }
    proof {
        lemma_commit_index(cs, hash@);
    }
    None
}

/// Find a branch record by name: position of the first match.
pub fn find_branch(branches: &Vec<BranchData>, name: &String) -> (r: Option<usize>)
    ensures
        match r {
            Some(i) => i < branches.len() && branch_index(branches.deep_view(), name@) == i as int,
            None => branch_index(branches.deep_view(), name@) == -1,
        },
{
    let ghost bs = branches.deep_view();
    let mut i: usize = 0;
    while i < branches.len()
        invariant
            0 <= i <= branches.len(),
            bs == branches.deep_view(),
            bs.len() == branches.len(),
            forall|j: int| 0 <= j < i ==> (#[trigger] bs[j]).name != name@,
        decreases branches.len() - i,
    {
        let hit = branches[i].name == *name;
        proof {
            assert(bs[i as int] == branches[i as int].deep_view());
        }
        if hit {
            proof {
                lemma_branch_index_at(bs, name@, i as int);
            }
            return Some(i);
        }
        i = i + 1;
    }
    proof {
        lemma_branch_index(bs, name@);
    }
    None
}

/// Whether a ledger holds the commit id `x`.
pub fn ledger_contains(l: &Vec<String>, x: &String) -> (r: bool)
    ensures
        r == l.deep_view().contains(x@),
{
    let ghost lm = l.deep_view();
    let mut i: usize = 0;
    while i < l.len()
        invariant
            0 <= i <= l.len(),
            lm == l.deep_view(),
            lm.len() == l.len(),
            forall|j: int| 0 <= j < i ==> #[trigger] lm[j] != x@,
        decreases l.len() - i,
    {
        let hit = l[i] == *x;
        proof {
            assert(lm[i as int] == l[i as int]@);
        }
        if hit {
            proof {
                assert(lm.contains(x@));
            }
            return true;
        }
        i = i + 1;
    }
    proof {
        if lm.contains(x@) {
            let w = choose|j: int| 0 <= j < lm.len() && lm[j] == x@;
            assert(lm[w] != x@);
        }
    }
    false
}

/// First position of commit id `x` in a ledger.
pub fn find_cid(l: &Vec<String>, x: &String) -> (r: Option<usize>)
    ensures
        match r {
            Some(i) => i < l.len() && cid_index(l.deep_view(), x@) == i as int,
            None => cid_index(l.deep_view(), x@) == -1,
        },
{
    let ghost lm = l.deep_view();
    let mut i: usize = 0;
    while i < l.len()
        invariant
            0 <= i <= l.len(),
            lm == l.deep_view(),
            lm.len() == l.len(),
            forall|j: int| 0 <= j < i ==> #[trigger] lm[j] != x@,
        decreases l.len() - i,
    {
        let hit = l[i] == *x;
        proof {
            assert(lm[i as int] == l[i as int]@);
        }
        if hit {
            proof {
                lemma_cid_index_at(lm, x@, i as int);
            }
            return Some(i);
        }
        i = i + 1;
    }
    proof {
        lemma_cid_index(lm, x@);
    }
    None
}

} // verus!
