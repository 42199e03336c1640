use vcs::commands::commit::commit_in_repo;
use vcs::commands::init::init;
use vcs::commands::jump::{jump_branch_in_repo, jump_commit_in_repo, JumpResult};
use vcs::commands::new_branch::{new_branch_in_repo, NewBranchResult};
use vcs::commands::status::status_in_repo;
use vcs::hashing::get_contents_hash;
use vcs::tree::{files_equal, get_file_changes, FileChange, TreeEntry};

fn file(path: &str, data: &str) -> TreeEntry {
    TreeEntry {
        path: path.as_bytes().to_vec(),
        is_file: true,
        data: data.as_bytes().to_vec(),
    }
}

fn folder(path: &str) -> TreeEntry {
    TreeEntry { path: path.as_bytes().to_vec(), is_file: false, data: Vec::new() }
}

// Committing with no working-tree changes since the head commit succeeds
// with an empty change set and creates neither a commit record nor a
// ledger entry.
#[test]
fn noop_commit_is_idempotent() {
    let (mut state, _initial) = init(vec![file("a.txt", "x")], 1);
    let head = state.cur_commit.clone();
    let n_commits = state.commit_list.commits.len();
    let n_ledger = state.branch_list.branches[0].commits.len();

    let r = commit_in_repo(&mut state, &String::from("nothing to do"), 2).unwrap();
    assert!(r.successful);
    assert_eq!(r.commit, head);
    assert_eq!(r.file_changes, Vec::new());
    assert_eq!(state.cur_commit, head);
    assert_eq!(state.commit_list.commits.len(), n_commits);
    assert_eq!(state.branch_list.branches[0].commits.len(), n_ledger);
}

// Hashing the same directory contents in any enumeration order yields the
// same commit id; changing a single byte changes it.
#[test]
fn hash_is_order_independent_and_content_sensitive() {
    let one = vec![file("a.txt", "alpha"), file("b.txt", "beta"), folder("sub")];
    let two = vec![folder("sub"), file("b.txt", "beta"), file("a.txt", "alpha")];
    let h1 = get_contents_hash(&one);
    let h2 = get_contents_hash(&two);
    assert_eq!(h1, h2);

    let three = vec![file("a.txt", "alphb"), file("b.txt", "beta"), folder("sub")];
    assert_ne!(get_contents_hash(&three), h1);

    // The id is the hex rendering of a digest, never the input itself.
    assert_eq!(h1.len(), 40);
    assert!(h1.chars().all(|c| c.is_ascii_hexdigit() && !c.is_ascii_uppercase()));
}

// status() immediately before commit(msg) reports the same change set
// that commit(msg) then records.
#[test]
fn status_and_commit_report_the_same_changes() {
    let (mut state, _initial) = init(vec![file("a.txt", "x"), file("b.txt", "y")], 1);
    state.working = vec![file("a.txt", "x2"), file("c.txt", "new")];

    let seen = status_in_repo(&state).unwrap().file_changes;
    let recorded = commit_in_repo(&mut state, &String::from("msg"), 2).unwrap().file_changes;
    assert_eq!(seen, recorded);
    assert_eq!(
        seen.iter().map(|c| c.kind).collect::<Vec<_>>(),
        vec![FileChange::Modified, FileChange::Added, FileChange::Removed]
    );
}

// Committing a state, changing the tree, and jumping back restores the
// tree byte for byte, with no stray and no missing entries.
#[test]
fn jump_round_trip_restores_the_tree() {
    let snapshot = vec![file("a.txt", "x"), folder("d"), file("d/e.txt", "deep")];
    let (mut state, _initial) = init(snapshot.clone(), 1);
    let committed = state.cur_commit.clone();

    state.working = vec![file("a.txt", "overwritten"), file("stray.txt", "s")];
    let r = commit_in_repo(&mut state, &String::from("later"), 2).unwrap();
    assert!(r.successful);
    assert_ne!(state.working, snapshot);

    let j = jump_commit_in_repo(&mut state, &committed).unwrap();
    assert!(matches!(j, JumpResult::Success { .. }));
    assert_eq!(state.working, snapshot);
}

// After new_branch(b) and jump(b), committing on b does not alter
// master's ledger or its last commit id.
#[test]
fn commits_on_a_branch_leave_master_alone() {
    let (mut state, _initial) = init(vec![file("a.txt", "x")], 1);
    state.working = vec![file("a.txt", "x"), file("m.txt", "m")];
    commit_in_repo(&mut state, &String::from("master work"), 2).unwrap();

    let master_ledger_before = state
        .branch_list
        .branches
        .iter()
        .find(|b| b.name == "master")
        .unwrap()
        .commits
        .clone();

    assert!(matches!(
        new_branch_in_repo(&mut state, &String::from("b")),
        NewBranchResult::Success { .. }
    ));
    jump_branch_in_repo(&mut state, &String::from("b")).unwrap();
    state.working = vec![file("a.txt", "branch work")];
    let r = commit_in_repo(&mut state, &String::from("on b"), 3).unwrap();
    assert!(r.successful);
    assert_eq!(r.branch, "b");

    let master_ledger_after = state
        .branch_list
        .branches
        .iter()
        .find(|b| b.name == "master")
        .unwrap()
        .commits
        .clone();
    assert_eq!(master_ledger_before, master_ledger_after);
    assert_eq!(master_ledger_before.last(), master_ledger_after.last());
}

// The diff engine: matched equal entries are consumed silently,
// directories always match each other, and entries only present in the
// second tree come back as Removed.
#[test]
fn diff_engine_reports_added_modified_removed() {
    let ours = vec![file("same.txt", "s"), file("edited.txt", "new"), file("fresh.txt", "f"), folder("d")];
    let theirs = vec![file("same.txt", "s"), file("edited.txt", "old"), folder("d"), file("gone.txt", "g")];
    let changes = get_file_changes(&ours, &theirs);
    let summary: Vec<(FileChange, &[u8])> =
        changes.iter().map(|c| (c.kind, c.path.as_slice())).collect();
    assert_eq!(
        summary,
        vec![
            (FileChange::Modified, b"edited.txt".as_slice()),
            (FileChange::Added, b"fresh.txt".as_slice()),
            (FileChange::Removed, b"gone.txt".as_slice()),
        ]
    );

    // Two identical trees diff to nothing.
    assert_eq!(get_file_changes(&ours, &ours), Vec::new());
}

#[test]
fn files_equal_compares_kind_then_bytes() {
    assert!(files_equal(&file("p", "abc"), &file("q", "abc")));
    assert!(!files_equal(&file("p", "abc"), &file("p", "abd")));
    assert!(!files_equal(&file("p", "abc"), &file("p", "ab")));
    assert!(files_equal(&folder("p"), &folder("q")));
    assert!(!files_equal(&file("p", ""), &folder("p")));
}

// The content hash follows the documented fold exactly: seeded with the
// digest of the fixed tag, then one digest step per path and one per
// file content, each over the previous state's hex bytes.
#[test]
fn hash_matches_the_documented_fold() {
    // SHA-1 of "vcs": the seed, also the empty tree's id.
    let empty: Vec<TreeEntry> = Vec::new();
    assert_eq!(get_contents_hash(&empty), "12c875436a19b99bf0b96f0110d54611e83c2b9b");
    // One more step for the path "a.txt", one for the content "x".
    let one = vec![file("a.txt", "x")];
    assert_eq!(get_contents_hash(&one), "7c166654e79c39c3d5b18d608d2858c069d797fd");
}

// The empty tree and a one-file tree hash differently, and an empty file
// still contributes its path.
#[test]
fn hash_distinguishes_shape() {
    let empty: Vec<TreeEntry> = Vec::new();
    let one = vec![file("a", "")];
    let as_dir = vec![folder("a")];
    let h_empty = get_contents_hash(&empty);
    let h_one = get_contents_hash(&one);
    let h_dir = get_contents_hash(&as_dir);
    assert_ne!(h_empty, h_one);
    assert_ne!(h_empty, h_dir);
    // A file with empty content and a directory of the same name hash
    // differently: the file's (empty) content still enters the fold.
    assert_ne!(h_one, h_dir);
}
