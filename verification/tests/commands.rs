use vcs::commands::commit::commit_in_repo;
use vcs::commands::init::init;
use vcs::commands::jump::{jump_branch_in_repo, jump_commit_in_repo, JumpResult};
use vcs::commands::log::log_in_repo;
use vcs::commands::merge::{merge_in_repo, MergeResult};
use vcs::commands::new_branch::{new_branch_in_repo, NewBranchResult};
use vcs::commands::status::status_in_repo;
use vcs::metadata::CommitData;
use vcs::state::Snapshot;
use vcs::tree::{FileChange, TreeEntry};
use vcs::VcsError;

fn file(path: &str, data: &str) -> TreeEntry {
    TreeEntry {
        path: path.as_bytes().to_vec(),
        is_file: true,
        data: data.as_bytes().to_vec(),
    }
}

fn change(kind: FileChange, path: &str) -> (FileChange, Vec<u8>) {
    (kind, path.as_bytes().to_vec())
}

fn kinds_and_paths(changes: &[vcs::tree::ChangeRecord]) -> Vec<(FileChange, Vec<u8>)> {
    changes.iter().map(|c| (c.kind, c.path.clone())).collect()
}

#[test]
fn scenario_commit_jump_branch_merge() {
    // Initialize over an empty tree.
    let (mut state, initial) = init(Vec::new(), 1);
    assert_eq!(initial.len(), 40);

    // Add a.txt = "x" and commit.
    state.working = vec![file("a.txt", "x")];
    let r1 = commit_in_repo(&mut state, &String::from("m1"), 2).unwrap();
    assert!(r1.successful);
    assert_eq!(r1.branch, "master");
    assert_eq!(kinds_and_paths(&r1.file_changes), vec![change(FileChange::Added, "a.txt")]);
    let m1 = r1.commit.clone();

    // Modify a.txt, add b.txt, commit again.
    state.working = vec![file("a.txt", "y"), file("b.txt", "z")];
    let r2 = commit_in_repo(&mut state, &String::from("m2"), 3).unwrap();
    assert!(r2.successful);
    assert_eq!(
        kinds_and_paths(&r2.file_changes),
        vec![change(FileChange::Modified, "a.txt"), change(FileChange::Added, "b.txt")]
    );
    let m2 = r2.commit.clone();
    assert_ne!(m1, m2);

    // Jump back to m1: b.txt is gone, a.txt holds "x" again.
    let j1 = jump_commit_in_repo(&mut state, &m1).unwrap();
    assert_eq!(
        j1,
        JumpResult::Success { commit: m1.clone(), branch: String::from("master") }
    );
    assert_eq!(state.working, vec![file("a.txt", "x")]);

    // Fork a branch at m1 and move onto it.
    assert_eq!(
        new_branch_in_repo(&mut state, &String::from("f")),
        NewBranchResult::Success { commit: m1.clone() }
    );
    let j2 = jump_branch_in_repo(&mut state, &String::from("f")).unwrap();
    assert_eq!(j2, JumpResult::Success { commit: m1.clone(), branch: String::from("f") });

    // Commit a.txt = "q" on f.
    state.working = vec![file("a.txt", "q")];
    let r3 = commit_in_repo(&mut state, &String::from("m3"), 4).unwrap();
    assert!(r3.successful);
    assert_eq!(r3.branch, "f");
    let m3 = r3.commit.clone();

    // Back to master's tip; commit a change to b.txt only.
    let j3 = jump_branch_in_repo(&mut state, &String::from("master")).unwrap();
    assert_eq!(j3, JumpResult::Success { commit: m2.clone(), branch: String::from("master") });
    state.working = vec![file("a.txt", "y"), file("b.txt", "w")];
    let r4 = commit_in_repo(&mut state, &String::from("m4"), 5).unwrap();
    assert!(r4.successful);
    assert_eq!(kinds_and_paths(&r4.file_changes), vec![change(FileChange::Modified, "b.txt")]);
    let m4 = r4.commit.clone();

    // Both sides changed a.txt since the fork point m1 ("y" on master's
    // side, "q" on f's), so the merge reports that conflict.
    assert_eq!(
        merge_in_repo(&mut state, &String::from("f"), 6).unwrap(),
        MergeResult::MergeConflict {
            commit1: m4.clone(),
            commit2: m3.clone(),
            path: b"a.txt".to_vec(),
        }
    );

    // The failed merge left everything in place.
    assert_eq!(state.cur_commit, m4);
    assert!(state.branch_list.branches.iter().any(|b| b.name == "f"));
}

#[test]
fn merge_of_disjoint_changes_succeeds_and_removes_branch() {
    let (mut state, _initial) = init(vec![file("a.txt", "x")], 1);

    // Fork at the tip, then change only c.txt on master.
    assert!(matches!(
        new_branch_in_repo(&mut state, &String::from("side")),
        NewBranchResult::Success { .. }
    ));
    state.working = vec![file("a.txt", "x"), file("c.txt", "c")];
    let rm = commit_in_repo(&mut state, &String::from("on master"), 2).unwrap();
    assert!(rm.successful);

    // Change only b.txt on the branch.
    jump_branch_in_repo(&mut state, &String::from("side")).unwrap();
    state.working = vec![file("a.txt", "x"), file("b.txt", "b")];
    let rb = commit_in_repo(&mut state, &String::from("on side"), 3).unwrap();
    assert!(rb.successful);
    assert_eq!(rb.branch, "side");

    // Back onto master's tip.
    jump_branch_in_repo(&mut state, &String::from("master")).unwrap();

    let merged = merge_in_repo(&mut state, &String::from("side"), 4).unwrap();
    match merged {
        MergeResult::Success { commit, file_changes } => {
            assert_eq!(commit.len(), 40);
            // Relative to the former master tip, the merge brought b.txt in.
            assert_eq!(
                kinds_and_paths(&file_changes),
                vec![change(FileChange::Added, "b.txt")]
            );
        }
        other => panic!("expected a successful merge, got {:?}", other),
    }
    // The source branch's record is gone; master stays.
    assert!(!state.branch_list.branches.iter().any(|b| b.name == "side"));
    assert!(state.branch_list.branches.iter().any(|b| b.name == "master"));
    assert_eq!(state.cur_branch, "master");
}

#[test]
fn merge_conflict_coinciding_content_succeeds() {
    // Both sides change the same path to the same bytes: no conflict.
    let (mut state, _initial) = init(vec![file("a.txt", "x")], 1);
    new_branch_in_repo(&mut state, &String::from("twin"));
    state.working = vec![file("a.txt", "same"), file("d.txt", "d")];
    assert!(commit_in_repo(&mut state, &String::from("master edit"), 2).unwrap().successful);

    jump_branch_in_repo(&mut state, &String::from("twin")).unwrap();
    state.working = vec![file("a.txt", "same"), file("e.txt", "e")];
    let rt = commit_in_repo(&mut state, &String::from("twin edit"), 3).unwrap();
    assert!(rt.successful);
    assert_eq!(rt.branch, "twin");

    jump_branch_in_repo(&mut state, &String::from("master")).unwrap();

    match merge_in_repo(&mut state, &String::from("twin"), 4).unwrap() {
        MergeResult::Success { .. } => {}
        other => panic!("expected a successful merge, got {:?}", other),
    }
}

#[test]
fn merge_refusals() {
    let (mut state, _initial) = init(vec![file("a.txt", "x")], 1);
    // Merging master into itself is refused outright.
    assert_eq!(
        merge_in_repo(&mut state, &String::from("master"), 2).unwrap(),
        MergeResult::MergeWithMaster
    );
    // Merging an unknown branch fails the ledger lookup.
    assert_eq!(
        merge_in_repo(&mut state, &String::from("ghostly"), 3),
        Err(VcsError::BranchNotFound)
    );

    // Away from master's tip, merge reports NotLastCommit.
    let m1 = state.cur_commit.clone();
    new_branch_in_repo(&mut state, &String::from("side"));
    state.working = vec![file("a.txt", "x2")];
    assert!(commit_in_repo(&mut state, &String::from("m2"), 4).unwrap().successful);
    jump_commit_in_repo(&mut state, &m1).unwrap();
    assert_eq!(
        merge_in_repo(&mut state, &String::from("side"), 5).unwrap(),
        MergeResult::NotLastCommit
    );
}

#[test]
fn new_branch_rules() {
    let (mut state, initial) = init(vec![file("a.txt", "x")], 1);
    // The name master is taken.
    assert_eq!(
        new_branch_in_repo(&mut state, &String::from("master")),
        NewBranchResult::AlreadyExists
    );
    // From master, creation succeeds and roots at the current commit.
    assert_eq!(
        new_branch_in_repo(&mut state, &String::from("b1")),
        NewBranchResult::Success { commit: initial.clone() }
    );
    // Away from master, creation is refused.
    jump_branch_in_repo(&mut state, &String::from("b1")).unwrap();
    assert_eq!(
        new_branch_in_repo(&mut state, &String::from("b2")),
        NewBranchResult::OnlyFromMaster
    );
}

#[test]
fn jump_refusals_and_not_found() {
    let (mut state, initial) = init(vec![file("a.txt", "x")], 1);
    // An unknown commit id is NotFound.
    assert_eq!(
        jump_commit_in_repo(&mut state, &String::from("0000")).unwrap(),
        JumpResult::NotFound
    );
    // An unknown branch is NotFound.
    assert_eq!(
        jump_branch_in_repo(&mut state, &String::from("nowhere")).unwrap(),
        JumpResult::NotFound
    );
    // A dirty working tree refuses the jump and lists the changes.
    state.working = vec![file("a.txt", "x"), file("new.txt", "n")];
    match jump_commit_in_repo(&mut state, &initial).unwrap() {
        JumpResult::UncommittedChanges { file_changes } => {
            assert_eq!(
                kinds_and_paths(&file_changes),
                vec![change(FileChange::Added, "new.txt")]
            );
        }
        other => panic!("expected UncommittedChanges, got {:?}", other),
    }
}

#[test]
fn log_lists_history_newest_first_with_changes() {
    let (mut state, initial) = init(Vec::new(), 10);
    state.working = vec![file("a.txt", "x")];
    let r1 = commit_in_repo(&mut state, &String::from("first"), 11).unwrap();
    state.working = vec![file("a.txt", "x"), file("b.txt", "y")];
    let r2 = commit_in_repo(&mut state, &String::from("second"), 12).unwrap();

    let log = log_in_repo(&state).unwrap();
    assert_eq!(log.commit_list.len(), 3);
    assert_eq!(log.commit_list[0].0.hash, r2.commit);
    assert_eq!(log.commit_list[0].0.message, "second");
    assert_eq!(log.commit_list[0].0.date, 12);
    assert_eq!(log.commit_list[1].0.hash, r1.commit);
    assert_eq!(log.commit_list[1].0.message, "first");
    assert_eq!(log.commit_list[2].0.hash, initial);
    assert_eq!(log.commit_list[2].0.message, "Initial commit");
    // Each entry carries the changes it introduced; the origin none.
    assert_eq!(
        kinds_and_paths(&log.commit_list[0].1),
        vec![change(FileChange::Added, "b.txt")]
    );
    assert_eq!(
        kinds_and_paths(&log.commit_list[1].1),
        vec![change(FileChange::Added, "a.txt")]
    );
    assert_eq!(log.commit_list[2].1, Vec::new());
}

#[test]
fn log_on_branch_walks_master_to_fork_point() {
    let (mut state, initial) = init(Vec::new(), 1);
    state.working = vec![file("a.txt", "1")];
    let r1 = commit_in_repo(&mut state, &String::from("m1"), 2).unwrap();
    new_branch_in_repo(&mut state, &String::from("f"));
    jump_branch_in_repo(&mut state, &String::from("f")).unwrap();
    state.working = vec![file("a.txt", "2")];
    let r2 = commit_in_repo(&mut state, &String::from("on f"), 3).unwrap();

    let log = log_in_repo(&state).unwrap();
    let hashes: Vec<String> = log.commit_list.iter().map(|e| e.0.hash.clone()).collect();
    // Newest first: the branch commit, the fork point, then master's
    // earlier history.
    assert_eq!(hashes, vec![r2.commit, r1.commit, initial]);
}

#[test]
fn status_reports_branch_and_changes() {
    let (mut state, _initial) = init(vec![file("a.txt", "x")], 1);
    let clean = status_in_repo(&state).unwrap();
    assert_eq!(clean.branch, "master");
    assert_eq!(clean.file_changes, Vec::new());

    state.working = vec![file("a.txt", "other")];
    let dirty = status_in_repo(&state).unwrap();
    assert_eq!(
        kinds_and_paths(&dirty.file_changes),
        vec![change(FileChange::Modified, "a.txt")]
    );
}

#[test]
fn commit_away_from_tip_is_not_successful() {
    let (mut state, initial) = init(vec![file("a.txt", "x")], 1);
    state.working = vec![file("a.txt", "y")];
    commit_in_repo(&mut state, &String::from("second"), 2).unwrap();
    jump_commit_in_repo(&mut state, &initial).unwrap();
    // The head now sits on an earlier commit of master's ledger.
    state.working = vec![file("a.txt", "z")];
    let r = commit_in_repo(&mut state, &String::from("stale"), 3).unwrap();
    assert!(!r.successful);
    assert_eq!(r.commit, initial);
    assert_eq!(r.file_changes, Vec::new());
}

#[test]
fn jump_to_commit_without_snapshot_or_owner() {
    // A commit still in the catalog whose snapshot is gone.
    let (mut state, initial) = init(vec![file("a.txt", "x")], 1);
    state.working = vec![file("a.txt", "y")];
    commit_in_repo(&mut state, &String::from("second"), 2).unwrap();
    state.snapshots.retain(|s| s.id != initial);
    assert_eq!(jump_commit_in_repo(&mut state, &initial), Err(VcsError::CommitNotFound));

    // A commit in the catalog, with a snapshot, that no branch's ledger
    // holds — as a crash between the two catalog writes would leave it.
    let (mut state2, _initial2) = init(vec![file("a.txt", "x")], 1);
    let orphan = String::from("feedfacefeedfacefeedfacefeedfacefeedface");
    state2.commit_list.commits.push(CommitData::from(orphan.clone(), String::from("orphan"), 9));
    state2.snapshots.push(Snapshot { id: orphan.clone(), tree: Vec::new() });
    assert_eq!(jump_commit_in_repo(&mut state2, &orphan), Err(VcsError::BranchNotFound));
}

#[test]
fn log_fails_when_a_history_commit_lost_its_record() {
    let (mut state, _initial) = init(vec![file("a.txt", "x")], 1);
    state.commit_list.commits.clear();
    assert!(matches!(log_in_repo(&state), Err(VcsError::CommitNotFound)));
}

#[test]
fn repeated_new_branch_appends_to_the_existing_ledger() {
    let (mut state, initial) = init(vec![file("a.txt", "x")], 1);
    assert_eq!(
        new_branch_in_repo(&mut state, &String::from("b")),
        NewBranchResult::Success { commit: initial.clone() }
    );
    state.working = vec![file("a.txt", "y")];
    let r2 = commit_in_repo(&mut state, &String::from("second"), 2).unwrap();
    assert_eq!(
        new_branch_in_repo(&mut state, &String::from("b")),
        NewBranchResult::Success { commit: r2.commit.clone() }
    );
    let b = state.branch_list.branches.iter().find(|b| b.name == "b").unwrap();
    assert_eq!(b.commits, vec![initial, r2.commit]);
}

#[test]
fn error_variants_on_malformed_states() {
    // A head branch with no ledger record.
    let (mut state, _initial) = init(vec![file("a.txt", "x")], 1);
    state.cur_branch = String::from("gone");
    assert_eq!(
        commit_in_repo(&mut state, &String::from("msg"), 2),
        Err(VcsError::BranchNotFound)
    );

    // A head commit with no stored snapshot.
    let (mut state2, _initial2) = init(vec![file("a.txt", "x")], 1);
    state2.cur_commit = String::from("dangling");
    assert!(matches!(status_in_repo(&state2), Err(VcsError::CommitNotFound)));

    // Committing a tree whose content hash is already stored.
    let (mut state3, initial3) = init(vec![file("a.txt", "x")], 1);
    state3.working = vec![file("a.txt", "y")];
    let r2 = commit_in_repo(&mut state3, &String::from("second"), 2).unwrap();
    assert!(r2.successful);
    jump_commit_in_repo(&mut state3, &initial3).unwrap();
    new_branch_in_repo(&mut state3, &String::from("redo"));
    jump_branch_in_repo(&mut state3, &String::from("redo")).unwrap();
    state3.working = vec![file("a.txt", "y")];
    assert_eq!(
        commit_in_repo(&mut state3, &String::from("same bytes again"), 3),
        Err(VcsError::CommitExists)
    );

    // Merging when both sides removed the same file: the entries to
    // compare exist in neither snapshot.
    let (mut state4, _initial4) = init(vec![file("a.txt", "x"), file("keep", "k")], 1);
    new_branch_in_repo(&mut state4, &String::from("side"));
    state4.working = vec![file("keep", "k"), file("master.txt", "m")];
    assert!(commit_in_repo(&mut state4, &String::from("drop a on master"), 2).unwrap().successful);
    jump_branch_in_repo(&mut state4, &String::from("side")).unwrap();
    state4.working = vec![file("keep", "k"), file("side.txt", "s")];
    assert!(commit_in_repo(&mut state4, &String::from("drop a on side"), 3).unwrap().successful);
    jump_branch_in_repo(&mut state4, &String::from("master")).unwrap();
    assert_eq!(
        merge_in_repo(&mut state4, &String::from("side"), 4),
        Err(VcsError::FileNotFound)
    );
}
