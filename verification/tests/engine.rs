use mirage::action::{Action, ActionType};
use mirage::engine::{apply, revert};
use mirage::executor::execute;
use mirage::memfs::{Entry, MemFs};
use mirage::wal::{MirageError, MirageState};

fn b(s: &str) -> Vec<u8> {
    s.as_bytes().to_vec()
}

fn file(fs: &mut MemFs, path: &str, content: &str) {
    fs.set(b(path), Entry::File(b(content)));
}

fn assert_is_file(fs: &MemFs, path: &str, content: &str) {
    match fs.get(&b(path)) {
        Some(Entry::File(c)) => assert_eq!(c, &b(content)),
        other => panic!("expected regular file at {path}, got {other:?}",),
    }
}

fn assert_links_to(fs: &MemFs, path: &str, target: &str) {
    match fs.get(&b(path)) {
        Some(Entry::Symlink(t)) => assert_eq!(t, &b(target)),
        other => panic!("expected symlink at {path}, got {other:?}"),
    }
}

fn assert_absent(fs: &MemFs, path: &str) {
    assert!(fs.get(&b(path)).is_none(), "expected nothing at {path}");
}

#[test]
fn simple_test() {
    let mut fs = MemFs::new();
    file(&mut fs, "/test_dir/file1.txt", "duplicate content");
    file(&mut fs, "/test_dir/file2.txt", "duplicate content");
    file(&mut fs, "/test_dir/file3.txt", "unique content");

    let mut state = MirageState::new(b("/test_dir/.mirage"));
    apply(&mut state, &mut fs).unwrap();

    // file1 was copied into the side-store's originals directory.
    assert_is_file(&fs, "/test_dir/.mirage/originals/file1.txt", "duplicate content");
    // file1 and file2 both resolve to that one canonical copy.
    assert_links_to(&fs, "/test_dir/file1.txt", "/test_dir/.mirage/originals/file1.txt");
    assert_links_to(&fs, "/test_dir/file2.txt", "/test_dir/.mirage/originals/file1.txt");
    // The unique file stays a regular file.
    assert_is_file(&fs, "/test_dir/file3.txt", "unique content");

    revert(&state, &mut fs).unwrap();

    assert_is_file(&fs, "/test_dir/file1.txt", "duplicate content");
    assert_is_file(&fs, "/test_dir/file2.txt", "duplicate content");
    assert_is_file(&fs, "/test_dir/file3.txt", "unique content");
    assert_absent(&fs, "/test_dir/.mirage/originals/file1.txt");
}

#[test]
fn three_way_equivalence() {
    let mut fs = MemFs::new();
    file(&mut fs, "/d/a.txt", "same bytes");
    file(&mut fs, "/d/b.txt", "same bytes");
    file(&mut fs, "/d/c.txt", "same bytes");

    let mut state = MirageState::new(b("/d/.mirage"));
    apply(&mut state, &mut fs).unwrap();

    // One canonical copy, not three.
    let copies = state
        .wal
        .actions
        .iter()
        .filter(|a| matches!(a.action, ActionType::Copy))
        .count();
    assert_eq!(copies, 1);
    assert_is_file(&fs, "/d/.mirage/originals/a.txt", "same bytes");
    assert_links_to(&fs, "/d/a.txt", "/d/.mirage/originals/a.txt");
    assert_links_to(&fs, "/d/b.txt", "/d/.mirage/originals/a.txt");
    assert_links_to(&fs, "/d/c.txt", "/d/.mirage/originals/a.txt");

    revert(&state, &mut fs).unwrap();
    assert_is_file(&fs, "/d/a.txt", "same bytes");
    assert_is_file(&fs, "/d/b.txt", "same bytes");
    assert_is_file(&fs, "/d/c.txt", "same bytes");
    assert_absent(&fs, "/d/.mirage/originals/a.txt");
}

#[test]
fn empty_tree() {
    let mut fs = MemFs::new();
    let mut state = MirageState::new(b("/empty/.mirage"));

    apply(&mut state, &mut fs).unwrap();
    assert_eq!(state.wal.actions.len(), 0);
    assert_eq!(state.wal.checkpoint, 0);

    revert(&state, &mut fs).unwrap();
    assert!(fs.entries.is_empty());
}

#[test]
fn distinct_content_untouched() {
    let mut fs = MemFs::new();
    file(&mut fs, "/d/one.txt", "first");
    file(&mut fs, "/d/two.txt", "second");
    file(&mut fs, "/d/three.txt", "third");

    let mut state = MirageState::new(b("/d/.mirage"));
    apply(&mut state, &mut fs).unwrap();

    assert_eq!(state.wal.actions.len(), 0);
    assert_is_file(&fs, "/d/one.txt", "first");
    assert_is_file(&fs, "/d/two.txt", "second");
    assert_is_file(&fs, "/d/three.txt", "third");
}

#[test]
fn apply_twice_plans_nothing_new() {
    let mut fs = MemFs::new();
    file(&mut fs, "/d/x.txt", "payload");
    file(&mut fs, "/d/y.txt", "payload");

    let mut state = MirageState::new(b("/d/.mirage"));
    apply(&mut state, &mut fs).unwrap();
    let actions_after_first = state.wal.actions.len();
    let checkpoint_after_first = state.wal.checkpoint;
    assert_eq!(actions_after_first, 3);
    assert_eq!(checkpoint_after_first, 3);

    apply(&mut state, &mut fs).unwrap();
    assert_eq!(state.wal.actions.len(), actions_after_first);
    assert_eq!(state.wal.checkpoint, checkpoint_after_first);
    assert_links_to(&fs, "/d/x.txt", "/d/.mirage/originals/x.txt");
    assert_links_to(&fs, "/d/y.txt", "/d/.mirage/originals/x.txt");
}

#[test]
fn resume_after_interruption() {
    // Uninterrupted run.
    let mut fs_a = MemFs::new();
    file(&mut fs_a, "/d/x.txt", "payload");
    file(&mut fs_a, "/d/y.txt", "payload");
    let mut state_a = MirageState::new(b("/d/.mirage"));
    apply(&mut state_a, &mut fs_a).unwrap();

    // Interrupted run: plan, execute one of the three actions, stop.
    let mut fs_b = MemFs::new();
    file(&mut fs_b, "/d/x.txt", "payload");
    file(&mut fs_b, "/d/y.txt", "payload");
    let mut state_b = MirageState::new(b("/d/.mirage"));
    mirage::planner::plan(&mut state_b, &fs_b);
    assert_eq!(state_b.wal.actions.len(), 3);
    let first = state_b.wal.actions[0].duplicate();
    assert!(mirage::memfs::run_action(&mut fs_b, &first));
    state_b.advance_checkpoint();
    assert_eq!(state_b.wal.checkpoint, 1);

    // Re-invoking apply completes the remaining actions.
    apply(&mut state_b, &mut fs_b).unwrap();
    assert_eq!(state_b.wal.actions.len(), 3);
    assert_eq!(state_b.wal.checkpoint, 3);

    for path in ["/d/x.txt", "/d/y.txt", "/d/.mirage/originals/x.txt"] {
        let a = fs_a.get(&b(path));
        let b_ = fs_b.get(&b(path));
        match (a, b_) {
            (Some(Entry::File(c1)), Some(Entry::File(c2))) => assert_eq!(c1, c2),
            (Some(Entry::Symlink(t1)), Some(Entry::Symlink(t2))) => assert_eq!(t1, t2),
            other => panic!("states diverge at {path}: {other:?}"),
        }
    }
}

#[test]
fn shared_basename_classes_keep_distinct_copies() {
    let mut fs = MemFs::new();
    file(&mut fs, "/d/a/x.txt", "first class");
    file(&mut fs, "/d/a/y.txt", "first class");
    file(&mut fs, "/d/b/x.txt", "second class");
    file(&mut fs, "/d/b/z.txt", "second class");

    let mut state = MirageState::new(b("/d/.mirage"));
    apply(&mut state, &mut fs).unwrap();

    // Two unrelated classes whose first members share a basename get
    // two canonical copies at distinct paths; neither overwrites the
    // other.
    assert_is_file(&fs, "/d/.mirage/originals/x.txt", "first class");
    assert_is_file(&fs, "/d/.mirage/originals/x.txt_", "second class");
    assert_links_to(&fs, "/d/a/x.txt", "/d/.mirage/originals/x.txt");
    assert_links_to(&fs, "/d/a/y.txt", "/d/.mirage/originals/x.txt");
    assert_links_to(&fs, "/d/b/x.txt", "/d/.mirage/originals/x.txt_");
    assert_links_to(&fs, "/d/b/z.txt", "/d/.mirage/originals/x.txt_");

    revert(&state, &mut fs).unwrap();
    assert_is_file(&fs, "/d/a/x.txt", "first class");
    assert_is_file(&fs, "/d/a/y.txt", "first class");
    assert_is_file(&fs, "/d/b/x.txt", "second class");
    assert_is_file(&fs, "/d/b/z.txt", "second class");
    assert_absent(&fs, "/d/.mirage/originals/x.txt");
    assert_absent(&fs, "/d/.mirage/originals/x.txt_");
}

#[test]
fn execute_reports_failed_copy() {
    let mut fs = MemFs::new();
    let mut state = MirageState::new(b("/d/.mirage"));
    state.wal.actions.push(Action::new(
        ActionType::Copy,
        b("/d/missing.txt"),
        b("/d/.mirage/originals/missing.txt"),
    ));

    let r = execute(&mut state, &mut fs);
    assert_eq!(r, Err(MirageError::ErrorDuringIO));
    // The checkpoint rests on the failed action.
    assert_eq!(state.wal.checkpoint, 0);
}

#[test]
fn revert_restores_after_partial_execution() {
    let mut fs = MemFs::new();
    file(&mut fs, "/d/x.txt", "payload");
    file(&mut fs, "/d/y.txt", "payload");
    let mut state = MirageState::new(b("/d/.mirage"));
    mirage::planner::plan(&mut state, &fs);

    // Execute only the copy and the first symlink.
    for _ in 0..2 {
        let cp = state.wal.checkpoint;
        let a = state.wal.actions[cp].duplicate();
        assert!(mirage::memfs::run_action(&mut fs, &a));
        state.advance_checkpoint();
    }

    // Reverting replays only the applied prefix, inverted.
    revert(&state, &mut fs).unwrap();
    assert_is_file(&fs, "/d/x.txt", "payload");
    assert_is_file(&fs, "/d/y.txt", "payload");
    assert_absent(&fs, "/d/.mirage/originals/x.txt");
}

#[test]
fn revert_on_fresh_store_is_noop() {
    let mut fs = MemFs::new();
    file(&mut fs, "/d/x.txt", "payload");
    let state = MirageState::new(b("/d/.mirage"));
    revert(&state, &mut fs).unwrap();
    assert_is_file(&fs, "/d/x.txt", "payload");
}
