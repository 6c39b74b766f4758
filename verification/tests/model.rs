use mirage::action::{Action, ActionType};
use mirage::compare::{check_if_files_are_same, full_match};
use mirage::memfs::{has_prefix, in_store_check, Entry, MemFs};
use mirage::planner::{basename, canonical_path};
use mirage::wal::{MirageState, Redirections, WAL};

fn b(s: &str) -> Vec<u8> {
    s.as_bytes().to_vec()
}

#[test]
fn invert_copy_becomes_nop() {
    let a = Action::new(ActionType::Copy, b("/t/file.txt"), b("/t/.mirage/originals/file.txt"));
    let inv = a.invert();
    assert!(matches!(inv.action, ActionType::NOP));
    assert_eq!(inv.source, b("/t/.mirage/originals/file.txt"));
    assert_eq!(inv.target, b("/t/file.txt"));
}

#[test]
fn invert_symlink_becomes_copy() {
    let a = Action::new(
        ActionType::Symlink,
        b("/t/file.txt"),
        b("/t/.mirage/originals/file.txt"),
    );
    let inv = a.invert();
    assert!(matches!(inv.action, ActionType::Copy));
    assert_eq!(inv.source, b("/t/.mirage/originals/file.txt"));
    assert_eq!(inv.target, b("/t/file.txt"));
}

#[test]
fn invert_nop_keeps_paths() {
    let a = Action::new(ActionType::NOP, b("/a"), b("/b"));
    let inv = a.invert();
    assert!(matches!(inv.action, ActionType::NOP));
    assert_eq!(inv.source, b("/a"));
    assert_eq!(inv.target, b("/b"));
}

#[test]
fn comparator_equal_and_unequal() {
    assert!(check_if_files_are_same(&b("duplicate content"), &b("duplicate content")));
    assert!(!check_if_files_are_same(&b("duplicate content"), &b("unique content")));
    // Different lengths short-circuit.
    assert!(!check_if_files_are_same(&b("abc"), &b("abcd")));
    // Same length, different bytes.
    assert!(!full_match(&b("abcx"), &b("abcd")));
    // Empty files are equal.
    assert!(check_if_files_are_same(&b(""), &b("")));
    assert!(full_match(&b(""), &b("")));
}

#[test]
fn basename_takes_last_component() {
    assert_eq!(basename(&b("/test_dir/file1.txt")), b("file1.txt"));
    assert_eq!(basename(&b("relative.txt")), b("relative.txt"));
    assert_eq!(basename(&b("/a/b/c")), b("c"));
}

#[test]
fn canonical_path_joins_side_store() {
    assert_eq!(
        canonical_path(&b("/test_dir/.mirage"), &b("/test_dir/file1.txt")),
        b("/test_dir/.mirage/originals/file1.txt"),
    );
}

#[test]
fn redirections_lookup() {
    let mut r = Redirections::new();
    assert!(!r.contains_key(&b("/t/a")));
    assert!(r.get(&b("/t/a")).is_none());
    r.insert(b("/t/a"), b("/t/.mirage/originals/a"));
    assert!(r.contains_key(&b("/t/a")));
    assert_eq!(r.get(&b("/t/a")), Some(b("/t/.mirage/originals/a")));
    assert!(!r.contains_key(&b("/t/b")));
}

#[test]
fn wal_starts_empty() {
    let w = WAL::new();
    assert_eq!(w.actions.len(), 0);
    assert_eq!(w.checkpoint, 0);
    let s = MirageState::new(b("/t/.mirage"));
    assert_eq!(s.source_path, b("/t/.mirage"));
    assert_eq!(s.wal.actions.len(), 0);
}

#[test]
fn prefix_matching() {
    assert!(has_prefix(&b("/t/.mirage/wal.json"), &b("/t/.mirage")));
    assert!(has_prefix(&b("/t/.mirage"), &b("/t/.mirage")));
    assert!(!has_prefix(&b("/t/file.txt"), &b("/t/.mirage")));
    assert!(!has_prefix(&b("/t"), &b("/t/.mirage")));
}

#[test]
fn scan_skips_links_and_side_store() {
    let mut fs = MemFs::new();
    fs.set(b("/t/b.txt"), Entry::File(b("two")));
    fs.set(b("/t/a.txt"), Entry::File(b("one")));
    fs.set(b("/t/link"), Entry::Symlink(b("/t/a.txt")));
    fs.set(b("/t/.mirage/wal.json"), Entry::File(b("{}")));
    fs.set(b("/t/.mirage/originals/a.txt"), Entry::File(b("one")));

    let cands = fs.scan(&b("/t/.mirage"));
    assert_eq!(cands, vec![b("/t/b.txt"), b("/t/a.txt")]);
}

#[test]
fn set_replaces_in_place() {
    let mut fs = MemFs::new();
    fs.set(b("/t/a"), Entry::File(b("old")));
    fs.set(b("/t/a"), Entry::File(b("new")));
    match fs.get(&b("/t/a")) {
        Some(Entry::File(c)) => assert_eq!(c, &b("new")),
        other => panic!("unexpected entry: {other:?}"),
    }
    assert_eq!(fs.entries.len(), 1);
}

#[test]
fn remove_store_drops_only_the_store() {
    let mut fs = MemFs::new();
    fs.set(b("/t/a"), Entry::File(b("keep")));
    fs.set(b("/t/.mirageX"), Entry::File(b("sibling")));
    fs.set(b("/t/.mirage/wal.json"), Entry::File(b("{}")));
    fs.set(b("/t/.mirage/originals/a"), Entry::File(b("copy")));
    fs.remove_store(&b("/t/.mirage"));
    assert!(fs.get(&b("/t/a")).is_some());
    // A sibling that merely shares the store's name as a byte prefix
    // is not part of the store.
    assert!(fs.get(&b("/t/.mirageX")).is_some());
    assert!(fs.get(&b("/t/.mirage/wal.json")).is_none());
    assert!(fs.get(&b("/t/.mirage/originals/a")).is_none());
}

#[test]
fn store_membership() {
    assert!(in_store_check(&b("/t/.mirage"), &b("/t/.mirage")));
    assert!(in_store_check(&b("/t/.mirage/wal.json"), &b("/t/.mirage")));
    assert!(!in_store_check(&b("/t/.mirageX"), &b("/t/.mirage")));
    assert!(!in_store_check(&b("/t/file.txt"), &b("/t/.mirage")));
}
