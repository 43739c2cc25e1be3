use telegramfs::error::Error;
use telegramfs::inode::Inode;
use telegramfs::tree::InodeTable;

fn file() -> Inode {
    Inode::new_file(0, 0, String::new(), 1000, 1000, 0o644)
}

fn dir() -> Inode {
    Inode::new_directory(0, 0, String::new(), 1000, 1000, 0o755)
}

fn table() -> InodeTable {
    InodeTable::new(Inode::root(1000, 1000, 0o755)).unwrap()
}

fn children(t: &InodeTable, ino: u64) -> Vec<u64> {
    t.get(ino).unwrap().children.clone()
}

#[test]
fn create_lists_child_under_parent() {
    let mut t = table();
    let a = t.create(1, "a.txt".to_string(), file()).unwrap();
    let d = t.create(1, "docs".to_string(), dir()).unwrap();
    let b = t.create(d, "b.txt".to_string(), file()).unwrap();
    assert_eq!((a, d, b), (2, 3, 4));
    assert_eq!(children(&t, 1), vec![2, 3]);
    assert_eq!(children(&t, d), vec![b]);
    assert_eq!(t.get(b).unwrap().parent, d);
    assert_eq!(t.lookup(1, "docs"), Some(d));
    assert_eq!(t.lookup(d, "b.txt"), Some(b));
    assert_eq!(t.lookup(d, "a.txt"), None);
    assert_eq!(t.len(), 4);
}

#[test]
fn create_rejects_duplicates_and_non_directories() {
    let mut t = table();
    let a = t.create(1, "a".to_string(), file()).unwrap();
    assert_eq!(t.create(1, "a".to_string(), file()), Err(Error::AlreadyExists));
    assert_eq!(t.create(a, "x".to_string(), file()), Err(Error::NotADirectory(a)));
    assert_eq!(t.create(99, "x".to_string(), file()), Err(Error::InodeNotFound(99)));
    assert!(InodeTable::new(file()).is_err());
}

#[test]
fn unlink_drops_entry_and_refuses_full_directories() {
    let mut t = table();
    let d = t.create(1, "d".to_string(), dir()).unwrap();
    let f = t.create(d, "f".to_string(), file()).unwrap();
    assert_eq!(t.unlink(1, "d"), Err(Error::NotEmpty(d)));
    assert_eq!(t.unlink(d, "f"), Ok(f));
    assert!(t.get(f).is_none());
    assert!(children(&t, d).is_empty());
    assert_eq!(t.unlink(1, "d"), Ok(d));
    assert!(children(&t, 1).is_empty());
    assert_eq!(t.unlink(1, "d"), Err(Error::InodeNotFound(1)));
}

#[test]
fn rename_across_directories_keeps_ino_and_version() {
    let mut t = table();
    let src = t.create(1, "src".to_string(), dir()).unwrap();
    let dst = t.create(1, "dst".to_string(), dir()).unwrap();
    let mut node = file();
    node.version = 7;
    let f = t.create(src, "f".to_string(), node).unwrap();
    assert_eq!(t.rename(src, "f", dst, "g".to_string()), Ok(f));
    let moved = t.get(f).unwrap();
    assert_eq!(moved.parent, dst);
    assert_eq!(moved.name, "g");
    assert_eq!(moved.version, 7);
    assert!(children(&t, src).is_empty());
    assert_eq!(children(&t, dst), vec![f]);
    assert_eq!(t.lookup(dst, "g"), Some(f));
    assert_eq!(t.lookup(src, "f"), None);
}

#[test]
fn rename_within_directory_and_refused_moves() {
    let mut t = table();
    let d = t.create(1, "d".to_string(), dir()).unwrap();
    let sub = t.create(d, "sub".to_string(), dir()).unwrap();
    let a = t.create(1, "a".to_string(), file()).unwrap();
    t.create(1, "b".to_string(), file()).unwrap();
    assert_eq!(t.rename(1, "a", 1, "c".to_string()), Ok(a));
    assert_eq!(t.lookup(1, "c"), Some(a));
    assert_eq!(t.rename(1, "c", 1, "b".to_string()), Err(Error::AlreadyExists));
    assert_eq!(t.rename(1, "d", sub, "loop".to_string()), Err(Error::InvalidMove));
    assert_eq!(t.rename(1, "nope", d, "x".to_string()), Err(Error::InodeNotFound(1)));
}

#[test]
fn snapshot_restore_returns_tree_to_snapshot() {
    let mut t = table();
    let keep = t.create(1, "keep".to_string(), file()).unwrap();
    let s0 = t.snapshot();
    let x = t.create(1, "x".to_string(), file()).unwrap();
    let y = t.create(1, "y".to_string(), file()).unwrap();
    let z = t.create(1, "z".to_string(), file()).unwrap();
    t.unlink(1, "x").unwrap();
    t.rename(1, "y", 1, "y2".to_string()).unwrap();
    t.restore(&s0);
    assert_eq!(t.len(), 2);
    assert_eq!(children(&t, 1), vec![keep]);
    assert_eq!(t.lookup(1, "keep"), Some(keep));
    for gone in [x, y, z] {
        assert!(t.get(gone).is_none());
    }
    // numbers handed out before the restore are not reused
    let fresh = t.create(1, "new".to_string(), file()).unwrap();
    assert!(fresh > z);
}

#[test]
fn restore_without_writes_changes_nothing() {
    let mut t = table();
    let a = t.create(1, "a".to_string(), dir()).unwrap();
    let s = t.snapshot();
    t.restore(&s);
    assert_eq!(t.len(), 2);
    assert_eq!(t.lookup(1, "a"), Some(a));
    assert_eq!(children(&t, 1), vec![a]);
}

#[test]
fn rename_onto_itself_and_into_sibling_directory() {
    let mut t = table();
    let a = t.create(1, "a".to_string(), dir()).unwrap();
    let b = t.create(1, "b".to_string(), dir()).unwrap();
    let f = t.create(a, "f".to_string(), file()).unwrap();
    assert_eq!(t.rename(a, "f", a, "f".to_string()), Ok(f));
    assert_eq!(t.rename(1, "a", b, "a2".to_string()), Ok(a));
    assert_eq!(t.get(a).unwrap().parent, b);
    assert_eq!(t.lookup(b, "a2"), Some(a));
    assert_eq!(t.rename(1, "b", a, "x".to_string()), Err(Error::InvalidMove));
}
