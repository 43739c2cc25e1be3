use telegramfs::handle::{FileHandle, HandleManager, O_APPEND, O_RDONLY, O_RDWR, O_WRONLY};

#[test]
fn test_file_handle_flags() {
    let read_handle = FileHandle::new(1, libc::O_RDONLY);
    assert!(read_handle.is_readable());
    assert!(!read_handle.is_writable());

    let write_handle = FileHandle::new(1, libc::O_WRONLY);
    assert!(!write_handle.is_readable());
    assert!(write_handle.is_writable());

    let rw_handle = FileHandle::new(1, libc::O_RDWR);
    assert!(rw_handle.is_readable());
    assert!(rw_handle.is_writable());
}

#[test]
fn test_handle_manager() {
    let mut manager = HandleManager::new();

    let fh1 = manager.open(1, libc::O_RDONLY);
    let fh2 = manager.open(2, libc::O_RDWR);

    assert!(manager.is_valid(fh1));
    assert!(manager.is_valid(fh2));
    assert!(!manager.is_valid(999));

    manager.close(fh1);
    assert!(!manager.is_valid(fh1));
    assert!(manager.is_valid(fh2));
}

#[test]
fn test_write_buffer() {
    let mut handle = FileHandle::new(1, libc::O_WRONLY);

    assert!(!handle.is_dirty());

    handle.write(b"hello ");
    handle.write(b"world");

    assert!(handle.is_dirty());
    assert_eq!(handle.get_write_buffer(), b"hello world");

    handle.clear_write_buffer();
    handle.clear_dirty();

    assert!(!handle.is_dirty());
    assert!(handle.get_write_buffer().is_empty());
}

#[test]
fn flag_constants_match_the_platform() {
    assert_eq!(O_RDONLY, libc::O_RDONLY);
    assert_eq!(O_WRONLY, libc::O_WRONLY);
    assert_eq!(O_RDWR, libc::O_RDWR);
    assert_eq!(O_APPEND, libc::O_APPEND);
    assert!(FileHandle::new(1, libc::O_WRONLY | libc::O_APPEND).is_append());
    assert!(!FileHandle::new(1, libc::O_WRONLY).is_append());
}

#[test]
fn flush_twice_hands_over_the_bytes_once() {
    let mut handle = FileHandle::new(3, libc::O_RDWR);
    assert_eq!(handle.take_for_flush(), None);
    handle.write(b"abc");
    assert_eq!(handle.take_for_flush(), Some(b"abc".to_vec()));
    assert_eq!(handle.take_for_flush(), None);
    assert!(!handle.is_dirty());
    assert!(handle.get_write_buffer().is_empty());
}

#[test]
fn handles_are_numbered_from_one_and_listed_per_inode() {
    let mut manager = HandleManager::new();
    let a = manager.open(7, libc::O_RDONLY);
    let b = manager.open(8, libc::O_RDONLY);
    let c = manager.open(7, libc::O_RDWR);
    assert_eq!((a, b, c), (1, 2, 3));
    assert_eq!(manager.handles_for_ino(7), vec![1, 3]);
    assert_eq!(manager.get(c).unwrap().ino, 7);
    let closed = manager.close(a).unwrap();
    assert_eq!(closed.ino, 7);
    assert!(manager.close(a).is_none());
    assert_eq!(manager.handles_for_ino(7), vec![3]);
    assert!(manager.get(a).is_none());
}
