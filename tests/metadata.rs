use telegramfs::error::Error;
use telegramfs::inode::{FileType, Inode, InodeAttributes};
use telegramfs::manifest::{ChunkManifest, ChunkRef};
use telegramfs::version::VersionManager;

#[test]
fn test_root_inode() {
    let root = Inode::root(1000, 1000, 0o755);
    assert_eq!(root.ino, 1);
    assert!(root.is_dir());
    assert!(root.children.is_empty());
}

#[test]
fn test_file_inode() {
    let file = Inode::new_file(2, 1, "test.txt".to_string(), 1000, 1000, 0o644);
    assert!(file.is_file());
    assert!(!file.is_dir());
    assert!(file.manifest.is_some());
}

#[test]
fn test_directory_children() {
    let mut dir = Inode::new_directory(2, 1, "subdir".to_string(), 1000, 1000, 0o755);
    assert!(dir.children.is_empty());

    dir.add_child(3);
    dir.add_child(4);
    assert_eq!(dir.children.len(), 2);

    dir.remove_child(3);
    assert_eq!(dir.children.len(), 1);
    assert!(dir.children.contains(&4));
}

#[test]
fn test_symlink() {
    let link = Inode::new_symlink(3, 1, "link".to_string(), "/path/to/target".to_string(), 1000, 1000);
    assert!(link.is_symlink());
    assert_eq!(link.symlink_target, Some("/path/to/target".to_string()));
}

#[test]
fn root_is_its_own_parent_and_attributes_are_fresh() {
    let root = Inode::root(5, 6, 0o700);
    assert_eq!(root.parent, root.ino);
    assert_eq!(root.attrs.nlink, 2);
    assert_eq!(root.attrs.uid, 5);
    assert_eq!(root.attrs.gid, 6);
    assert_eq!(root.attrs.perm, 0o700);
    assert_eq!(root.attrs.blksize, 4096);
    assert_eq!(root.attrs.kind, FileType::Directory);
    let link = Inode::new_symlink(3, 1, "l".to_string(), "/t".to_string(), 0, 0);
    assert_eq!(link.attrs.size, 2);
    assert_eq!(link.attrs.perm, 0o777);
}

#[test]
fn add_child_twice_lists_it_once() {
    let mut dir = Inode::new_directory(2, 1, "d".to_string(), 0, 0, 0o755);
    dir.add_child(9);
    dir.add_child(9);
    assert_eq!(dir.children, vec![9]);
    dir.remove_child(42);
    assert_eq!(dir.children, vec![9]);
}

#[test]
fn set_size_rounds_blocks_up() {
    let mut file = Inode::new_file(2, 1, "f".to_string(), 0, 0, 0o644);
    file.set_size(0);
    assert_eq!(file.attrs.blocks, 0);
    file.set_size(1);
    assert_eq!(file.attrs.blocks, 1);
    file.set_size(512);
    assert_eq!(file.attrs.blocks, 1);
    file.set_size(513);
    assert_eq!(file.attrs.blocks, 2);
    file.set_size(u64::MAX);
    assert_eq!(file.attrs.blocks, u64::MAX / 512 + 1);
    file.bump_version();
    assert_eq!(file.version, 1);
}

#[test]
fn touch_sets_modification_and_change_time_together() {
    let mut attrs = InodeAttributes::new_file(1, 2, 0o600);
    attrs.touch();
    assert_eq!(attrs.mtime, attrs.ctime);
    assert_eq!(attrs.nlink, 1);
}

fn test_manifest(size: u64) -> ChunkManifest {
    ChunkManifest {
        version: 1,
        total_size: size,
        chunks: vec![ChunkRef {
            id: format!("chunk_{}", size),
            size: size,
            message_id: 1,
            offset: 0,
            original_size: size,
            compressed: false,
        }],
        file_hash: "test".to_string(),
    }
}

#[test]
fn test_add_version() {
    let mut manager = VersionManager::new(10);

    let v1 = manager.add_version(1, test_manifest(100), None);
    let v2 = manager.add_version(1, test_manifest(200), Some("update".to_string()));

    assert_eq!(v1, 1);
    assert_eq!(v2, 2);
    assert_eq!(manager.version_count(1), 2);
}

#[test]
fn test_version_limit() {
    let mut manager = VersionManager::new(2);

    manager.add_version(1, test_manifest(100), None);
    manager.add_version(1, test_manifest(200), None);
    manager.add_version(1, test_manifest(300), None);

    assert_eq!(manager.version_count(1), 2);

    let versions = manager.get_versions(1).unwrap();
    assert_eq!(versions[0].version, 2);
    assert_eq!(versions[1].version, 3);
}

#[test]
fn test_get_version() {
    let mut manager = VersionManager::new(10);

    manager.add_version(1, test_manifest(100), None);
    manager.add_version(1, test_manifest(200), None);

    let v1 = manager.get_version(1, 1).unwrap();
    assert_eq!(v1.size, 100);

    let v2 = manager.get_version(1, 2).unwrap();
    assert_eq!(v2.size, 200);

    assert!(manager.get_version(1, 99).is_err());
}

#[test]
fn test_get_latest() {
    let mut manager = VersionManager::new(10);

    manager.add_version(1, test_manifest(100), None);
    manager.add_version(1, test_manifest(200), None);

    let latest = manager.get_latest(1).unwrap();
    assert_eq!(latest.version, 2);
    assert_eq!(latest.size, 200);
}

#[test]
fn test_delete_versions() {
    let mut manager = VersionManager::new(10);

    manager.add_version(1, test_manifest(100), None);
    manager.add_version(1, test_manifest(200), None);

    manager.delete_versions(1);

    assert_eq!(manager.version_count(1), 0);
    assert!(manager.get_latest(1).is_none());
}

#[test]
fn version_eviction_keeps_newest_two_of_four() {
    let mut manager = VersionManager::new(2);
    for size in [100u64, 200, 300, 400] {
        manager.add_version(7, test_manifest(size), None);
    }
    let versions = manager.get_versions(7).unwrap();
    assert_eq!(versions.len(), 2);
    assert_eq!(versions[0].version, 3);
    assert_eq!(versions[1].version, 4);
    assert_eq!(versions[1].size, 400);
    // versions 1 and 2 were evicted; only they named these chunks
    let orphans = manager.get_orphaned_chunks(7, &test_manifest(400));
    assert_eq!(orphans, vec!["chunk_100".to_string(), "chunk_200".to_string()]);
    // a chunk still named by the current manifest is not collected
    assert_eq!(manager.get_orphaned_chunks(7, &test_manifest(100)), vec!["chunk_200".to_string()]);
}

#[test]
fn version_lookup_errors() {
    let mut manager = VersionManager::new(0);
    assert_eq!(manager.get_version(5, 1).err(), Some(Error::InodeNotFound(5)));
    manager.add_version(5, test_manifest(1), None);
    assert_eq!(manager.get_version(5, 2).err(), Some(Error::VersionNotFound(2)));
    assert!(manager.get_versions(6).is_none());
}

#[test]
fn no_eviction_means_no_orphans() {
    let mut manager = VersionManager::new(10);
    manager.add_version(1, test_manifest(100), None);
    manager.add_version(1, test_manifest(200), None);
    assert!(manager.get_orphaned_chunks(1, &test_manifest(300)).is_empty());
}

#[test]
fn unlimited_versions_keep_everything() {
    let mut manager = VersionManager::new(0);
    for size in 1..=5u64 {
        manager.add_version(1, test_manifest(size), None);
    }
    assert_eq!(manager.version_count(1), 5);
}

#[test]
fn manifest_lookup_by_offset() {
    let mut m = ChunkManifest::new(3);
    assert_eq!(m.chunk_count(), 0);
    assert!(m.chunk_at_offset(0).is_none());
    for (i, len) in [10u64, 20, 5].iter().enumerate() {
        m.chunks.push(ChunkRef {
            id: format!("c{}", i),
            size: len + 1,
            message_id: i as i32,
            offset: 0,
            original_size: *len,
            compressed: false,
        });
    }
    assert_eq!(m.chunk_count(), 3);
    assert_eq!(m.stored_size(), 38);
    assert_eq!(m.chunk_at_offset(0).unwrap().0, 0);
    assert_eq!(m.chunk_at_offset(9).unwrap().0, 0);
    assert_eq!(m.chunk_at_offset(10).unwrap().0, 1);
    assert_eq!(m.chunk_at_offset(34).unwrap().1.id, "c2");
    assert!(m.chunk_at_offset(35).is_none());
}

#[test]
fn new_file_manifest_carries_hash_of_empty_content() {
    let f = Inode::new_file(2, 1, "e".to_string(), 0, 0, 0o644);
    let m = f.manifest.unwrap();
    assert_eq!(m.file_hash, "af1349b9f5f9a1a6a0404dea36dcc9499bcb25c9adc112b7cc9a93cae41f3262");
    assert_eq!(m.total_size, 0);
}

#[test]
fn version_snapshot_restores_histories() {
    let mut manager = VersionManager::new(3);
    manager.add_version(1, test_manifest(100), None);
    let snap = manager.snapshot();
    manager.add_version(1, test_manifest(200), None);
    manager.add_version(2, test_manifest(300), None);
    manager.restore(&snap);
    assert_eq!(manager.version_count(1), 1);
    assert_eq!(manager.version_count(2), 0);
    assert_eq!(manager.get_latest(1).unwrap().size, 100);
}
