use telegramfs::error::Error;
use telegramfs::migrate::{check_uploaded, record_entry};
use telegramfs::manifest::{ChunkManifest, ChunkRef};
use telegramfs::migrate::{dry_run_manifest, verify_migration};
use telegramfs::stripe::StripeManager;
use telegramfs::migrate::{
    classify_hkdf, migration_action, ChunkMigrationState, FileMigrationProgress, HkdfVersion, MigrationConfig,
    MigrationProgress, MigrationState, MigrationStats,
};

#[test]
fn test_file_migration_progress() {
    let progress = FileMigrationProgress::new(42, "/test/file.txt".to_string(), 5);

    assert_eq!(progress.inode, 42);
    assert_eq!(progress.path, "/test/file.txt");
    assert_eq!(progress.total_chunks, 5);
    assert_eq!(progress.completed_chunks, 0);
    assert!(!progress.is_complete());
    assert_eq!(progress.progress_percent() as f32, 0.0);
}

#[test]
fn test_file_migration_progress_complete() {
    let mut progress = FileMigrationProgress::new(42, "/test/file.txt".to_string(), 5);
    progress.completed_chunks = 5;

    assert!(progress.is_complete());
    assert_eq!(progress.progress_percent() as f32, 100.0);
}

#[test]
fn test_file_migration_progress_empty() {
    let progress = FileMigrationProgress::new(42, "/test/empty.txt".to_string(), 0);

    assert!(progress.is_complete());
    assert_eq!(progress.progress_percent() as f32, 100.0);
}

#[test]
fn test_migration_state_default() {
    let state = MigrationState::default();

    assert!(state.completed_inodes.is_empty());
    assert!(state.in_progress.is_empty());
}

#[test]
fn test_migration_state_mark_migrated() {
    let mut state = MigrationState::default();

    assert!(!state.is_migrated(42));
    state.mark_migrated(42);
    assert!(state.is_migrated(42));
}

#[test]
fn test_migration_config_default() {
    let config = MigrationConfig::default();

    assert!(!config.dry_run);
    assert!(!config.delete_old_messages);
    assert!(config.continue_on_error);
    assert!(!config.verify_after_migration);
    assert_eq!(config.max_concurrent, 4);
}

#[test]
fn test_chunk_migration_state() {
    let pending = ChunkMigrationState::Pending;
    let completed = ChunkMigrationState::Completed;
    let failed = ChunkMigrationState::Failed("test error".to_string());

    assert_ne!(pending, completed);
    assert_ne!(pending, failed);
    assert_eq!(ChunkMigrationState::Pending, ChunkMigrationState::Pending);
}

#[test]
fn test_migration_progress_default() {
    let progress = MigrationProgress::default();

    assert_eq!(progress.total_files, 0);
    assert_eq!(progress.completed_files, 0);
    assert_eq!(progress.total_chunks, 0);
    assert_eq!(progress.completed_chunks, 0);
    assert_eq!(progress.bytes_processed, 0);
}

#[test]
fn progress_entries_are_created_once_and_dropped_when_migrated() {
    let mut state = MigrationState::default();
    state.get_or_create_progress(3, "/a".to_string(), 10).completed_chunks = 4;
    let again = state.get_or_create_progress(3, "/a".to_string(), 10);
    assert_eq!(again.completed_chunks, 4);
    assert_eq!(again.chunk_states.len(), 10);
    state.get_or_create_progress(4, "/b".to_string(), 1);
    assert_eq!(state.in_progress.len(), 2);
    state.mark_migrated(3);
    assert_eq!(state.in_progress.len(), 1);
    assert_eq!(state.in_progress[0].inode, 4);
    assert!(state.is_migrated(3));
    assert!(!state.is_migrated(4));
}

#[test]
fn stats_merge_adds_counters() {
    let mut a = MigrationStats { entries_migrated: 1, entries_failed: 2, chunks_migrated: 3, chunks_failed: 4, bytes_processed: 5 };
    let b = MigrationStats { entries_migrated: 10, entries_failed: 20, chunks_migrated: 30, chunks_failed: 40, bytes_processed: 50 };
    a.merge(&b);
    assert_eq!(a.entries_migrated, 11);
    assert_eq!(a.entries_failed, 22);
    assert_eq!(a.chunks_migrated, 33);
    assert_eq!(a.chunks_failed, 44);
    assert_eq!(a.bytes_processed, 55);
}

#[test]
fn key_purpose_migration_reads_old_blobs_and_reseals_them() {
    // sealed under the old purpose: the new subkey fails, the old one opens it
    let v = classify_hkdf(true, false, true);
    assert_eq!(v, HkdfVersion::Old);
    assert_eq!(migration_action(v), (true, true));
    // after the rewrite the new subkey opens it, and the old one is not needed
    let v = classify_hkdf(true, true, false);
    assert_eq!(v, HkdfVersion::New);
    assert_eq!(migration_action(v), (true, false));
    // neither key: surfaced as a decryption failure, not retried
    let v = classify_hkdf(true, false, false);
    assert_eq!(v, HkdfVersion::Unknown);
    assert_eq!(migration_action(v), (false, false));
    assert_eq!(classify_hkdf(false, true, true), HkdfVersion::Unknown);
}

#[test]
fn dry_run_lays_out_stripes_without_uploading() {
    let stripes = StripeManager::new(2, 3, 3).unwrap();
    let mut m = ChunkManifest::new(4);
    m.total_size = 7;
    m.file_hash = "h".to_string();
    for (i, len) in [4u64, 3].iter().enumerate() {
        m.chunks.push(ChunkRef { id: format!("c{}", i), size: *len, message_id: 9, offset: 4 * i as u64, original_size: *len, compressed: false });
    }
    let planned = dry_run_manifest(&stripes, &m);
    assert_eq!(planned.chunks.len(), 2);
    assert_eq!(planned.chunks[1].id, "c1");
    assert_eq!(planned.chunks[1].offset, 4);
    assert_eq!((planned.data_count, planned.total_count), (2, 3));
    for c in &planned.chunks {
        assert_eq!(c.stripe.blocks.len(), 3);
        assert!(c.stripe.blocks.iter().all(|b| b.message_id.is_none()));
    }
    // nothing was uploaded, so the plan cannot pass as a finished migration
    assert!(verify_migration(&m, &planned).is_err());
}

#[test]
fn stripe_with_fewer_than_k_uploads_fails_the_write() {
    let stripes = StripeManager::new(3, 5, 5).unwrap();
    let stripe = stripes.create_stripe("c".to_string(), b"data", 0).unwrap();
    assert!(check_uploaded(&stripes.to_stripe_info(&stripe, &[(0, 1), (1, 2), (4, 3)])).is_ok());
    assert_eq!(
        check_uploaded(&stripes.to_stripe_info(&stripe, &[(0, 1), (4, 3)])),
        Err(Error::StripeUnrecoverable { available: 2, required: 3 })
    );
}

#[test]
fn entry_counts_fold_into_stats() {
    let mut s = MigrationStats { entries_migrated: 0, entries_failed: 0, chunks_migrated: 0, chunks_failed: 0, bytes_processed: 0 };
    record_entry(&mut s, true, 10);
    record_entry(&mut s, false, 99);
    record_entry(&mut s, true, 5);
    assert_eq!((s.entries_migrated, s.entries_failed, s.bytes_processed), (2, 1, 15));
}
