use telegramfs::chunk::Chunker;
use telegramfs::config::{
    CacheConfig, ChunkConfig, Config, ConfigProblem, EncryptionConfig, EvictionPolicy, MountConfig, TelegramConfig,
    VersioningConfig,
};

fn config(api_id: i32, api_hash: &str, chunk_size: usize) -> Config {
    Config {
        telegram: TelegramConfig {
            api_id,
            api_hash: api_hash.to_string(),
            phone: None,
            session_file: "telegramfs.session".to_string(),
            max_concurrent_uploads: 3,
            max_concurrent_downloads: 5,
            retry_attempts: 3,
            retry_base_delay_ms: 1000,
        },
        encryption: EncryptionConfig { argon2_memory_kib: 65536, argon2_iterations: 3, argon2_parallelism: 4, salt: Vec::new() },
        cache: CacheConfig {
            max_size: 1 << 30,
            cache_dir: "cache".to_string(),
            prefetch_enabled: true,
            prefetch_count: 2,
            eviction_policy: EvictionPolicy::Lru,
        },
        chunk: ChunkConfig { chunk_size, compression_enabled: true, compression_threshold: 1024, dedup_enabled: true },
        mount: MountConfig {
            mount_point: "/mnt/telegramfs".to_string(),
            allow_other: false,
            allow_root: false,
            default_file_mode: 0o644,
            default_dir_mode: 0o755,
            uid: 0,
            gid: 0,
        },
        versioning: VersioningConfig { enabled: true, max_versions: 10, auto_snapshot: false, snapshot_interval_secs: 0, max_snapshots: 5 },
        data_dir: ".".to_string(),
    }
}

#[test]
fn validate_reports_first_problem() {
    assert_eq!(config(1, "h", 1024).validate(), Ok(()));
    assert_eq!(config(0, "h", 1024).validate(), Err(ConfigProblem::MissingApiId));
    assert_eq!(config(1, "", 1024).validate(), Err(ConfigProblem::MissingApiHash));
    assert_eq!(config(1, "h", 0).validate(), Err(ConfigProblem::ZeroChunkSize));
    assert_eq!(config(1, "h", 2 * 1024 * 1024 * 1024).validate(), Ok(()));
    assert_eq!(config(1, "h", 2 * 1024 * 1024 * 1024 + 1).validate(), Err(ConfigProblem::ChunkTooLarge));
}

#[test]
fn credentials_are_required_from_the_environment() {
    assert!(config(1, "h", 1).require_credentials().is_ok());
    assert_eq!(config(0, "h", 1).require_credentials().err(), Some(ConfigProblem::MissingApiId));
    assert_eq!(config(5, "", 1).require_credentials().err(), Some(ConfigProblem::MissingApiHash));
}

#[test]
fn planned_manifest_covers_the_file() {
    let chunker = Chunker::with_size(4);
    let data = b"abcdefghij".to_vec();
    let (m, chunks) = chunker.plan_manifest(3, &data);
    assert_eq!(m.version, 3);
    assert_eq!(m.total_size, 10);
    assert_eq!(m.chunk_count(), 3);
    assert_eq!(m.file_hash, chunker.file_hash(&data));
    let sizes: Vec<u64> = m.chunks.iter().map(|c| c.original_size).collect();
    assert_eq!(sizes, vec![4, 4, 2]);
    let offsets: Vec<u64> = m.chunks.iter().map(|c| c.offset).collect();
    assert_eq!(offsets, vec![0, 4, 8]);
    for (r, c) in m.chunks.iter().zip(chunks.iter()) {
        assert_eq!(r.id, c.info.id);
    }
    assert_eq!(m.file_hash, chunker.file_hash(&chunker.reassemble(&chunks)));
}

#[test]
fn empty_file_manifest_has_no_chunks_and_hash_of_nothing() {
    let chunker = Chunker::with_size(4);
    let (m, chunks) = chunker.plan_manifest(1, &[]);
    assert!(chunks.is_empty());
    assert_eq!(m.chunk_count(), 0);
    assert_eq!(m.total_size, 0);
    assert_eq!(m.file_hash, chunker.file_hash(&[]));
    assert_eq!(m.file_hash, "af1349b9f5f9a1a6a0404dea36dcc9499bcb25c9adc112b7cc9a93cae41f3262");
}

#[test]
fn defaults_are_fifty_mib_chunks_and_lru() {
    let c = Config::with_defaults("/data".to_string(), "/data/cache".to_string(), 7, 8);
    assert_eq!(c.chunk.chunk_size, 50 * 1024 * 1024);
    assert_eq!(c.cache.eviction_policy, EvictionPolicy::Lru);
    assert_eq!(c.cache.max_size, 1024 * 1024 * 1024);
    assert_eq!(c.versioning.max_versions, 10);
    assert_eq!((c.mount.uid, c.mount.gid), (7, 8));
    assert_eq!(c.validate(), Err(ConfigProblem::MissingApiId));
}
