//! Settings that the core reads.

use vstd::prelude::*;

verus! {

/// Chunking settings.
pub struct ChunkConfig {
    /// Bytes per chunk.
    pub chunk_size: usize,
    /// Whether chunks are compressed.
    pub compression_enabled: bool,
    /// Smallest chunk for which compression is tried.
    pub compression_threshold: usize,
    /// Whether already stored chunks are skipped.
    pub dedup_enabled: bool,
}

/// Which cached chunk leaves first when the cache is full.
#[derive(Clone, Copy, Debug, PartialEq, Eq, Structural)]
pub enum EvictionPolicy {
    /// Least recently used.
    Lru,
    /// Least frequently used; the oldest among equals.
    Lfu,
    /// First in, first out.
    Fifo,
}

/// Chunk cache settings.
pub struct CacheConfig {
    /// Most plaintext bytes held.
    pub max_size: u64,
    /// Directory of the cached chunks.
    pub cache_dir: String,
    pub prefetch_enabled: bool,
    pub prefetch_count: usize,
    pub eviction_policy: EvictionPolicy,
}

/// Remote backend settings.
pub struct TelegramConfig {
    pub api_id: i32,
    pub api_hash: String,
    pub phone: Option<String>,
    pub session_file: String,
    pub max_concurrent_uploads: usize,
    pub max_concurrent_downloads: usize,
    pub retry_attempts: u32,
    pub retry_base_delay_ms: u64,
}

/// Key derivation settings.
pub struct EncryptionConfig {
    /// Memory cost in KiB.
    pub argon2_memory_kib: u32,
    /// Time cost (iterations).
    pub argon2_iterations: u32,
    pub argon2_parallelism: u32,
    /// Salt of the master key; empty until first use.
    pub salt: Vec<u8>,
}

/// Mount settings.
pub struct MountConfig {
    pub mount_point: String,
    pub allow_other: bool,
    pub allow_root: bool,
    pub default_file_mode: u32,
    pub default_dir_mode: u32,
    pub uid: u32,
    pub gid: u32,
}

/// Version and snapshot settings.
pub struct VersioningConfig {
    pub enabled: bool,
    /// Versions kept per file (0: no cap).
    pub max_versions: usize,
    pub auto_snapshot: bool,
    pub snapshot_interval_secs: u64,
    pub max_snapshots: usize,
}

/// Bytes per chunk unless configured otherwise: 50 MiB.
pub const DEFAULT_CHUNK_SIZE: usize = 52428800;

/// Cache bound unless configured otherwise: 1 GiB.
pub const DEFAULT_CACHE_SIZE: u64 = 1073741824;

/// Chunks fetched ahead unless configured otherwise.
pub const DEFAULT_PREFETCH_COUNT: usize = 3;

/// Largest chunk the backend takes: 2 GiB.
pub const MAX_CHUNK_SIZE: usize = 2147483648;

/// What is wrong with a configuration.
#[derive(Clone, Copy, Debug, PartialEq, Eq, Structural)]
pub enum ConfigProblem {
    MissingApiId,
    MissingApiHash,
    ZeroChunkSize,
    ChunkTooLarge,
}

/// All settings.
pub struct Config {
    pub telegram: TelegramConfig,
    pub encryption: EncryptionConfig,
    pub cache: CacheConfig,
    pub chunk: ChunkConfig,
    pub mount: MountConfig,
    pub versioning: VersioningConfig,
    pub data_dir: String,
}

impl Config {
    /// The first problem of the settings, in the order the checks run.
    pub open spec fn problem(&self) -> Option<ConfigProblem> {
        if self.telegram.api_id == 0 {
            Some(ConfigProblem::MissingApiId)
        } else if self.telegram.api_hash@.len() == 0 {
            Some(ConfigProblem::MissingApiHash)
        } else if self.chunk.chunk_size == 0 {
            Some(ConfigProblem::ZeroChunkSize)
        } else if self.chunk.chunk_size > MAX_CHUNK_SIZE {
            Some(ConfigProblem::ChunkTooLarge)
        } else {
            None
        }
    }

    /// The default settings, with the data and cache directories and the
    /// owner of mounted files given.
    pub fn with_defaults(data_dir: String, cache_dir: String, uid: u32, gid: u32) -> (r: Self)
        ensures
            r.data_dir == data_dir,
            r.cache.cache_dir == cache_dir,
            r.telegram.api_id == 0,
            r.telegram.api_hash@.len() == 0,
            r.telegram.retry_attempts == 3,
            r.telegram.retry_base_delay_ms == 1000,
            r.encryption.argon2_memory_kib == 65536,
            r.encryption.argon2_iterations == 3,
            r.encryption.argon2_parallelism == 4,
            r.encryption.salt@.len() == 0,
            r.cache.max_size == DEFAULT_CACHE_SIZE,
            r.cache.eviction_policy == EvictionPolicy::Lru,
            r.cache.prefetch_enabled,
            r.cache.prefetch_count == DEFAULT_PREFETCH_COUNT,
            r.chunk.chunk_size == DEFAULT_CHUNK_SIZE,
            r.chunk.compression_enabled,
            r.chunk.compression_threshold == 1024,
            r.chunk.dedup_enabled,
            r.mount.default_file_mode == 0o644,
            r.mount.default_dir_mode == 0o755,
            r.mount.uid == uid,
            r.mount.gid == gid,
            !r.mount.allow_other && !r.mount.allow_root,
            r.versioning.enabled,
            r.versioning.max_versions == 10,
            !r.versioning.auto_snapshot,
            r.versioning.max_snapshots == 5,
    {
        Config {
            telegram: TelegramConfig {
                api_id: 0,
                api_hash: String::new(),
                phone: None,
                session_file: String::new(),
                max_concurrent_uploads: 3,
                max_concurrent_downloads: 5,
                retry_attempts: 3,
                retry_base_delay_ms: 1000,
            },
            encryption: EncryptionConfig { argon2_memory_kib: 65536, argon2_iterations: 3, argon2_parallelism: 4, salt: Vec::new() },
            cache: CacheConfig {
                max_size: DEFAULT_CACHE_SIZE,
                cache_dir,
                prefetch_enabled: true,
                prefetch_count: DEFAULT_PREFETCH_COUNT,
                eviction_policy: EvictionPolicy::Lru,
            },
            chunk: ChunkConfig {
                chunk_size: DEFAULT_CHUNK_SIZE,
                compression_enabled: true,
                compression_threshold: 1024,
                dedup_enabled: true,
            },
            mount: MountConfig {
                mount_point: String::new(),
                allow_other: false,
                allow_root: false,
                default_file_mode: 0o644,
                default_dir_mode: 0o755,
                uid,
                gid,
            },
            versioning: VersioningConfig {
                enabled: true,
                max_versions: 10,
                auto_snapshot: false,
                snapshot_interval_secs: 0,
                max_snapshots: 5,
            },
            data_dir,
        }
    }

    /// Checks the settings: credentials present, chunk size within the
    /// backend's limit.
    pub fn validate(&self) -> (r: Result<(), ConfigProblem>)
        ensures
            r.is_ok() <==> self.problem().is_none(),
            r.is_err() ==> r == Err::<(), ConfigProblem>(self.problem().unwrap()),
    {
        if self.telegram.api_id == 0 {
            return Err(ConfigProblem::MissingApiId);
        }
        if self.telegram.api_hash.as_str().is_empty() {
            return Err(ConfigProblem::MissingApiHash);
        }
        if self.chunk.chunk_size == 0 {
            return Err(ConfigProblem::ZeroChunkSize);
        }
        if self.chunk.chunk_size > MAX_CHUNK_SIZE {
            return Err(ConfigProblem::ChunkTooLarge);
        }
        Ok(())
    }

    /// Settings built from the environment must carry the credentials.
    pub fn require_credentials(self) -> (r: Result<Self, ConfigProblem>)
        ensures
            self.telegram.api_id == 0 ==> r == Err::<Self, ConfigProblem>(ConfigProblem::MissingApiId),
            self.telegram.api_id != 0 && self.telegram.api_hash@.len() == 0
                ==> r == Err::<Self, ConfigProblem>(ConfigProblem::MissingApiHash),
            self.telegram.api_id != 0 && self.telegram.api_hash@.len() > 0 ==> r == Ok::<Self, ConfigProblem>(self),
    {
        if self.telegram.api_id == 0 {
            return Err(ConfigProblem::MissingApiId);
        }
        if self.telegram.api_hash.as_str().is_empty() {
            return Err(ConfigProblem::MissingApiHash);
        }
        Ok(self)
    }
}

} // verus!
