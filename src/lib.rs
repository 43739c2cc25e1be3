//! Encrypted, content-addressed, deduplicating storage engine: the verified core.
//!
//! Chunking, compression and deduplication with reference counts; erasure
//! coding and the placement of a stripe's blocks on distinct accounts;
//! rebuild and scrub decisions with account health; the inode tree with
//! snapshots, per-file version history and open-file handles; the bounded
//! chunk cache with one fetch per chunk; master key derivation; settings.

pub mod backoff;
pub mod bytes;
pub mod cache;
pub mod chunk;
pub mod clock;
pub mod compression;
pub mod config;
pub mod crypto;
pub mod erasure;
pub mod error;
pub mod flush;
pub mod handle;
pub mod health;
pub mod inode;
pub mod kdf;
pub mod lru;
pub mod manifest;
pub mod migrate;
pub mod pipeline;
pub mod rebuild;
pub mod refcount;
pub mod stripe;
pub mod sync;
pub mod tree;
pub mod version;
