//! Error kinds of the core.

use vstd::prelude::*;

verus! {

/// What went wrong.
#[derive(Debug, PartialEq, Eq)]
pub enum Error {
    /// The key derivation parameters are out of range, or deriving failed.
    KeyDerivation,
    /// A chunk's plaintext does not hash to its id.
    ChunkHashMismatch,
    /// A sealed blob did not open: wrong key, or altered bytes.
    Decryption,
    /// A given salt is shorter than the salt size.
    SaltTooShort { len: usize, needed: usize },
    /// A setting is out of range.
    Config,
    /// Erasure parameters are not `1 <= K < N <= 255`.
    InvalidShardConfig { data_shards: usize, total_shards: usize },
    /// Fewer accounts than blocks per stripe.
    NotEnoughAccounts { accounts: usize, total_shards: usize },
    /// A block index beyond the stripe.
    BlockIndexOutOfRange { index: usize, total_shards: usize },
    /// Too few blocks to rebuild a stripe.
    StripeUnrecoverable { available: usize, required: usize },
    /// A call to a remote account failed.
    Remote,
    /// The stripe keeps no block on the account.
    NoBlockOnAccount(u8),
    /// A rebuild left stripes it could not restore.
    RebuildFailed { account: u8, failed: usize },
    /// A migrated manifest does not match its original.
    MigrationMismatch,
    /// Blocks of a stripe disagree in size or framing.
    CorruptStripe,
    /// Stored bytes could not be decompressed.
    Decompression,
    /// The inode is not a directory.
    NotADirectory(u64),
    /// The directory already has an entry of that name.
    AlreadyExists,
    /// The directory still has entries.
    NotEmpty(u64),
    /// A directory would move into itself or below itself.
    InvalidMove,
    /// No such inode.
    InodeNotFound(u64),
    /// No such version of the file.
    VersionNotFound(u64),
}

} // verus!
