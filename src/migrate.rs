//! Bookkeeping of migrations: single-account files to erasure-coded
//! stripes, and blobs from the old key-purpose scheme to the new one.

use vstd::prelude::*;
use std::collections::HashSet;
use crate::clock::now_unix_secs;
use crate::stripe::StripeManager;
use crate::error::Error;
use crate::manifest::{uploaded_count, ChunkManifest, ChunkRef, ErasureChunkManifest, ErasureChunkRef, StripeInfo};

verus! {

broadcast use vstd::std_specs::hash::group_hash_axioms;

/// State of one chunk's migration.
#[derive(Debug, PartialEq, Eq)]
pub enum ChunkMigrationState {
    Pending,
    InProgress,
    Completed,
    Failed(String),
    Skipped,
}

/// Migration progress of one file.
pub struct FileMigrationProgress {
    pub inode: u64,
    pub path: String,
    pub total_chunks: usize,
    pub completed_chunks: usize,
    pub chunk_states: Vec<ChunkMigrationState>,
    /// Start time in seconds since the Unix epoch.
    pub started_at: i64,
    pub completed_at: Option<i64>,
}

impl FileMigrationProgress {
    /// A file of `total_chunks` chunks, none migrated yet.
    pub fn new(inode: u64, path: String, total_chunks: usize) -> (r: Self)
        ensures
            r.inode == inode,
            r.path == path,
            r.total_chunks == total_chunks,
            r.completed_chunks == 0,
            r.chunk_states@.len() == total_chunks,
            forall|i: int| 0 <= i < total_chunks ==> (#[trigger] r.chunk_states@[i]) == ChunkMigrationState::Pending,
            r.completed_at.is_none(),
    {
        let mut chunk_states: Vec<ChunkMigrationState> = Vec::new();
        let mut i: usize = 0;
        while i < total_chunks
            invariant
                i <= total_chunks,
                chunk_states@.len() == i,
                forall|j: int| 0 <= j < i ==> (#[trigger] chunk_states@[j]) == ChunkMigrationState::Pending,
            decreases total_chunks - i,
        {
            chunk_states.push(ChunkMigrationState::Pending);
            i = i + 1;
        }
        FileMigrationProgress {
            inode,
            path,
            total_chunks,
            completed_chunks: 0,
            chunk_states,
            started_at: now_unix_secs(),
            completed_at: None,
        }
    }

    /// Whether every chunk is migrated.
    pub fn is_complete(&self) -> (r: bool)
        ensures
            r == (self.completed_chunks == self.total_chunks),
    {
        self.completed_chunks == self.total_chunks
    }

    /// Progress in whole percent; 100 for a file without chunks.
    pub fn progress_percent(&self) -> (r: u8)
        ensures
            r == crate::rebuild::percent(self.completed_chunks as int, self.total_chunks as int),
    {
        let mut p = crate::rebuild::RebuildProgress::new(None, self.total_chunks);
        p.processed_stripes = self.completed_chunks;
        p.progress_percent()
    }
}

/// Totals of a migration run.
pub struct MigrationProgress {
    pub total_files: usize,
    pub completed_files: usize,
    pub in_progress_files: usize,
    pub failed_files: usize,
    pub total_chunks: usize,
    pub completed_chunks: usize,
    pub bytes_processed: u64,
    pub started_at: i64,
    pub estimated_completion: Option<i64>,
}

impl Default for MigrationProgress {
    fn default() -> (r: Self)
        ensures
            r.total_files == 0 && r.completed_files == 0 && r.in_progress_files == 0 && r.failed_files == 0,
            r.total_chunks == 0 && r.completed_chunks == 0 && r.bytes_processed == 0,
            r.estimated_completion.is_none(),
    {
        MigrationProgress {
            total_files: 0,
            completed_files: 0,
            in_progress_files: 0,
            failed_files: 0,
            total_chunks: 0,
            completed_chunks: 0,
            bytes_processed: 0,
            started_at: now_unix_secs(),
            estimated_completion: None,
        }
    }
}

/// Settings of a migration run.
pub struct MigrationConfig {
    pub dry_run: bool,
    pub delete_old_messages: bool,
    pub max_concurrent: usize,
    pub continue_on_error: bool,
    pub verify_after_migration: bool,
}

impl Default for MigrationConfig {
    fn default() -> (r: Self)
        ensures
            !r.dry_run,
            !r.delete_old_messages,
            r.max_concurrent == 4,
            r.continue_on_error,
            !r.verify_after_migration,
    {
        MigrationConfig {
            dry_run: false,
            delete_old_messages: false,
            max_concurrent: 4,
            continue_on_error: true,
            verify_after_migration: false,
        }
    }
}

/// Which files are migrated and which are under way.
pub struct MigrationState {
    /// Files fully migrated.
    pub completed_inodes: HashSet<u64>,
    /// Files under way.
    pub in_progress: Vec<FileMigrationProgress>,
    pub started_at: i64,
    pub updated_at: i64,
}

impl Default for MigrationState {
    fn default() -> (r: Self)
        ensures
            r.completed_inodes@ == Set::<u64>::empty(),
            r.in_progress@.len() == 0,
    {
        MigrationState {
            completed_inodes: HashSet::new(),
            in_progress: Vec::new(),
            started_at: now_unix_secs(),
            updated_at: now_unix_secs(),
        }
    }
}

impl MigrationState {
    /// Whether `inode` is fully migrated.
    pub fn is_migrated(&self, inode: u64) -> (r: bool)
        ensures
            r == self.completed_inodes@.contains(inode),
    {
        self.completed_inodes.contains(&inode)
    }

    /// Records `inode` as migrated and drops its progress entries.
    pub fn mark_migrated(&mut self, inode: u64)
        ensures
            final(self).completed_inodes@ == old(self).completed_inodes@.insert(inode),
            final(self).in_progress@ == old(self).in_progress@.filter(|p: FileMigrationProgress| p.inode != inode),
            final(self).started_at == old(self).started_at,
    {
        self.completed_inodes.insert(inode);
        let ghost f = |p: FileMigrationProgress| p.inode != inode;
        let ghost all = self.in_progress@;
        let mut rest: Vec<FileMigrationProgress> = Vec::new();
        std::mem::swap(&mut rest, &mut self.in_progress);
        assert(rest@ == all);
        let mut kept: Vec<FileMigrationProgress> = Vec::new();
        let mut i: usize = 0;
        let n = rest.len();
        while rest.len() > 0
            invariant
                f == (|p: FileMigrationProgress| p.inode != inode),
                n == all.len(),
                i + rest@.len() == n,
                rest@ == all.subrange(i as int, n as int),
                kept@ == all.subrange(0, i as int).filter(f),
            decreases rest@.len(),
        {
            proof {
                reveal(Seq::filter);
                assert(all.subrange(0, i as int + 1).drop_last() =~= all.subrange(0, i as int));
            }
            let p = rest.remove(0);
            assert(p == all[i as int]);
            if p.inode != inode {
                kept.push(p);
            }
            i = i + 1;
            assert(rest@ =~= all.subrange(i as int, n as int));
        }
        assert(all.subrange(0, n as int) =~= all);
        self.in_progress = kept;
        self.updated_at = now_unix_secs();
    }

    /// The progress entry of `inode`, created for `total_chunks` chunks when
    /// there is none.
    pub fn get_or_create_progress(&mut self, inode: u64, path: String, total_chunks: usize) -> (r: &mut FileMigrationProgress)
        ensures
            r.inode == inode,
            (exists|i: int| 0 <= i < old(self).in_progress@.len() && (#[trigger] old(self).in_progress@[i]).inode == inode)
                ==> final(self).in_progress@.len() == old(self).in_progress@.len()
                && exists|i: int| 0 <= i < old(self).in_progress@.len() && *r == #[trigger] old(self).in_progress@[i]
                    && old(self).in_progress@[i].inode == inode
                    && forall|j: int| 0 <= j < i ==> (#[trigger] old(self).in_progress@[j]).inode != inode,
            !(exists|i: int| 0 <= i < old(self).in_progress@.len() && (#[trigger] old(self).in_progress@[i]).inode == inode)
                ==> final(self).in_progress@.len() == old(self).in_progress@.len() + 1
                && r.total_chunks == total_chunks && r.completed_chunks == 0 && r.path == path,
    {
        let mut i: usize = 0;
        while i < self.in_progress.len()
            invariant
                i <= self.in_progress@.len(),
                self.in_progress@ == old(self).in_progress@,
                forall|j: int| 0 <= j < i ==> (#[trigger] self.in_progress@[j]).inode != inode,
            decreases self.in_progress@.len() - i,
        {
            if self.in_progress[i].inode == inode {
                return &mut self.in_progress[i];
            }
            i = i + 1;
        }
        self.in_progress.push(FileMigrationProgress::new(inode, path, total_chunks));
        let last = self.in_progress.len() - 1;
        &mut self.in_progress[last]
    }
}

/// Counters of a key-purpose migration.
pub struct MigrationStats {
    pub entries_migrated: usize,
    pub entries_failed: usize,
    pub chunks_migrated: usize,
    pub chunks_failed: usize,
    pub bytes_processed: u64,
}

impl MigrationStats {
    /// Adds the counters of `other`.
    pub fn merge(&mut self, other: &MigrationStats)
        requires
            old(self).entries_migrated + other.entries_migrated <= usize::MAX,
            old(self).entries_failed + other.entries_failed <= usize::MAX,
            old(self).chunks_migrated + other.chunks_migrated <= usize::MAX,
            old(self).chunks_failed + other.chunks_failed <= usize::MAX,
            old(self).bytes_processed + other.bytes_processed <= u64::MAX,
        ensures
            final(self).entries_migrated == old(self).entries_migrated + other.entries_migrated,
            final(self).entries_failed == old(self).entries_failed + other.entries_failed,
            final(self).chunks_migrated == old(self).chunks_migrated + other.chunks_migrated,
            final(self).chunks_failed == old(self).chunks_failed + other.chunks_failed,
            final(self).bytes_processed == old(self).bytes_processed + other.bytes_processed,
    {
        self.entries_migrated = self.entries_migrated + other.entries_migrated;
        self.entries_failed = self.entries_failed + other.entries_failed;
        self.chunks_migrated = self.chunks_migrated + other.chunks_migrated;
        self.chunks_failed = self.chunks_failed + other.chunks_failed;
        self.bytes_processed = self.bytes_processed + other.bytes_processed;
    }
}

/// Key-purpose scheme a blob was sealed under.
#[derive(Clone, Copy, Debug, PartialEq, Eq, Structural)]
pub enum HkdfVersion {
    /// The legacy purpose prefix.
    Old,
    /// The current purpose prefix.
    New,
    /// Neither key opens the blob.
    Unknown,
}

/// The scheme of a blob, from whether it parsed and whether the new and the
/// old subkey opened it. The new key is preferred; a blob neither opens is
/// unknown, and is never retried.
pub fn classify_hkdf(parsed: bool, opens_with_new: bool, opens_with_old: bool) -> (r: HkdfVersion)
    ensures
        !parsed ==> r == HkdfVersion::Unknown,
        parsed && opens_with_new ==> r == HkdfVersion::New,
        parsed && !opens_with_new && opens_with_old ==> r == HkdfVersion::Old,
        parsed && !opens_with_new && !opens_with_old ==> r == HkdfVersion::Unknown,
{
    if !parsed {
        HkdfVersion::Unknown
    } else if opens_with_new {
        HkdfVersion::New
    } else if opens_with_old {
        HkdfVersion::Old
    } else {
        HkdfVersion::Unknown
    }
}

/// What a read does with a blob of the given scheme: whether it is readable,
/// and whether the next write seals it again under the current scheme.
pub fn migration_action(v: HkdfVersion) -> (r: (bool, bool))
    ensures
        r == (match v {
            HkdfVersion::New => (true, false),
            HkdfVersion::Old => (true, true),
            HkdfVersion::Unknown => (false, false),
        }),
{
    match v {
        HkdfVersion::New => (true, false),
        HkdfVersion::Old => (true, true),
        HkdfVersion::Unknown => (false, false),
    }
}

/// The erasure-coded locator of a migrated chunk: the chunk's identity and
/// place in the file, with the stripe that now holds it.
pub fn migrated_ref(chunk: &ChunkRef, stripe: StripeInfo) -> (r: ErasureChunkRef)
    ensures
        r.id == chunk.id,
        r.offset == chunk.offset,
        r.original_size == chunk.original_size,
        r.size == chunk.size,
        r.compressed == chunk.compressed,
        r.stripe == stripe,
        r.version == 1,
{
    ErasureChunkRef {
        id: chunk.id.clone(),
        offset: chunk.offset,
        original_size: chunk.original_size,
        size: chunk.size,
        compressed: chunk.compressed,
        stripe,
        version: 1,
    }
}

/// The erasure-coded manifest a migration starts from: the original's
/// version, size and hash, and no chunks yet.
pub fn start_migrated_manifest(original: &ChunkManifest, data_count: u8, total_count: u8) -> (r: ErasureChunkManifest)
    ensures
        r.version == original.version,
        r.total_size == original.total_size,
        r.file_hash == original.file_hash,
        r.chunks@.len() == 0,
        r.data_count == data_count,
        r.total_count == total_count,
{
    let mut m = ErasureChunkManifest::new(original.version, data_count, total_count);
    m.total_size = original.total_size;
    m.file_hash = original.file_hash.clone();
    m
}

/// A migrated manifest matches its original: as many chunks, the same size
/// and hash, and every stripe has enough uploaded blocks to be rebuilt.
pub open spec fn migration_matches(original: ChunkManifest, migrated: ErasureChunkManifest) -> bool {
    &&& original.chunks@.len() == migrated.chunks@.len()
    &&& original.total_size == migrated.total_size
    &&& original.file_hash@ == migrated.file_hash@
    &&& forall|i: int| 0 <= i < migrated.chunks@.len() ==>
        uploaded_count((#[trigger] migrated.chunks@[i]).stripe.blocks@) >= migrated.chunks@[i].stripe.data_count
}

/// Checks a migrated manifest against its original.
pub fn verify_migration(original: &ChunkManifest, migrated: &ErasureChunkManifest) -> (r: Result<(), Error>)
    ensures
        r.is_ok() <==> migration_matches(*original, *migrated),
        r.is_err() ==> r == Err::<(), Error>(Error::MigrationMismatch),
{
    if original.chunks.len() != migrated.chunks.len() || original.total_size != migrated.total_size
        || original.file_hash != migrated.file_hash {
        return Err(Error::MigrationMismatch);
    }
    let mut i: usize = 0;
    while i < migrated.chunks.len()
        invariant
            i <= migrated.chunks@.len(),
            forall|j: int| 0 <= j < i ==>
                uploaded_count((#[trigger] migrated.chunks@[j]).stripe.blocks@) >= migrated.chunks@[j].stripe.data_count,
        decreases migrated.chunks@.len() - i,
    {
        if !migrated.chunks[i].stripe.can_reconstruct() {
            return Err(Error::MigrationMismatch);
        }
        i = i + 1;
    }
    Ok(())
}

/// What a dry run of the migration of `original` would produce: the same
/// chunks, each with the block layout of a stripe and no block uploaded.
pub fn dry_run_manifest(stripes: &StripeManager, original: &ChunkManifest) -> (r: ErasureChunkManifest)
    requires
        stripes.wf(),
    ensures
        r.version == original.version,
        r.total_size == original.total_size,
        r.file_hash == original.file_hash,
        r.data_count == stripes.k(),
        r.total_count == stripes.n(),
        r.chunks@.len() == original.chunks@.len(),
        forall|i: int| 0 <= i < r.chunks@.len() ==> {
            &&& (#[trigger] r.chunks@[i]).id == original.chunks@[i].id
            &&& r.chunks@[i].offset == original.chunks@[i].offset
            &&& r.chunks@[i].original_size == original.chunks@[i].original_size
            &&& r.chunks@[i].compressed == original.chunks@[i].compressed
            &&& r.chunks@[i].stripe.blocks@.len() == stripes.n()
            &&& forall|b: int| 0 <= b < stripes.n() ==> (#[trigger] r.chunks@[i].stripe.blocks@[b]).message_id.is_none()
        },
{
    let mut m = start_migrated_manifest(original, stripes.data_shards() as u8, stripes.total_shards() as u8);
    let mut i: usize = 0;
    while i < original.chunks.len()
        invariant
            stripes.wf(),
            i <= original.chunks@.len(),
            m.version == original.version,
            m.total_size == original.total_size,
            m.file_hash == original.file_hash,
            m.data_count == stripes.k(),
            m.total_count == stripes.n(),
            m.chunks@.len() == i,
            forall|j: int| 0 <= j < i ==> {
                &&& (#[trigger] m.chunks@[j]).id == original.chunks@[j].id
                &&& m.chunks@[j].offset == original.chunks@[j].offset
                &&& m.chunks@[j].original_size == original.chunks@[j].original_size
                &&& m.chunks@[j].compressed == original.chunks@[j].compressed
                &&& m.chunks@[j].stripe.blocks@.len() == stripes.n()
                &&& forall|b: int| 0 <= b < stripes.n() ==> (#[trigger] m.chunks@[j].stripe.blocks@[b]).message_id.is_none()
            },
        decreases original.chunks@.len() - i,
    {
        let chunk = &original.chunks[i];
        let empty: Vec<u8> = Vec::new();
        let stripe = match stripes.create_stripe(chunk.id.clone(), empty.as_slice(), 0) {
            Ok(s) => s,
            Err(_) => { return m; },
        };
        let no_ids: Vec<(u8, i32)> = Vec::new();
        let info = stripes.to_stripe_info(&stripe, no_ids.as_slice());
        proof {
            assert forall|b: int| 0 <= b < stripes.n() implies (#[trigger] info.blocks@[b]).message_id.is_none() by {
                assert(crate::stripe::message_for(no_ids@, b as u8) == None::<i32>);
            }
        }
        m.chunks.push(migrated_ref(chunk, info));
        i = i + 1;
    }
    m
}

/// Whether an uploaded stripe may be recorded: at least K of its blocks made
/// it; otherwise the write fails with the shortfall.
pub fn check_uploaded(info: &StripeInfo) -> (r: Result<(), Error>)
    ensures
        uploaded_count(info.blocks@) >= info.data_count ==> r.is_ok(),
        uploaded_count(info.blocks@) < info.data_count ==> r == Err::<(), Error>(Error::StripeUnrecoverable {
            available: uploaded_count(info.blocks@) as usize, required: info.data_count as usize }),
{
    let n = info.uploaded_blocks();
    if n >= info.data_count as usize {
        Ok(())
    } else {
        Err(Error::StripeUnrecoverable { available: n, required: info.data_count as usize })
    }
}

/// Counts one entry of a key-purpose migration: migrated (with its bytes)
/// or failed.
pub fn record_entry(stats: &mut MigrationStats, migrated: bool, bytes: u64)
    requires
        old(stats).entries_migrated < usize::MAX,
        old(stats).entries_failed < usize::MAX,
        old(stats).bytes_processed + bytes <= u64::MAX,
    ensures
        migrated ==> final(stats).entries_migrated == old(stats).entries_migrated + 1
            && final(stats).entries_failed == old(stats).entries_failed
            && final(stats).bytes_processed == old(stats).bytes_processed + bytes,
        !migrated ==> final(stats).entries_failed == old(stats).entries_failed + 1
            && final(stats).entries_migrated == old(stats).entries_migrated
            && final(stats).bytes_processed == old(stats).bytes_processed,
        final(stats).chunks_migrated == old(stats).chunks_migrated,
        final(stats).chunks_failed == old(stats).chunks_failed,
{
    if migrated {
        stats.entries_migrated = stats.entries_migrated + 1;
        stats.bytes_processed = stats.bytes_processed + bytes;
    } else {
        stats.entries_failed = stats.entries_failed + 1;
    }
}

/// Whether a failed chunk ends the migration of its file at once.
pub fn stops_on_failure(config: &MigrationConfig) -> (r: bool)
    ensures
        r == !config.continue_on_error,
{
    !config.continue_on_error
}

} // verus!
