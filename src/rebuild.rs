//! Rebuild of a failed account's blocks, and the progress of rebuild and scrub runs.

use vstd::prelude::*;
use crate::erasure::{matches_encoding, present_count, shard};
use crate::chunk::content_id;
use crate::compression::lz4_block;
use crate::crypto::blob_opens;
use crate::error::Error;
use crate::kdf::KEY_SIZE;
use crate::pipeline::open_chunk;
use crate::health::{healthy, serving, AccountStatus, ArrayStatus, HealthTracker};
use crate::manifest::{BlockLocation, ErasureChunkRef, StripeInfo};
use crate::stripe::{placed, StripeManager};

verus! {

/// Stripes handled per batch unless configured otherwise.
pub const DEFAULT_BATCH_SIZE: usize = 100;

/// Failures in a row after which an account is taken out of reads.
pub const FAILURE_THRESHOLD: u32 = 3;

/// Phase of a rebuild or scrub run.
#[derive(Clone, Copy, Debug, PartialEq, Eq, Structural)]
pub enum RebuildPhase {
    Starting,
    Scanning,
    Processing,
    Uploading,
    Completed,
    Failed,
}

/// Progress of a rebuild or scrub run.
#[derive(Clone, Debug)]
pub struct RebuildProgress {
    /// Account being rebuilt (none for a scrub).
    pub account_id: Option<u8>,
    pub total_stripes: usize,
    pub processed_stripes: usize,
    pub successful_stripes: usize,
    pub failed_stripes: usize,
    pub phase: RebuildPhase,
}

/// Whole percent of `processed` out of `total`; 100 when there is nothing to do.
pub open spec fn percent(processed: int, total: int) -> int {
    if total == 0 {
        100
    } else if processed >= total {
        100
    } else {
        processed * 100 / total
    }
}

impl RebuildProgress {
    /// A run over `total_stripes` stripes that has not started.
    pub fn new(account_id: Option<u8>, total_stripes: usize) -> (r: Self)
        ensures
            r.account_id == account_id,
            r.total_stripes == total_stripes,
            r.processed_stripes == 0,
            r.successful_stripes == 0,
            r.failed_stripes == 0,
            r.phase == RebuildPhase::Starting,
    {
        RebuildProgress {
            account_id,
            total_stripes,
            processed_stripes: 0,
            successful_stripes: 0,
            failed_stripes: 0,
            phase: RebuildPhase::Starting,
        }
    }

    /// Progress in whole percent, 0 to 100.
    pub fn progress_percent(&self) -> (r: u8)
        ensures
            r == percent(self.processed_stripes as int, self.total_stripes as int),
    {
        if self.total_stripes == 0 || self.processed_stripes >= self.total_stripes {
            return 100;
        }
        let p = self.processed_stripes as u128;
        let t = self.total_stripes as u128;
        proof {
            let pi = p as int;
            let ti = t as int;
            assert(pi * 100 / ti < 100) by (nonlinear_arith)
                requires pi < ti, ti > 0, pi >= 0;
            assert(pi * 100 <= u128::MAX) by (nonlinear_arith)
                requires 0 <= pi <= usize::MAX, usize::MAX <= u64::MAX;
        }
        ((p * 100) / t) as u8
    }

    /// Counts one more stripe, successful or not.
    pub fn record(&mut self, success: bool)
        requires
            old(self).processed_stripes < usize::MAX,
            old(self).successful_stripes < usize::MAX,
            old(self).failed_stripes < usize::MAX,
        ensures
            final(self).processed_stripes == old(self).processed_stripes + 1,
            success ==> final(self).successful_stripes == old(self).successful_stripes + 1
                && final(self).failed_stripes == old(self).failed_stripes,
            !success ==> final(self).failed_stripes == old(self).failed_stripes + 1
                && final(self).successful_stripes == old(self).successful_stripes,
            final(self).total_stripes == old(self).total_stripes,
            final(self).account_id == old(self).account_id,
            final(self).phase == old(self).phase,
    {
        self.processed_stripes = self.processed_stripes + 1;
        if success {
            self.successful_stripes = self.successful_stripes + 1;
        } else {
            self.failed_stripes = self.failed_stripes + 1;
        }
    }
}

/// Outcome of scrubbing one stripe.
#[derive(Debug)]
pub struct ScrubResult {
    /// The stripe's chunk id.
    pub stripe_id: String,
    /// Whether the stripe decoded.
    pub valid: bool,
    pub verified_blocks: usize,
    pub missing_blocks: usize,
    /// Why the stripe failed, if it did.
    pub error: Option<Error>,
}

/// The stripe keeps a block on `account_id` that has no remote message.
pub open spec fn needs_repair(s: ErasureChunkRef, account_id: u8) -> bool {
    exists|b: int| 0 <= b < s.stripe.blocks@.len()
        && (#[trigger] s.stripe.blocks@[b]).account_id == account_id && s.stripe.blocks@[b].message_id.is_none()
}

/// Rebuilds blocks of failed accounts from the others.
pub struct RebuildManager {
    stripe_manager: StripeManager,
    batch_size: usize,
    health: HealthTracker,
}

impl RebuildManager {
    pub closed spec fn batch(&self) -> usize {
        self.batch_size
    }

    pub closed spec fn stripes(&self) -> StripeManager {
        self.stripe_manager
    }

    pub closed spec fn health_view(&self) -> HealthTracker {
        self.health
    }

    /// A manager for stripes of K = `data_shards` of N = `total_shards`
    /// blocks over `num_accounts` accounts.
    pub fn new(data_shards: usize, total_shards: usize, num_accounts: usize) -> (r: Result<Self, Error>)
        ensures
            r.is_ok() <==> (1 <= data_shards < total_shards <= num_accounts <= crate::stripe::MAX_ACCOUNTS
                && total_shards <= 255),
            r.is_ok() ==> r.unwrap().batch() == DEFAULT_BATCH_SIZE && r.unwrap().stripes().wf()
                && r.unwrap().stripes().k() == data_shards && r.unwrap().stripes().n() == total_shards
                && r.unwrap().health_view().wf()
                && r.unwrap().health_view().statuses() == Seq::new(num_accounts as nat, |i: int| AccountStatus::Healthy)
                && r.unwrap().health_view().k() == data_shards,
    {
        match StripeManager::new(data_shards, total_shards, num_accounts) {
            Ok(stripe_manager) => Ok(RebuildManager {
                stripe_manager,
                batch_size: DEFAULT_BATCH_SIZE,
                health: HealthTracker::new(num_accounts, FAILURE_THRESHOLD, data_shards),
            }),
            Err(e) => Err(e),
        }
    }

    /// The stripe layout it rebuilds.
    pub fn stripe_manager(&self) -> (r: &StripeManager)
        ensures
            *r == self.stripes(),
    {
        &self.stripe_manager
    }

    /// The accounts' health.
    pub fn health_tracker(&self) -> (r: &HealthTracker)
        ensures
            *r == self.health_view(),
    {
        &self.health
    }

    /// The accounts' health, to record call outcomes in.
    pub fn health_tracker_mut(&mut self) -> (r: &mut HealthTracker)
        ensures
            *r == old(self).health_view(),
            final(self).health_view() == *final(r),
            final(self).stripes() == old(self).stripes(),
            final(self).batch() == old(self).batch(),
    {
        &mut self.health
    }

    /// State of the whole pool.
    pub fn pool_status(&self) -> (r: ArrayStatus)
        ensures
            serving(self.health_view().statuses()) < self.health_view().k() ==> r == ArrayStatus::Failed,
            serving(self.health_view().statuses()) >= self.health_view().k()
                && healthy(self.health_view().statuses()) == self.health_view().statuses().len() ==> r == ArrayStatus::Healthy,
            serving(self.health_view().statuses()) >= self.health_view().k()
                && healthy(self.health_view().statuses()) != self.health_view().statuses().len() ==> r == ArrayStatus::Degraded,
    {
        self.health.array_status()
    }

    /// Whether K accounts can serve, so that stripes can be rebuilt.
    pub fn can_rebuild(&self) -> (r: bool)
        ensures
            r == (serving(self.health_view().statuses()) >= self.health_view().k()),
    {
        self.health.can_operate()
    }

    /// Marks `account` as being rebuilt.
    pub fn start_rebuild(&mut self, account: u8)
        requires
            old(self).health_view().wf(),
        ensures
            final(self).health_view().wf(),
            (account as int) < old(self).health_view().statuses().len() ==> final(self).health_view().statuses()
                == old(self).health_view().statuses().update(account as int, AccountStatus::Rebuilding),
            final(self).stripes() == old(self).stripes(),
            final(self).batch() == old(self).batch(),
    {
        self.health.set_status(account, AccountStatus::Rebuilding);
    }

    /// Ends the rebuild of `account`: healthy again when no stripe failed,
    /// else degraded and the failure count reported.
    pub fn finish_rebuild(&mut self, account: u8, progress: &RebuildProgress) -> (r: Result<(), Error>)
        requires
            old(self).health_view().wf(),
        ensures
            final(self).health_view().wf(),
            r == rebuild_outcome_spec(account, progress.failed_stripes),
            (account as int) < old(self).health_view().statuses().len() ==> final(self).health_view().statuses()
                == old(self).health_view().statuses().update(account as int,
                    if progress.failed_stripes == 0 { AccountStatus::Healthy } else { AccountStatus::Degraded }),
            final(self).stripes() == old(self).stripes(),
            final(self).batch() == old(self).batch(),
    {
        if progress.failed_stripes == 0 {
            self.health.set_status(account, AccountStatus::Healthy);
        } else {
            self.health.set_status(account, AccountStatus::Degraded);
        }
        rebuild_outcome(account, progress)
    }

    /// The same manager with `batch_size` stripes per batch (at least 1).
    pub fn with_batch_size(self, batch_size: usize) -> (r: Self)
        ensures
            r.batch() == if batch_size == 0 { 1 } else { batch_size },
            r.stripes() == self.stripes(),
            r.health_view() == self.health_view(),
    {
        RebuildManager {
            stripe_manager: self.stripe_manager,
            batch_size: if batch_size == 0 { 1 } else { batch_size },
            health: self.health,
        }
    }

    /// Stripes per batch.
    pub fn batch_size(&self) -> (r: usize)
        ensures
            r == self.batch(),
    {
        self.batch_size
    }

    /// The stripes that miss their block on `account_id`, in order.
    pub fn stripes_needing_repair<'a>(&self, stripes: &'a [ErasureChunkRef], account_id: u8) -> (r: Vec<&'a ErasureChunkRef>)
        ensures
            r@.map_values(|x: &ErasureChunkRef| *x) == stripes@.filter(|s: ErasureChunkRef| needs_repair(s, account_id)),
    {
        let ghost f = |s: ErasureChunkRef| needs_repair(s, account_id);
        let mut r: Vec<&'a ErasureChunkRef> = Vec::new();
        let mut i: usize = 0;
        while i < stripes.len()
            invariant
                i <= stripes@.len(),
                f == (|s: ErasureChunkRef| needs_repair(s, account_id)),
                r@.map_values(|x: &ErasureChunkRef| *x) == stripes@.subrange(0, i as int).filter(f),
            decreases stripes@.len() - i,
        {
            proof {
                reveal(Seq::filter);
                assert(stripes@.subrange(0, i as int + 1).drop_last() =~= stripes@.subrange(0, i as int));
            }
            let ghost before = r@.map_values(|x: &ErasureChunkRef| *x);
            if misses_block(&stripes[i].stripe, account_id) {
                r.push(&stripes[i]);
                assert(r@.map_values(|x: &ErasureChunkRef| *x) =~= before.push(stripes@[i as int]));
            }
            i = i + 1;
        }
        assert(stripes@.subrange(0, i as int) =~= stripes@);
        r
    }

    /// Block `target` of a stripe, rebuilt from `(block index, bytes)` pairs
    /// of its other blocks: decoded, then encoded again.
    pub fn rebuild_block(&self, available: &[(u8, Vec<u8>)], target: u8, len: usize) -> (r: Result<Vec<u8>, Error>)
        requires
            self.stripes().wf(),
            (target as nat) < self.stripes().n(),
        ensures
            forall|d: Seq<u8>|
                (forall|j: int| 0 <= j < available@.len() ==> #[trigger] available@[j].0 < self.stripes().n())
                && #[trigger] matches_encoding(placed(available@, self.stripes().n()), d, self.stripes().k(), self.stripes().n())
                && present_count(placed(available@, self.stripes().n()), self.stripes().n() as int) >= self.stripes().k()
                && d.len() == len && len + 255 <= usize::MAX
                ==> r.is_ok() && r.unwrap()@ == shard(d, self.stripes().k(), self.stripes().n(), target as int),
    {
        let data = self.stripe_manager.reconstruct(available, len)?;
        if data.len() > usize::MAX - 255 {
            return Err(Error::CorruptStripe);
        }
        let mut stripe = self.stripe_manager.create_stripe(String::new(), data.as_slice(), 0)?;
        let t = target as usize;
        let block = stripe.blocks.swap_remove(t);
        Ok(block)
    }
}

/// The stripe keeps some block on `account_id`.
pub open spec fn places_on(s: ErasureChunkRef, account_id: u8) -> bool {
    exists|b: int| 0 <= b < s.stripe.blocks@.len() && (#[trigger] s.stripe.blocks@[b]).account_id == account_id
}

/// A block that a rebuild of `target` may read: on another account that is
/// not unavailable, and uploaded.
pub open spec fn usable_source(l: BlockLocation, target: u8, unavailable: Seq<u8>) -> bool {
    l.account_id != target && !unavailable.contains(l.account_id) && l.message_id.is_some()
}

/// Positions of the usable sources among the first `n` blocks, in order.
pub open spec fn sources_upto(blocks: Seq<BlockLocation>, target: u8, unavailable: Seq<u8>, n: int) -> Seq<int>
    decreases n,
{
    if n <= 0 {
        Seq::empty()
    } else {
        let prev = sources_upto(blocks, target, unavailable, n - 1);
        if usable_source(blocks[n - 1], target, unavailable) { prev.push(n - 1) } else { prev }
    }
}

impl RebuildManager {
    /// The stripes with a block on `account_id`, in order: those a rebuild of
    /// that account visits.
    pub fn affected_stripes<'a>(&self, stripes: &'a [ErasureChunkRef], account_id: u8) -> (r: Vec<&'a ErasureChunkRef>)
        ensures
            r@.map_values(|x: &ErasureChunkRef| *x) == stripes@.filter(|s: ErasureChunkRef| places_on(s, account_id)),
    {
        let ghost f = |s: ErasureChunkRef| places_on(s, account_id);
        let mut r: Vec<&'a ErasureChunkRef> = Vec::new();
        let mut i: usize = 0;
        while i < stripes.len()
            invariant
                i <= stripes@.len(),
                f == (|s: ErasureChunkRef| places_on(s, account_id)),
                r@.map_values(|x: &ErasureChunkRef| *x) == stripes@.subrange(0, i as int).filter(f),
            decreases stripes@.len() - i,
        {
            proof {
                reveal(Seq::filter);
                assert(stripes@.subrange(0, i as int + 1).drop_last() =~= stripes@.subrange(0, i as int));
            }
            let ghost before = r@.map_values(|x: &ErasureChunkRef| *x);
            if block_on(&stripes[i].stripe, account_id).is_some() {
                r.push(&stripes[i]);
                assert(r@.map_values(|x: &ErasureChunkRef| *x) =~= before.push(stripes@[i as int]));
            }
            i = i + 1;
        }
        assert(stripes@.subrange(0, i as int) =~= stripes@);
        r
    }

    /// Which blocks to download to rebuild `target`'s block of the stripe:
    /// the positions of the first K usable ones, or the shortfall.
    pub fn rebuild_sources(&self, info: &StripeInfo, target: u8, unavailable: &[u8]) -> (r: Result<Vec<usize>, Error>)
        requires
            self.stripes().wf(),
        ensures
            sources_upto(info.blocks@, target, unavailable@, info.blocks@.len() as int).len() < self.stripes().k()
                ==> r == Err::<Vec<usize>, Error>(Error::StripeUnrecoverable {
                    available: sources_upto(info.blocks@, target, unavailable@, info.blocks@.len() as int).len() as usize,
                    required: self.stripes().k() as usize }),
            sources_upto(info.blocks@, target, unavailable@, info.blocks@.len() as int).len() >= self.stripes().k()
                ==> r.is_ok() && r.unwrap()@.map_values(|p: usize| p as int)
                    == sources_upto(info.blocks@, target, unavailable@, info.blocks@.len() as int).subrange(0, self.stripes().k() as int),
    {
        let k = self.stripe_manager.data_shards();
        let ghost bl = info.blocks@;
        let ghost un = unavailable@;
        let mut picked: Vec<usize> = Vec::new();
        let mut i: usize = 0;
        while i < info.blocks.len() && picked.len() < k
            invariant
                bl == info.blocks@,
                un == unavailable@,
                k == self.stripes().k(),
                i <= bl.len(),
                picked@.len() <= k,
                picked@.map_values(|p: usize| p as int) == sources_upto(bl, target, un, i as int),
            decreases bl.len() - i,
        {
            let l = &info.blocks[i];
            let ok = l.account_id != target && !holds_byte(unavailable, l.account_id) && l.message_id.is_some();
            if ok {
                picked.push(i);
            }
            proof {
                assert(picked@.map_values(|p: usize| p as int) =~= sources_upto(bl, target, un, i as int + 1));
            }
            i = i + 1;
        }
        proof {
            lemma_sources_grow(bl, target, un, i as int, bl.len() as int);
        }
        if picked.len() < k {
            proof {
                assert(i == bl.len());
            }
            return Err(Error::StripeUnrecoverable { available: picked.len(), required: k });
        }
        proof {
            lemma_sources_prefix(bl, target, un, i as int, bl.len() as int);
            assert(picked@.map_values(|p: usize| p as int) =~=
                sources_upto(bl, target, un, bl.len() as int).subrange(0, k as int));
        }
        Ok(picked)
    }

    /// Outcome of scrubbing one stripe from the blocks that could be read:
    /// the stripe decodes to `len` bytes, which open under `key`, decompress
    /// as `compressed` says, and hash to the chunk id.
    pub fn scrub_verdict(&self, chunk_id: &str, downloaded: &[(u8, Vec<u8>)], missing_blocks: usize, len: usize,
        key: &[u8], compressed: bool) -> (r: ScrubResult)
        requires
            self.stripes().wf(),
            key@.len() == KEY_SIZE,
        ensures
            r.stripe_id@ == chunk_id@,
            r.verified_blocks == downloaded@.len(),
            r.missing_blocks == missing_blocks,
            downloaded@.len() < self.stripes().k() ==> !r.valid && r.error == Some(Error::StripeUnrecoverable {
                available: downloaded@.len() as usize, required: self.stripes().k() as usize }),
            r.valid <==> r.error.is_none(),
            r.valid ==> exists|p: Seq<u8>| #[trigger] content_id(p) == chunk_id@,
            forall|d: Seq<u8>, x: Seq<u8>|
                (forall|j: int| 0 <= j < downloaded@.len() ==> #[trigger] downloaded@[j].0 < self.stripes().n())
                && #[trigger] matches_encoding(placed(downloaded@, self.stripes().n()), d, self.stripes().k(), self.stripes().n())
                && present_count(placed(downloaded@, self.stripes().n()), self.stripes().n() as int) >= self.stripes().k()
                && d.len() == len
                && downloaded@.len() >= self.stripes().k()
                && #[trigger] content_id(x) == chunk_id@ && (compressed ==> x.len() <= u32::MAX)
                && blob_opens(key@, d, Seq::<u8>::empty()) == Some(if compressed { lz4_block(x) } else { x })
                ==> r.valid,
    {
        let k = self.stripe_manager.data_shards();
        let stripe_id = chunk_id.to_owned();
        if downloaded.len() < k {
            return ScrubResult {
                stripe_id,
                valid: false,
                verified_blocks: downloaded.len(),
                missing_blocks,
                error: Some(Error::StripeUnrecoverable { available: downloaded.len(), required: k }),
            };
        }
        let outcome = match self.stripe_manager.reconstruct(downloaded, len) {
            Ok(d) => open_chunk(chunk_id, key, d.as_slice(), compressed),
            Err(e) => Err(e),
        };
        match outcome {
            Ok(p) => {
                assert(content_id(p@) == chunk_id@);
                ScrubResult { stripe_id, valid: true, verified_blocks: downloaded.len(), missing_blocks, error: None }
            },
            Err(e) => ScrubResult { stripe_id, valid: false, verified_blocks: downloaded.len(), missing_blocks, error: Some(e) },
        }
    }
}

/// How a finished run ends: completed when no stripe failed.
pub fn final_phase(progress: &RebuildProgress) -> (r: RebuildPhase)
    ensures
        r == if progress.failed_stripes == 0 { RebuildPhase::Completed } else { RebuildPhase::Failed },
{
    if progress.failed_stripes == 0 { RebuildPhase::Completed } else { RebuildPhase::Failed }
}

/// What a rebuild of `account` with `failed` failed stripes reports.
pub open spec fn rebuild_outcome_spec(account: u8, failed: usize) -> Result<(), Error> {
    if failed == 0 { Ok(()) } else { Err(Error::RebuildFailed { account, failed }) }
}

/// What a finished rebuild of `account` reports: success when no stripe
/// failed (the account is then healthy again), else the failure count.
pub fn rebuild_outcome(account: u8, progress: &RebuildProgress) -> (r: Result<(), Error>)
    ensures
        r == rebuild_outcome_spec(account, progress.failed_stripes),
{
    if progress.failed_stripes == 0 {
        Ok(())
    } else {
        Err(Error::RebuildFailed { account, failed: progress.failed_stripes })
    }
}

proof fn lemma_sources_grow(bl: Seq<BlockLocation>, target: u8, un: Seq<u8>, a: int, b: int)
    requires
        0 <= a <= b,
    ensures
        sources_upto(bl, target, un, a).len() <= sources_upto(bl, target, un, b).len(),
    decreases b - a,
{
    if a < b {
        lemma_sources_grow(bl, target, un, a, b - 1);
    }
}

proof fn lemma_sources_prefix(bl: Seq<BlockLocation>, target: u8, un: Seq<u8>, a: int, b: int)
    requires
        0 <= a <= b,
    ensures
        sources_upto(bl, target, un, b).subrange(0, sources_upto(bl, target, un, a).len() as int)
            == sources_upto(bl, target, un, a),
    decreases b - a,
{
    if a < b {
        lemma_sources_prefix(bl, target, un, a, b - 1);
        lemma_sources_grow(bl, target, un, a, b - 1);
        let s1 = sources_upto(bl, target, un, b - 1);
        let s2 = sources_upto(bl, target, un, b);
        let m = sources_upto(bl, target, un, a).len() as int;
        assert(s2.subrange(0, m) =~= s1.subrange(0, m));
    }
}

/// What a rebuild does with one stripe for a target account.
#[derive(Clone, Copy, Debug, PartialEq, Eq, Structural)]
pub enum RebuildStep {
    /// The stripe keeps no block on the account.
    NoBlock,
    /// The block is uploaded and reads back: nothing to do.
    Skip,
    /// The block at this position must be rebuilt and uploaded.
    Rebuild(usize),
}

/// The step for `account`'s block of the stripe, given whether its uploaded
/// copy (if any) could be read. A stripe rebuilt before, whose block reads
/// back, is skipped: rebuilding again uploads nothing.
pub fn stripe_step(info: &StripeInfo, account: u8, target_readable: bool) -> (r: RebuildStep)
    ensures
        !(exists|b: int| 0 <= b < info.blocks@.len() && (#[trigger] info.blocks@[b]).account_id == account)
            ==> r == RebuildStep::NoBlock,
        (exists|b: int| 0 <= b < info.blocks@.len() && (#[trigger] info.blocks@[b]).account_id == account) ==> {
            let p = first_on(info.blocks@, account);
            &&& 0 <= p < info.blocks@.len()
            &&& info.blocks@[p].account_id == account
            &&& (info.blocks@[p].message_id.is_some() && target_readable ==> r == RebuildStep::Skip)
            &&& (!(info.blocks@[p].message_id.is_some() && target_readable) ==> r == RebuildStep::Rebuild(p as usize))
        },
{
    match block_on(info, account) {
        None => RebuildStep::NoBlock,
        Some(p) => {
            proof {
                lemma_first_on(info.blocks@, account, p as int);
            }
            if info.blocks[p].message_id.is_some() && target_readable {
                RebuildStep::Skip
            } else {
                RebuildStep::Rebuild(p)
            }
        },
    }
}

/// Position of the first block on `account`.
pub open spec fn first_on(blocks: Seq<BlockLocation>, account: u8) -> int {
    choose|p: int| 0 <= p < blocks.len() && blocks[p].account_id == account
        && forall|c: int| 0 <= c < p ==> (#[trigger] blocks[c]).account_id != account
}

proof fn lemma_first_on(blocks: Seq<BlockLocation>, account: u8, p: int)
    requires
        0 <= p < blocks.len(),
        blocks[p].account_id == account,
        forall|c: int| 0 <= c < p ==> (#[trigger] blocks[c]).account_id != account,
    ensures
        first_on(blocks, account) == p,
{
    let q = first_on(blocks, account);
    if q < p {
        assert(blocks[q].account_id != account);
    }
    if q > p {
        assert(blocks[p].account_id != account);
    }
}

impl RebuildManager {
    /// The next block to download while rebuilding `target`'s block, after
    /// the positions in `tried` (downloaded or failed) and with `have`
    /// blocks in hand: none once K are in hand, else the first usable block
    /// not tried yet, else the shortfall.
    pub fn next_source(&self, info: &StripeInfo, target: u8, unavailable: &[u8], tried: &[usize], have: usize)
        -> (r: Result<Option<usize>, Error>)
        requires
            self.stripes().wf(),
        ensures
            have >= self.stripes().k() ==> r == Ok::<Option<usize>, Error>(None),
            have < self.stripes().k() ==> match r {
                Ok(Some(p)) => {
                    &&& p < info.blocks@.len()
                    &&& usable_source(info.blocks@[p as int], target, unavailable@)
                    &&& !tried@.contains(p)
                    &&& forall|q: int| 0 <= q < p && usable_source(#[trigger] info.blocks@[q], target, unavailable@)
                        ==> tried@.contains(q as usize)
                },
                Ok(None) => false,
                Err(e) => e == Error::StripeUnrecoverable { available: have, required: self.stripes().k() as usize }
                    && forall|q: int| 0 <= q < info.blocks@.len() && usable_source(#[trigger] info.blocks@[q], target, unavailable@)
                        ==> tried@.contains(q as usize),
            },
    {
        let k = self.stripe_manager.data_shards();
        if have >= k {
            return Ok(None);
        }
        let mut p: usize = 0;
        while p < info.blocks.len()
            invariant
                p <= info.blocks@.len(),
                have < k,
                k == self.stripes().k(),
                forall|q: int| 0 <= q < p && usable_source(#[trigger] info.blocks@[q], target, unavailable@)
                    ==> tried@.contains(q as usize),
            decreases info.blocks@.len() - p,
        {
            let l = &info.blocks[p];
            if l.account_id != target && !holds_byte(unavailable, l.account_id) && l.message_id.is_some()
                && !holds_index(tried, p) {
                return Ok(Some(p));
            }
            p = p + 1;
        }
        Err(Error::StripeUnrecoverable { available: have, required: k })
    }
}

/// Whether `v` holds `x`.
fn holds_index(v: &[usize], x: usize) -> (r: bool)
    ensures
        r == v@.contains(x),
{
    let mut i: usize = 0;
    while i < v.len()
        invariant
            i <= v@.len(),
            forall|j: int| 0 <= j < i ==> v@[j] != x,
        decreases v@.len() - i,
    {
        if v[i] == x {
            return true;
        }
        i = i + 1;
    }
    false
}

/// Whether `bytes` holds `x`.
fn holds_byte(bytes: &[u8], x: u8) -> (r: bool)
    ensures
        r == bytes@.contains(x),
{
    let mut i: usize = 0;
    while i < bytes.len()
        invariant
            i <= bytes@.len(),
            forall|j: int| 0 <= j < i ==> bytes@[j] != x,
        decreases bytes@.len() - i,
    {
        if bytes[i] == x {
            return true;
        }
        i = i + 1;
    }
    false
}

/// Position of the first block of the stripe on `account_id`.
pub fn block_on(info: &StripeInfo, account_id: u8) -> (r: Option<usize>)
    ensures
        r.is_none() <==> !exists|b: int| 0 <= b < info.blocks@.len() && (#[trigger] info.blocks@[b]).account_id == account_id,
        r.is_some() ==> r.unwrap() < info.blocks@.len() && info.blocks@[r.unwrap() as int].account_id == account_id
            && forall|c: int| 0 <= c < r.unwrap() ==> (#[trigger] info.blocks@[c]).account_id != account_id,
{
    let mut b: usize = 0;
    while b < info.blocks.len()
        invariant
            b <= info.blocks@.len(),
            forall|c: int| 0 <= c < b ==> (#[trigger] info.blocks@[c]).account_id != account_id,
        decreases info.blocks@.len() - b,
    {
        if info.blocks[b].account_id == account_id {
            return Some(b);
        }
        b = b + 1;
    }
    None
}

/// Whether `info` has a block on `account_id` without a remote message.
fn misses_block(info: &StripeInfo, account_id: u8) -> (r: bool)
    ensures
        r == exists|b: int| 0 <= b < info.blocks@.len()
            && (#[trigger] info.blocks@[b]).account_id == account_id && info.blocks@[b].message_id.is_none(),
{
    let mut b: usize = 0;
    while b < info.blocks.len()
        invariant
            b <= info.blocks@.len(),
            forall|c: int| 0 <= c < b ==> !((#[trigger] info.blocks@[c]).account_id == account_id
                && info.blocks@[c].message_id.is_none()),
        decreases info.blocks@.len() - b,
    {
        if info.blocks[b].account_id == account_id && info.blocks[b].message_id.is_none() {
            return true;
        }
        b = b + 1;
    }
    false
}

/// Records that block `b` of the stripe now lives in message `message_id`.
pub fn mark_rebuilt(info: &mut StripeInfo, b: usize, message_id: i32, uploaded_at: i64)
    requires
        b < old(info).blocks@.len(),
    ensures
        final(info).blocks@.len() == old(info).blocks@.len(),
        final(info).blocks@[b as int].message_id == Some(message_id),
        final(info).blocks@[b as int].uploaded_at == Some(uploaded_at),
        final(info).blocks@[b as int].account_id == old(info).blocks@[b as int].account_id,
        final(info).blocks@[b as int].block_index == old(info).blocks@[b as int].block_index,
        forall|c: int| 0 <= c < old(info).blocks@.len() && c != b ==> final(info).blocks@[c] == old(info).blocks@[c],
        final(info).data_count == old(info).data_count,
        final(info).parity_count == old(info).parity_count,
        final(info).block_size == old(info).block_size,
{
    let loc = BlockLocation {
        account_id: info.blocks[b].account_id,
        message_id: Some(message_id),
        block_index: info.blocks[b].block_index,
        uploaded_at: Some(uploaded_at),
    };
    info.blocks.set(b, loc);
}

/// Once every block of `account_id` in a stripe has a remote message, a
/// second rebuild of that account selects the stripe no more: rebuilding
/// twice does what rebuilding once did.
pub proof fn lemma_rebuild_idempotent(s: ErasureChunkRef, account_id: u8)
    requires
        forall|b: int| 0 <= b < s.stripe.blocks@.len() && (#[trigger] s.stripe.blocks@[b]).account_id == account_id
            ==> s.stripe.blocks@[b].message_id.is_some(),
    ensures
        !needs_repair(s, account_id),
{
}

} // verus!
