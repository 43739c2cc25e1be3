//! Stripes: the erasure-coded blocks of one chunk and the accounts that hold them.

use vstd::prelude::*;
use crate::bytes::copy_range;
use crate::clock::now_unix_secs;
use crate::erasure::{block_len, matches_encoding, present_count, shard, Encoder};
use crate::error::Error;
use crate::manifest::{BlockLocation, StripeInfo};

verus! {

/// Largest number of accounts: account ids are bytes.
pub const MAX_ACCOUNTS: usize = 256;

/// The account that holds block `b` of stripe `i`.
pub open spec fn placement(b: int, i: int, accounts: int) -> int {
    (b + i) % accounts
}

/// Within one stripe, distinct blocks land on distinct accounts.
pub proof fn lemma_placement_distinct(b1: int, b2: int, i: int, accounts: int)
    requires
        0 <= b1 < accounts,
        0 <= b2 < accounts,
        b1 != b2,
        i >= 0,
    ensures
        placement(b1, i, accounts) != placement(b2, i, accounts),
{
    let x1 = b1 + i;
    let x2 = b2 + i;
    vstd::arithmetic::div_mod::lemma_fundamental_div_mod(x1, accounts);
    vstd::arithmetic::div_mod::lemma_fundamental_div_mod(x2, accounts);
    let q1 = x1 / accounts;
    let q2 = x2 / accounts;
    if x1 % accounts == x2 % accounts {
        assert(b1 - b2 == accounts * (q1 - q2)) by (nonlinear_arith)
            requires x1 == accounts * q1 + x1 % accounts, x2 == accounts * q2 + x2 % accounts,
                x1 % accounts == x2 % accounts, x1 == b1 + i, x2 == b2 + i;
        assert(false) by (nonlinear_arith)
            requires b1 - b2 == accounts * (q1 - q2), b1 != b2, 0 <= b1 < accounts, 0 <= b2 < accounts;
    }
}

/// The blocks of one chunk, ready for upload or just downloaded.
pub struct Stripe {
    /// Chunk this stripe belongs to.
    pub chunk_id: String,
    /// Block bytes by block index.
    pub blocks: Vec<Vec<u8>>,
    /// Account of each block, by block index.
    pub assignments: Vec<u8>,
    /// Number of data blocks (K).
    pub data_count: usize,
}

impl Stripe {
    /// The stripe's id: its chunk id.
    pub fn stripe_id(&self) -> (r: &str)
        ensures
            r@ == self.chunk_id@,
    {
        self.chunk_id.as_str()
    }

    /// K.
    pub fn data_count(&self) -> (r: u8)
        requires
            self.data_count <= 255,
        ensures
            r == self.data_count,
    {
        self.data_count as u8
    }

    /// The first block assigned to `account_id`, with its index.
    pub fn block_for_account(&self, account_id: u8) -> (r: Option<(u8, &[u8])>)
        requires
            self.assignments@.len() <= self.blocks@.len(),
            self.assignments@.len() <= 256,
        ensures
            r.is_none() <==> !self.assignments@.contains(account_id),
            r.is_some() ==> {
                let b = r.unwrap().0 as int;
                &&& b < self.assignments@.len()
                &&& self.assignments@[b] == account_id
                &&& r.unwrap().1@ == self.blocks@[b]@
                &&& forall|c: int| 0 <= c < b ==> self.assignments@[c] != account_id
            },
    {
        let mut i: usize = 0;
        while i < self.assignments.len()
            invariant
                i <= self.assignments@.len(),
                self.assignments@.len() <= self.blocks@.len(),
                self.assignments@.len() <= 256,
                forall|c: int| 0 <= c < i ==> self.assignments@[c] != account_id,
            decreases self.assignments@.len() - i,
        {
            if self.assignments[i] == account_id {
                return Some((i as u8, self.blocks[i].as_slice()));
            }
            i = i + 1;
        }
        None
    }

    /// Every block with its index and account.
    pub fn all_blocks(&self) -> (r: Vec<(u8, u8, &[u8])>)
        requires
            self.blocks@.len() <= 256,
        ensures
            r@.len() == if self.blocks@.len() <= self.assignments@.len() { self.blocks@.len() } else { self.assignments@.len() },
            forall|b: int| 0 <= b < r@.len() ==> {
                &&& (#[trigger] r@[b]).0 == b
                &&& r@[b].1 == self.assignments@[b]
                &&& r@[b].2@ == self.blocks@[b]@
            },
    {
        let mut r: Vec<(u8, u8, &[u8])> = Vec::new();
        let mut i: usize = 0;
        while i < self.blocks.len() && i < self.assignments.len()
            invariant
                i <= self.blocks@.len(),
                i <= self.assignments@.len(),
                self.blocks@.len() <= 256,
                r@.len() == i,
                forall|b: int| 0 <= b < i ==> {
                    &&& (#[trigger] r@[b]).0 == b
                    &&& r@[b].1 == self.assignments@[b]
                    &&& r@[b].2@ == self.blocks@[b]@
                },
            decreases self.blocks@.len() - i,
        {
            r.push((i as u8, self.assignments[i], self.blocks[i].as_slice()));
            i = i + 1;
        }
        r
    }

    /// N.
    pub fn total_blocks(&self) -> (r: usize)
        ensures
            r == self.blocks@.len(),
    {
        self.blocks.len()
    }

    /// N - K.
    pub fn parity_count(&self) -> (r: u8)
        requires
            self.data_count <= self.blocks@.len(),
            self.blocks@.len() - self.data_count <= 255,
        ensures
            r == self.blocks@.len() - self.data_count,
    {
        (self.blocks.len() - self.data_count) as u8
    }

    /// Size of the blocks: that of the first, or 0 when there is none.
    pub fn block_size(&self) -> (r: usize)
        ensures
            self.blocks@.len() == 0 ==> r == 0,
            self.blocks@.len() > 0 ==> r == self.blocks@[0]@.len(),
    {
        if self.blocks.len() == 0 {
            0
        } else {
            self.blocks[0].len()
        }
    }
}

/// The blocks that `given` supplies, by index; a later entry for the same
/// index replaces an earlier one, and indices past `n` are ignored.
pub open spec fn placed(given: Seq<(u8, Vec<u8>)>, n: nat) -> Seq<Option<Vec<u8>>>
    decreases given.len(),
{
    if given.len() == 0 {
        Seq::new(n, |i: int| None::<Vec<u8>>)
    } else {
        let prev = placed(given.drop_last(), n);
        let (idx, data) = given.last();
        if (idx as nat) < n {
            prev.update(idx as int, Some(data))
        } else {
            prev
        }
    }
}

/// The message id recorded for block `b`: the last entry for it wins.
pub open spec fn message_for(ids: Seq<(u8, i32)>, b: u8) -> Option<i32>
    decreases ids.len(),
{
    if ids.len() == 0 {
        None
    } else if ids.last().0 == b {
        Some(ids.last().1)
    } else {
        message_for(ids.drop_last(), b)
    }
}

/// `a` and `b` hold the same blocks, by value.
pub open spec fn same_views(a: Seq<Option<Vec<u8>>>, b: Seq<Option<Vec<u8>>>) -> bool {
    &&& a.len() == b.len()
    &&& forall|i: int| 0 <= i < a.len() ==> (#[trigger] a[i]).is_some() == b[i].is_some()
    &&& forall|i: int| 0 <= i < a.len() && (#[trigger] a[i]).is_some() ==> a[i].unwrap()@ == b[i].unwrap()@
}

proof fn lemma_same_views_count(a: Seq<Option<Vec<u8>>>, b: Seq<Option<Vec<u8>>>, m: int)
    requires
        same_views(a, b),
        m <= a.len(),
    ensures
        present_count(a, m) == present_count(b, m),
    decreases m,
{
    if m > 0 {
        lemma_same_views_count(a, b, m - 1);
        assert(a[m - 1].is_some() == b[m - 1].is_some());
    }
}

proof fn lemma_same_views(a: Seq<Option<Vec<u8>>>, b: Seq<Option<Vec<u8>>>, k: nat, n: nat)
    requires
        same_views(a, b),
    ensures
        present_count(a, a.len() as int) == present_count(b, b.len() as int),
        forall|d: Seq<u8>| matches_encoding(a, d, k, n) == #[trigger] matches_encoding(b, d, k, n),
{
    lemma_same_views_count(a, b, a.len() as int);
    assert forall|d: Seq<u8>| matches_encoding(a, d, k, n) == #[trigger] matches_encoding(b, d, k, n) by {
        if matches_encoding(a, d, k, n) {
            assert forall|i: int| 0 <= i < b.len() && #[trigger] b[i].is_some() implies b[i].unwrap()@ == shard(d, k, n, i) by {
                assert(a[i].is_some());
            }
        }
        if matches_encoding(b, d, k, n) {
            assert forall|i: int| 0 <= i < a.len() && #[trigger] a[i].is_some() implies a[i].unwrap()@ == shard(d, k, n, i) by {
                assert(b[i].is_some());
            }
        }
    }
}

proof fn lemma_placed_len(given: Seq<(u8, Vec<u8>)>, n: nat)
    ensures
        placed(given, n).len() == n,
    decreases given.len(),
{
    if given.len() > 0 {
        lemma_placed_len(given.drop_last(), n);
    }
}

/// Builds stripes and puts them back together.
pub struct StripeManager {
    encoder: Encoder,
    num_accounts: usize,
}

impl StripeManager {
    pub closed spec fn k(&self) -> nat {
        self.encoder.k()
    }

    pub closed spec fn n(&self) -> nat {
        self.encoder.n()
    }

    pub closed spec fn accounts(&self) -> nat {
        self.num_accounts as nat
    }

    /// `1 <= K < N <= accounts <= 256`.
    pub open spec fn wf(&self) -> bool {
        &&& 1 <= self.k() < self.n() <= self.accounts() <= MAX_ACCOUNTS
        &&& self.n() <= 255
    }

    pub closed spec fn encoder_view(&self) -> Encoder {
        self.encoder
    }

    /// A manager for K = `data_shards` of N = `total_shards` blocks over
    /// `num_accounts` accounts.
    pub fn new(data_shards: usize, total_shards: usize, num_accounts: usize) -> (r: Result<Self, Error>)
        ensures
            num_accounts == 0 || num_accounts < total_shards ==> r == Err::<Self, Error>(
                Error::NotEnoughAccounts { accounts: num_accounts, total_shards }),
            !(num_accounts == 0 || num_accounts < total_shards) && num_accounts > MAX_ACCOUNTS
                ==> r == Err::<Self, Error>(Error::Config),
            !(num_accounts == 0 || num_accounts < total_shards) && num_accounts <= MAX_ACCOUNTS
                && !(1 <= data_shards < total_shards <= 255) ==> r == Err::<Self, Error>(
                Error::InvalidShardConfig { data_shards, total_shards }),
            r.is_ok() <==> (1 <= data_shards < total_shards <= num_accounts <= MAX_ACCOUNTS && total_shards <= 255),
            r.is_ok() ==> {
                let m = r.unwrap();
                &&& m.wf()
                &&& m.k() == data_shards
                &&& m.n() == total_shards
                &&& m.accounts() == num_accounts
            },
    {
        if num_accounts == 0 || num_accounts < total_shards {
            return Err(Error::NotEnoughAccounts { accounts: num_accounts, total_shards });
        }
        if num_accounts > MAX_ACCOUNTS {
            return Err(Error::Config);
        }
        let encoder = Encoder::new(data_shards, total_shards)?;
        Ok(StripeManager { encoder, num_accounts })
    }

    /// Encodes `data` and places its blocks for stripe number `stripe_index`.
    pub fn create_stripe(&self, chunk_id: String, data: &[u8], stripe_index: u64) -> (r: Result<Stripe, Error>)
        requires
            self.wf(),
            data@.len() + 255 <= usize::MAX,
        ensures
            r.is_ok(),
            r.unwrap().chunk_id == chunk_id,
            r.unwrap().data_count == self.k(),
            r.unwrap().blocks@.len() == self.n(),
            forall|b: int| 0 <= b < self.n() ==> (#[trigger] r.unwrap().blocks@[b])@ == shard(data@, self.k(), self.n(), b),
            forall|b: int| 0 <= b < self.n() ==> (#[trigger] r.unwrap().blocks@[b])@.len() == block_len(data@.len(), self.k()),
            r.unwrap().assignments@.len() == self.n(),
            forall|b: int| 0 <= b < self.n() ==>
                #[trigger] r.unwrap().assignments@[b] == placement(b, stripe_index as int, self.accounts() as int),
    {
        let blocks = self.encoder.encode(data);
        let assignments = self.get_assignments(stripe_index);
        Ok(Stripe { chunk_id, blocks, assignments, data_count: self.encoder.data_shards() })
    }

    /// The account of each block of stripe number `stripe_index`: block `b`
    /// goes to account `(b + stripe_index) mod num_accounts`.
    pub fn get_assignments(&self, stripe_index: u64) -> (r: Vec<u8>)
        requires
            self.wf(),
        ensures
            r@.len() == self.n(),
            forall|b: int| 0 <= b < self.n() ==> #[trigger] r@[b] == placement(b, stripe_index as int, self.accounts() as int),
    {
        let n = self.encoder.total_shards();
        let a = self.num_accounts;
        let rotation = (stripe_index % (a as u64)) as usize;
        let mut r: Vec<u8> = Vec::with_capacity(n);
        let mut b: usize = 0;
        while b < n
            invariant
                n == self.n(),
                a == self.accounts(),
                self.wf(),
                rotation == stripe_index as int % a as int,
                b <= n,
                r@.len() == b,
                forall|c: int| 0 <= c < b ==> #[trigger] r@[c] == placement(c, stripe_index as int, a as int),
            decreases n - b,
        {
            let acct = (b + rotation) % a;
            proof {
                vstd::arithmetic::div_mod::lemma_add_mod_noop(b as int, stripe_index as int, a as int);
                vstd::arithmetic::div_mod::lemma_small_mod(b as nat, a as nat);
            }
            r.push(acct as u8);
            b = b + 1;
        }
        r
    }

    /// The chunk bytes rebuilt from `(block index, bytes)` pairs.
    pub fn reconstruct(&self, blocks: &[(u8, Vec<u8>)], len: usize) -> (r: Result<Vec<u8>, Error>)
        requires
            self.wf(),
        ensures
            (exists|j: int| 0 <= j < blocks@.len() && #[trigger] blocks@[j].0 >= self.n()) <==>
                r matches Err(Error::BlockIndexOutOfRange { .. }),
            (forall|j: int| 0 <= j < blocks@.len() ==> #[trigger] blocks@[j].0 < self.n())
                && present_count(placed(blocks@, self.n()), self.n() as int) < self.k()
                ==> r == Err::<Vec<u8>, Error>(Error::StripeUnrecoverable {
                    available: present_count(placed(blocks@, self.n()), self.n() as int) as usize,
                    required: self.k() as usize }),
            forall|d: Seq<u8>|
                (forall|j: int| 0 <= j < blocks@.len() ==> #[trigger] blocks@[j].0 < self.n())
                && #[trigger] matches_encoding(placed(blocks@, self.n()), d, self.k(), self.n())
                && present_count(placed(blocks@, self.n()), self.n() as int) >= self.k()
                && d.len() == len ==> r.is_ok() && r.unwrap()@ == d,
    {
        let n = self.encoder.total_shards();
        let mut j: usize = 0;
        while j < blocks.len()
            invariant
                n == self.n(),
                j <= blocks@.len(),
                forall|t: int| 0 <= t < j ==> #[trigger] blocks@[t].0 < n,
            decreases blocks@.len() - j,
        {
            if blocks[j].0 as usize >= n {
                return Err(Error::BlockIndexOutOfRange { index: blocks[j].0 as usize, total_shards: n });
            }
            j = j + 1;
        }
        let mut shards: Vec<Option<Vec<u8>>> = Vec::new();
        let mut i: usize = 0;
        while i < n
            invariant
                i <= n,
                shards@ == Seq::new(i as nat, |t: int| None::<Vec<u8>>),
            decreases n - i,
        {
            shards.push(None::<Vec<u8>>);
            i = i + 1;
            assert(shards@ =~= Seq::new(i as nat, |t: int| None::<Vec<u8>>));
        }
        assert(placed(blocks@.subrange(0, 0), n as nat) =~= shards@);
        let mut j: usize = 0;
        while j < blocks.len()
            invariant
                n == self.n(),
                j <= blocks@.len(),
                forall|t: int| 0 <= t < blocks@.len() ==> #[trigger] blocks@[t].0 < n,
                same_views(shards@, placed(blocks@.subrange(0, j as int), n as nat)),
            decreases blocks@.len() - j,
        {
            let idx = blocks[j].0 as usize;
            let copy = copy_range(blocks[j].1.as_slice(), 0, blocks[j].1.len());
            proof {
                assert(blocks@[j as int].1@.subrange(0, blocks@[j as int].1@.len() as int) =~= blocks@[j as int].1@);
                lemma_placed_len(blocks@.subrange(0, j as int), n as nat);
                assert(blocks@.subrange(0, j as int + 1).drop_last() =~= blocks@.subrange(0, j as int));
            }
            let ghost old_shards = shards@;
            shards.set(idx, Some(copy));
            proof {
                let pre = placed(blocks@.subrange(0, j as int), n as nat);
                let post = placed(blocks@.subrange(0, j as int + 1), n as nat);
                assert(post == pre.update(idx as int, Some(blocks@[j as int].1)));
                assert forall|i: int| 0 <= i < shards@.len() && (#[trigger] shards@[i]).is_some()
                    implies shards@[i].unwrap()@ == post[i].unwrap()@ by {
                    if i != idx as int {
                        assert(shards@[i] == old_shards[i]);
                    }
                }
            }
            j = j + 1;
        }
        assert(blocks@.subrange(0, blocks@.len() as int) =~= blocks@);
        proof {
            lemma_placed_len(blocks@, n as nat);
            lemma_same_views(shards@, placed(blocks@, n as nat), self.k(), self.n());
        }
        self.encoder.decode(&shards, len)
    }

    /// The stripe's description once uploaded: `message_ids` pairs block
    /// indices with the messages that hold them; blocks without one failed.
    pub fn to_stripe_info(&self, stripe: &Stripe, message_ids: &[(u8, i32)]) -> (r: StripeInfo)
        requires
            self.wf(),
            stripe.assignments@.len() >= self.n(),
        ensures
            r.data_count == self.k(),
            r.parity_count == self.n() - self.k(),
            r.block_size == (if stripe.blocks@.len() == 0 { 0 } else { stripe.blocks@[0]@.len() as u64 }),
            r.blocks@.len() == self.n(),
            forall|b: int| 0 <= b < self.n() ==> {
                &&& (#[trigger] r.blocks@[b]).account_id == stripe.assignments@[b]
                &&& r.blocks@[b].block_index == b
                &&& r.blocks@[b].message_id == message_for(message_ids@, b as u8)
                &&& r.blocks@[b].uploaded_at.is_some() == r.blocks@[b].message_id.is_some()
            },
    {
        let n = self.encoder.total_shards();
        let k = self.encoder.data_shards();
        let block_size = stripe.block_size() as u64;
        let mut blocks: Vec<BlockLocation> = Vec::new();
        let mut b: usize = 0;
        while b < n
            invariant
                n == self.n(),
                n <= 255,
                n <= stripe.assignments@.len(),
                b <= n,
                blocks@.len() == b,
                forall|c: int| 0 <= c < b ==> {
                    &&& (#[trigger] blocks@[c]).account_id == stripe.assignments@[c]
                    &&& blocks@[c].block_index == c
                    &&& blocks@[c].message_id == message_for(message_ids@, c as u8)
                    &&& blocks@[c].uploaded_at.is_some() == blocks@[c].message_id.is_some()
                },
            decreases n - b,
        {
            let message_id = lookup_message(message_ids, b as u8);
            let uploaded_at = match message_id {
                Some(_) => Some(now_unix_secs()),
                None => None,
            };
            blocks.push(BlockLocation {
                account_id: stripe.assignments[b],
                message_id,
                block_index: b as u8,
                uploaded_at,
            });
            b = b + 1;
        }
        StripeInfo { blocks, data_count: k as u8, parity_count: (n - k) as u8, block_size }
    }

    /// K.
    pub fn data_shards(&self) -> (r: usize)
        ensures
            r == self.k(),
    {
        self.encoder.data_shards()
    }

    /// N.
    pub fn total_shards(&self) -> (r: usize)
        ensures
            r == self.n(),
    {
        self.encoder.total_shards()
    }

    /// N - K.
    pub fn parity_shards(&self) -> (r: usize)
        requires
            self.wf(),
        ensures
            r == self.n() - self.k(),
    {
        self.encoder.total_shards() - self.encoder.data_shards()
    }

    /// Number of accounts.
    pub fn num_accounts(&self) -> (r: usize)
        ensures
            r == self.accounts(),
    {
        self.num_accounts
    }
}

/// The message id of block `b` in `ids`; the last entry for it wins.
fn lookup_message(ids: &[(u8, i32)], b: u8) -> (r: Option<i32>)
    ensures
        r == message_for(ids@, b),
{
    let mut j: usize = ids.len();
    assert(ids@.subrange(0, j as int) =~= ids@);
    while j > 0
        invariant
            j <= ids@.len(),
            message_for(ids@, b) == message_for(ids@.subrange(0, j as int), b),
        decreases j,
    {
        let ghost pre = ids@.subrange(0, j as int);
        assert(pre.drop_last() =~= ids@.subrange(0, j as int - 1));
        if ids[j - 1].0 == b {
            return Some(ids[j - 1].1);
        }
        j = j - 1;
    }
    None
}

} // verus!
