//! Reed–Solomon erasure coding of a chunk into K data and N − K parity blocks.
//!
//! The chunk is zero-padded to K equal blocks of ceil(len / K) bytes, which
//! are the data blocks; the parity blocks come from the Reed–Solomon code
//! over GF(2^8), and any K of the N blocks give the chunk back. The chunk's
//! length travels beside the stripe and cuts the padding off again.

use vstd::prelude::*;
use crate::bytes::{append_bytes, copy_range};
use crate::error::Error;

verus! {

/// Most blocks a stripe can have over GF(2^8).
pub const MAX_SHARDS: usize = 256;

/// The views of a list of blocks.
pub open spec fn block_views(v: Seq<Vec<u8>>) -> Seq<Seq<u8>> {
    v.map_values(|b: Vec<u8>| b@)
}

/// What the Reed–Solomon code over GF(2^8) computes as the `parity` parity
/// blocks of the data blocks `data`.
pub uninterp spec fn rs_parity(data: Seq<Seq<u8>>, parity: nat) -> Seq<Seq<u8>>;

/// Block `i` of the code word of `data`: a data block, then the parity blocks.
pub open spec fn rs_block(data: Seq<Seq<u8>>, parity: nat, i: int) -> Seq<u8> {
    if i < data.len() { data[i] } else { rs_parity(data, parity)[i - data.len()] }
}

/// `data` are `k` nonempty blocks of one length, and every present shard is
/// the block of the full code word at its index; at least `k` are present.
pub open spec fn rs_consistent(shards: Seq<Option<Vec<u8>>>, data: Seq<Seq<u8>>, k: nat, parity: nat) -> bool {
    &&& data.len() == k
    &&& k >= 1
    &&& data[0].len() >= 1
    &&& forall|i: int| 0 <= i < k ==> (#[trigger] data[i]).len() == data[0].len()
    &&& shards.len() == k + parity
    &&& forall|i: int| 0 <= i < shards.len() && (#[trigger] shards[i]).is_some()
        ==> shards[i].unwrap()@ == rs_block(data, parity, i)
    &&& present_count(shards, shards.len() as int) >= k
}

/// Relies on reed_solomon_erasure::galois_8::ReedSolomon (new, encode): for
/// 1 to 255 data blocks of one nonempty length and at least one parity
/// block, 256 in all, the parity blocks depend on the data alone and have
/// the data blocks' length.
#[verifier::external_body]
fn rs_encode(data: &Vec<Vec<u8>>, parity: usize) -> (r: Vec<Vec<u8>>)
    requires
        data@.len() >= 1,
        parity >= 1,
        data@.len() + parity <= MAX_SHARDS,
        data@[0]@.len() >= 1,
        forall|i: int| 0 <= i < data@.len() ==> (#[trigger] data@[i])@.len() == data@[0]@.len(),
    ensures
        r@.len() == parity,
        block_views(r@) == rs_parity(block_views(data@), parity as nat),
        forall|j: int| 0 <= j < parity ==> (#[trigger] r@[j])@.len() == data@[0]@.len(),
{
    let k = data.len();
    let mut shards = data.clone();
    shards.resize(k + parity, vec![0u8; data[0].len()]);
    let rs = reed_solomon_erasure::galois_8::ReedSolomon::new(k, parity).unwrap();
    rs.encode(&mut shards).unwrap();
    shards.split_off(k)
}

/// Relies on reed_solomon_erasure::galois_8::ReedSolomon (new,
/// reconstruct_data): from any `k` present shards of one nonempty length out
/// of a code word, it rebuilds the `k` data blocks.
#[verifier::external_body]
fn rs_reconstruct(shards: Vec<Option<Vec<u8>>>, k: usize, parity: usize) -> (r: Option<Vec<Vec<u8>>>)
    requires
        k >= 1,
        parity >= 1,
        k + parity <= MAX_SHARDS,
        shards@.len() == k + parity,
    ensures
        forall|d: Seq<Seq<u8>>| #[trigger] rs_consistent(shards@, d, k as nat, parity as nat)
            ==> r.is_some() && block_views(r.unwrap()@) == d,
{
    let mut shards = shards;
    let rs = reed_solomon_erasure::galois_8::ReedSolomon::new(k, parity).ok()?;
    rs.reconstruct_data(&mut shards).ok()?;
    shards.truncate(k);
    shards.into_iter().collect()
}

/// Size of each block for a chunk of `len` bytes over `k` data blocks.
pub open spec fn block_len(len: nat, k: nat) -> nat {
    ((len + k - 1) as nat / k) as nat
}

/// The chunk followed by the zeros that fill `k` blocks.
pub open spec fn padded(data: Seq<u8>, k: nat) -> Seq<u8> {
    data + Seq::new((k * block_len(data.len(), k) - data.len()) as nat, |i: int| 0u8)
}

/// Data block `i` of the chunk.
pub open spec fn data_block(data: Seq<u8>, k: nat, i: int) -> Seq<u8> {
    let bs = block_len(data.len(), k);
    padded(data, k).subrange(i * bs, (i + 1) * bs)
}

/// The `k` data blocks of the chunk.
pub open spec fn data_blocks(data: Seq<u8>, k: nat) -> Seq<Seq<u8>> {
    Seq::new(k, |i: int| data_block(data, k, i))
}

/// Block `i` of the stripe of `data` with `k` data blocks of `n`.
pub open spec fn shard(data: Seq<u8>, k: nat, n: nat, i: int) -> Seq<u8> {
    if i < k {
        data_block(data, k, i)
    } else if block_len(data.len(), k) == 0 {
        Seq::empty()
    } else {
        rs_parity(data_blocks(data, k), (n - k) as nat)[i - k]
    }
}

/// Every block present in `shards` is the block of `data`'s stripe.
pub open spec fn matches_encoding(shards: Seq<Option<Vec<u8>>>, data: Seq<u8>, k: nat, n: nat) -> bool {
    forall|i: int| 0 <= i < shards.len() && #[trigger] shards[i].is_some() ==> shards[i].unwrap()@ == shard(data, k, n, i)
}

/// Number of present blocks among the first `n`.
pub open spec fn present_count(shards: Seq<Option<Vec<u8>>>, n: int) -> nat
    decreases n,
{
    if n <= 0 {
        0
    } else {
        present_count(shards, n - 1) + if shards[n - 1].is_some() { 1nat } else { 0nat }
    }
}

proof fn lemma_block_len(len: nat, k: nat)
    requires
        k > 0,
    ensures
        k * block_len(len, k) >= len,
        len > 0 ==> k * block_len(len, k) < len + k,
        len > 0 ==> block_len(len, k) >= 1,
        len == 0 ==> block_len(len, k) == 0,
{
    let x = (len + k - 1) as int;
    vstd::arithmetic::div_mod::lemma_fundamental_div_mod(x, k as int);
    vstd::arithmetic::div_mod::lemma_mod_bound(x, k as int);
    let q = x / (k as int);
    if len > 0 {
        assert(q >= 1) by (nonlinear_arith)
            requires x == k * q + x % (k as int), 0 <= x % (k as int) < k, x >= k, k > 0;
    } else {
        assert(q == 0) by (nonlinear_arith)
            requires x == k * q + x % (k as int), 0 <= x % (k as int) < k, x == k - 1, k > 0;
    }
}

proof fn lemma_index(i: int, j: int, bs: int, k: int)
    requires
        0 <= i < k,
        0 <= j <= bs,
    ensures
        0 <= i * bs + j <= k * bs,
        (i + 1) * bs <= k * bs,
        i * bs + bs == (i + 1) * bs,
        0 <= i * bs,
{
    assert(0 <= i * bs + j <= k * bs) by (nonlinear_arith)
        requires 0 <= i < k, 0 <= j <= bs;
    assert((i + 1) * bs <= k * bs) by (nonlinear_arith)
        requires 0 <= i < k, 0 <= bs;
    assert(i * bs + bs == (i + 1) * bs) by (nonlinear_arith);
    assert(0 <= i * bs) by (nonlinear_arith)
        requires 0 <= i, 0 <= bs;
}

/// Splits chunks into K data and N − K parity blocks and joins them back.
pub struct Encoder {
    data_shards: usize,
    total_shards: usize,
}

impl Encoder {
    pub closed spec fn k(&self) -> nat {
        self.data_shards as nat
    }

    pub closed spec fn n(&self) -> nat {
        self.total_shards as nat
    }

    /// At least one parity block, and a block index fits a byte.
    pub open spec fn wf(&self) -> bool {
        1 <= self.k() < self.n() <= 255
    }

    /// An encoder for `data_shards` data blocks out of `total_shards`.
    pub fn new(data_shards: usize, total_shards: usize) -> (r: Result<Self, Error>)
        ensures
            (1 <= data_shards < total_shards <= 255) <==> r.is_ok(),
            r.is_ok() ==> r.unwrap().wf() && r.unwrap().k() == data_shards && r.unwrap().n() == total_shards,
            r.is_err() ==> r == Err::<Self, Error>(Error::InvalidShardConfig { data_shards, total_shards }),
    {
        if data_shards >= 1 && data_shards < total_shards && total_shards <= 255 {
            Ok(Encoder { data_shards, total_shards })
        } else {
            Err(Error::InvalidShardConfig { data_shards, total_shards })
        }
    }

    /// K.
    pub fn data_shards(&self) -> (r: usize)
        ensures
            r == self.k(),
    {
        self.data_shards
    }

    /// N.
    pub fn total_shards(&self) -> (r: usize)
        ensures
            r == self.n(),
    {
        self.total_shards
    }

    /// The N blocks of the stripe of `data`, each ceil(len / K) bytes.
    pub fn encode(&self, data: &[u8]) -> (r: Vec<Vec<u8>>)
        requires
            self.wf(),
            data@.len() + 255 <= usize::MAX,
        ensures
            r@.len() == self.n(),
            forall|i: int| 0 <= i < self.n() ==> (#[trigger] r@[i])@ == shard(data@, self.k(), self.n(), i),
            forall|i: int| 0 <= i < self.n() ==> (#[trigger] r@[i])@.len() == block_len(data@.len(), self.k()),
    {
        let k = self.data_shards;
        let n = self.total_shards;
        let len = data.len();
        let bs = (len + k - 1) / k;
        let ghost d = data@;
        proof {
            lemma_block_len(len as nat, k as nat);
            assert(bs == block_len(len as nat, k as nat));
        }
        proof {
            if len > 0 {
                assert(k * bs < len + k);
            } else {
                assert(k * bs == 0) by (nonlinear_arith) requires bs == 0;
            }
        }
        let total = k * bs;
        let mut f = copy_range(data, 0, len);
        assert(data@.subrange(0, len as int) =~= d);
        while f.len() < total
            invariant
                len <= f@.len() <= total,
                f@.subrange(0, len as int) == d,
                forall|i: int| len <= i < f@.len() ==> f@[i] == 0u8,
            decreases total - f@.len(),
        {
            f.push(0u8);
            assert(f@.subrange(0, len as int) =~= f@.subrange(0, f@.len() - 1).subrange(0, len as int));
        }
        let ghost fr = padded(d, k as nat);
        assert(f@ =~= fr) by {
            assert forall|i: int| 0 <= i < f@.len() implies f@[i] == fr[i] by {
                if i < len {
                    assert(f@[i] == f@.subrange(0, len as int)[i]);
                }
            }
        }
        let mut blocks: Vec<Vec<u8>> = Vec::new();
        let mut i: usize = 0;
        while i < k
            invariant
                f@ == fr,
                fr == padded(d, k as nat),
                fr.len() == k * bs,
                k * bs <= usize::MAX,
                bs == block_len(d.len(), k as nat),
                k == self.k(),
                n == self.n(),
                i <= k,
                blocks@.len() == i,
                forall|t: int| 0 <= t < i ==> (#[trigger] blocks@[t])@ == shard(d, k as nat, n as nat, t),
                forall|t: int| 0 <= t < i ==> (#[trigger] blocks@[t])@.len() == bs,
            decreases k - i,
        {
            proof {
                lemma_index(i as int, 0, bs as int, k as int);
            }
            let b = copy_range(f.as_slice(), i * bs, i * bs + bs);
            assert(b@ == shard(d, k as nat, n as nat, i as int));
            blocks.push(b);
            assert(blocks@[i as int]@ == shard(d, k as nat, n as nat, i as int));
            i = i + 1;
        }
        assert(block_views(blocks@) =~= data_blocks(d, k as nat));
        let parity_count = n - k;
        if bs == 0 {
            while i < n
                invariant
                    k <= i <= n,
                    k == self.k(),
                    n == self.n(),
                    bs == 0,
                    bs == block_len(d.len(), k as nat),
                    blocks@.len() == i,
                    forall|t: int| 0 <= t < i ==> (#[trigger] blocks@[t])@ == shard(d, k as nat, n as nat, t),
                    forall|t: int| 0 <= t < i ==> (#[trigger] blocks@[t])@.len() == bs,
                decreases n - i,
            {
                blocks.push(Vec::new());
                i = i + 1;
            }
            return blocks;
        }
        let parity = rs_encode(&blocks, parity_count);
        let ghost pv = rs_parity(block_views(blocks@), parity_count as nat);
        let mut j: usize = 0;
        while j < parity_count
            invariant
                k == self.k(),
                n == self.n(),
                parity_count == n - k,
                bs >= 1,
                bs == block_len(d.len(), k as nat),
                j <= parity_count,
                parity@.len() == parity_count,
                block_views(parity@) == pv,
                pv == rs_parity(data_blocks(d, k as nat), (n - k) as nat),
                blocks@.len() == k + j,
                forall|t: int| 0 <= t < k + j ==> (#[trigger] blocks@[t])@ == shard(d, k as nat, n as nat, t),
                forall|t: int| 0 <= t < k + j ==> (#[trigger] blocks@[t])@.len() == bs,
                forall|t: int| 0 <= t < parity_count ==> (#[trigger] parity@[t])@.len() == bs,
            decreases parity_count - j,
        {
            let p = copy_range(parity[j].as_slice(), 0, parity[j].len());
            proof {
                assert(parity@[j as int]@.subrange(0, parity@[j as int]@.len() as int) =~= parity@[j as int]@);
                assert(pv[j as int] == parity@[j as int]@);
            }
            blocks.push(p);
            j = j + 1;
        }
        blocks
    }

    /// The `len`-byte chunk whose stripe the present blocks belong to.
    pub fn decode(&self, shards: &Vec<Option<Vec<u8>>>, len: usize) -> (r: Result<Vec<u8>, Error>)
        requires
            self.wf(),
            shards@.len() == self.n(),
        ensures
            present_count(shards@, self.n() as int) < self.k() ==> r == Err::<Vec<u8>, Error>(
                Error::StripeUnrecoverable { available: present_count(shards@, self.n() as int) as usize, required: self.k() as usize }),
            forall|d: Seq<u8>| #[trigger] matches_encoding(shards@, d, self.k(), self.n())
                && d.len() == len && present_count(shards@, self.n() as int) >= self.k()
                ==> r.is_ok() && r.unwrap()@ == d,
            r matches Err(Error::StripeUnrecoverable { .. }) || r == Err::<Vec<u8>, Error>(Error::CorruptStripe)
                || r.is_ok(),
    {
        let k = self.data_shards;
        let n = self.total_shards;
        let ghost s = shards@;
        let mut present: usize = 0;
        let mut copy: Vec<Option<Vec<u8>>> = Vec::new();
        let mut i: usize = 0;
        while i < n
            invariant
                s == shards@,
                n == s.len(),
                k == self.k(),
                i <= n,
                present == present_count(s, i as int),
                present <= i,
                copy@.len() == i,
                forall|t: int| 0 <= t < i ==> (#[trigger] copy@[t]).is_some() == s[t].is_some(),
                forall|t: int| 0 <= t < i && (#[trigger] copy@[t]).is_some() ==> copy@[t].unwrap()@ == s[t].unwrap()@,
            decreases n - i,
        {
            match &shards[i] {
                Some(b) => {
                    present = present + 1;
                    let c = copy_range(b.as_slice(), 0, b.len());
                    assert(b@.subrange(0, b@.len() as int) =~= b@);
                    copy.push(Some(c));
                },
                None => {
                    copy.push(None);
                },
            }
            i = i + 1;
        }
        if present < k {
            return Err(Error::StripeUnrecoverable { available: present, required: k });
        }
        if len == 0 {
            proof {
                assert forall|d: Seq<u8>| #[trigger] matches_encoding(s, d, k as nat, n as nat) && d.len() == len
                    implies Seq::<u8>::empty() == d by {
                    assert(d =~= Seq::<u8>::empty());
                }
            }
            return Ok(Vec::new());
        }
        proof {
            lemma_same_count(copy@, s, n as int);
        }
        let ghost cv = copy@;
        let blocks = match rs_reconstruct(copy, k, n - k) {
            Some(b) => b,
            None => {
                proof {
                    assert forall|d: Seq<u8>| #[trigger] matches_encoding(s, d, k as nat, n as nat) && d.len() == len
                        implies false by {
                        lemma_consistent(cv, s, d, k as nat, n as nat);
                    }
                }
                return Err(Error::CorruptStripe);
            },
        };
        if blocks.len() != k {
            proof {
                assert forall|d: Seq<u8>| #[trigger] matches_encoding(s, d, k as nat, n as nat) && d.len() == len
                    implies false by {
                    lemma_consistent(cv, s, d, k as nat, n as nat);
                }
            }
            return Err(Error::CorruptStripe);
        }
        let mut out: Vec<u8> = Vec::new();
        let mut t: usize = 0;
        while t < k
            invariant
                t <= k,
                k == self.k(),
                blocks@.len() == k,
                out@ == concat_blocks(block_views(blocks@), t as int),
            decreases k - t,
        {
            append_bytes(&mut out, blocks[t].as_slice());
            assert(block_views(blocks@)[t as int] == blocks@[t as int]@);
            t = t + 1;
        }
        if out.len() < len {
            proof {
                assert forall|d: Seq<u8>| #[trigger] matches_encoding(s, d, k as nat, n as nat) && d.len() == len
                    implies false by {
                    lemma_consistent(cv, s, d, k as nat, n as nat);
                    lemma_concat_data_blocks(d, k as nat);
                }
            }
            return Err(Error::CorruptStripe);
        }
        proof {
            assert forall|d: Seq<u8>| #[trigger] matches_encoding(s, d, k as nat, n as nat) && d.len() == len
                implies out@.subrange(0, len as int) == d by {
                lemma_consistent(cv, s, d, k as nat, n as nat);
                lemma_concat_data_blocks(d, k as nat);
                assert(padded(d, k as nat).subrange(0, len as int) =~= d);
            }
        }
        Ok(copy_range(out.as_slice(), 0, len))
    }
}

/// The first `t` blocks joined.
pub open spec fn concat_blocks(b: Seq<Seq<u8>>, t: int) -> Seq<u8>
    decreases t,
{
    if t <= 0 { Seq::empty() } else { concat_blocks(b, t - 1) + b[t - 1] }
}

proof fn lemma_shard_len(d: Seq<u8>, k: nat, n: nat, i: int)
    requires
        k > 0,
        0 <= i < k,
    ensures
        shard(d, k, n, i).len() == block_len(d.len(), k),
{
    lemma_block_len(d.len(), k);
    lemma_index(i, 0, block_len(d.len(), k) as int, k as int);
}

proof fn lemma_same_count(a: Seq<Option<Vec<u8>>>, b: Seq<Option<Vec<u8>>>, m: int)
    requires
        a.len() == b.len(),
        m <= a.len(),
        forall|t: int| 0 <= t < a.len() ==> (#[trigger] a[t]).is_some() == b[t].is_some(),
    ensures
        present_count(a, m) == present_count(b, m),
    decreases m,
{
    if m > 0 {
        lemma_same_count(a, b, m - 1);
        assert(a[m - 1].is_some() == b[m - 1].is_some());
    }
}

proof fn lemma_consistent(c: Seq<Option<Vec<u8>>>, s: Seq<Option<Vec<u8>>>, d: Seq<u8>, k: nat, n: nat)
    requires
        1 <= k < n,
        c.len() == n,
        s.len() == n,
        d.len() > 0,
        forall|t: int| 0 <= t < n ==> (#[trigger] c[t]).is_some() == s[t].is_some(),
        forall|t: int| 0 <= t < n && (#[trigger] c[t]).is_some() ==> c[t].unwrap()@ == s[t].unwrap()@,
        matches_encoding(s, d, k, n),
        present_count(c, n as int) >= k,
    ensures
        rs_consistent(c, data_blocks(d, k), k, (n - k) as nat),
{
    let db = data_blocks(d, k);
    lemma_block_len(d.len(), k);
    lemma_shard_len(d, k, n, 0);
    assert forall|i: int| 0 <= i < k implies (#[trigger] db[i]).len() == db[0].len() by {
        lemma_shard_len(d, k, n, i);
    }
    assert forall|i: int| 0 <= i < c.len() && (#[trigger] c[i]).is_some()
        implies c[i].unwrap()@ == rs_block(db, (n - k) as nat, i) by {
        assert(s[i].is_some());
        assert(s[i].unwrap()@ == shard(d, k, n, i));
    }
}

proof fn lemma_concat_data_blocks(d: Seq<u8>, k: nat)
    requires
        k > 0,
    ensures
        concat_blocks(data_blocks(d, k), k as int) == padded(d, k),
{
    lemma_block_len(d.len(), k);
    let bs = block_len(d.len(), k);
    lemma_concat_prefix(d, k, k as int);
    assert(padded(d, k).subrange(0, (k * bs) as int) =~= padded(d, k));
}

proof fn lemma_concat_prefix(d: Seq<u8>, k: nat, t: int)
    requires
        k > 0,
        0 <= t <= k,
    ensures
        concat_blocks(data_blocks(d, k), t) == padded(d, k).subrange(0, t * block_len(d.len(), k)),
    decreases t,
{
    lemma_block_len(d.len(), k);
    let bs = block_len(d.len(), k);
    if t > 0 {
        lemma_concat_prefix(d, k, t - 1);
        lemma_index(t - 1, 0, bs as int, k as int);
        assert(padded(d, k).subrange(0, t * bs) =~= padded(d, k).subrange(0, (t - 1) * bs) + data_block(d, k, t - 1));
    } else {
        assert(0 * bs == 0);
        assert(padded(d, k).subrange(0, 0) =~= Seq::<u8>::empty());
    }
}

} // verus!
