//! Chunk locators and file manifests.

use vstd::prelude::*;

verus! {

/// Locator of a chunk stored as a single remote blob.
#[derive(Clone, Debug, PartialEq, Eq)]
pub struct ChunkRef {
    /// Content-based id.
    pub id: String,
    /// Stored (encrypted) size in bytes.
    pub size: u64,
    /// Remote message holding the blob.
    pub message_id: i32,
    /// Offset of the chunk in the file.
    pub offset: u64,
    /// Plaintext size.
    pub original_size: u64,
    /// Whether the stored bytes are compressed.
    pub compressed: bool,
}

/// Sum of the stored sizes of the chunks.
pub open spec fn stored_total(chunks: Seq<ChunkRef>) -> int
    decreases chunks.len(),
{
    if chunks.len() == 0 {
        0
    } else {
        stored_total(chunks.drop_last()) + chunks.last().size
    }
}

/// Sum of the plaintext sizes of the first `n` chunks: where chunk `n` starts.
pub open spec fn start_of(chunks: Seq<ChunkRef>, n: int) -> int
    decreases n,
{
    if n <= 0 {
        0
    } else {
        start_of(chunks, n - 1) + chunks[n - 1].original_size
    }
}

/// Chunk `i` spans the plaintext byte at `offset`.
pub open spec fn covers(chunks: Seq<ChunkRef>, i: int, offset: int) -> bool {
    start_of(chunks, i) <= offset < start_of(chunks, i + 1)
}

/// Ordered list of the chunks of one file.
#[derive(Clone, Debug)]
pub struct ChunkManifest {
    /// File version this manifest describes.
    pub version: u64,
    /// Plaintext size of the file.
    pub total_size: u64,
    /// The chunks in file order.
    pub chunks: Vec<ChunkRef>,
    /// Content hash of the whole file.
    pub file_hash: String,
}

proof fn lemma_start_monotone(chunks: Seq<ChunkRef>, a: int, b: int)
    requires
        0 <= a <= b <= chunks.len(),
    ensures
        start_of(chunks, a) <= start_of(chunks, b),
    decreases b - a,
{
    if a < b {
        lemma_start_monotone(chunks, a, b - 1);
    }
}

impl ChunkManifest {
    /// An empty manifest of the given version.
    pub fn new(version: u64) -> (r: Self)
        ensures
            r.version == version,
            r.total_size == 0,
            r.chunks@.len() == 0,
            r.file_hash@.len() == 0,
    {
        ChunkManifest { version, total_size: 0, chunks: Vec::new(), file_hash: String::new() }
    }

    /// Total stored size of the chunks.
    pub fn stored_size(&self) -> (r: u64)
        requires
            stored_total(self.chunks@) <= u64::MAX,
        ensures
            r == stored_total(self.chunks@),
    {
        let mut total: u64 = 0;
        let mut i: usize = 0;
        while i < self.chunks.len()
            invariant
                i <= self.chunks@.len(),
                stored_total(self.chunks@) <= u64::MAX,
                total == stored_total(self.chunks@.subrange(0, i as int)),
            decreases self.chunks@.len() - i,
        {
            proof {
                let s = self.chunks@;
                assert(s.subrange(0, i as int + 1).drop_last() =~= s.subrange(0, i as int));
                lemma_stored_prefix(s, i as int + 1);
            }
            total = total + self.chunks[i].size;
            i = i + 1;
        }
        assert(self.chunks@.subrange(0, i as int) =~= self.chunks@);
        total
    }

    /// Number of chunks.
    pub fn chunk_count(&self) -> (r: usize)
        ensures
            r == self.chunks@.len(),
    {
        self.chunks.len()
    }

    /// The first chunk whose plaintext range holds `offset`, with its index.
    pub fn chunk_at_offset(&self, offset: u64) -> (r: Option<(usize, &ChunkRef)>)
        requires
            start_of(self.chunks@, self.chunks@.len() as int) <= u64::MAX,
        ensures
            r.is_some() <==> exists|i: int|
                0 <= i < self.chunks@.len() && #[trigger] covers(self.chunks@, i, offset as int),
            r.is_some() ==> {
                let i = r.unwrap().0 as int;
                &&& 0 <= i < self.chunks@.len()
                &&& *r.unwrap().1 == self.chunks@[i]
                &&& covers(self.chunks@, i, offset as int)
                &&& forall|j: int| 0 <= j < i ==> !covers(self.chunks@, j, offset as int)
            },
    {
        let ghost s = self.chunks@;
        let mut current: u64 = 0;
        let mut i: usize = 0;
        while i < self.chunks.len()
            invariant
                s == self.chunks@,
                i <= s.len(),
                start_of(s, s.len() as int) <= u64::MAX,
                current == start_of(s, i as int),
                forall|j: int| 0 <= j < i ==> !covers(s, j, offset as int),
            decreases s.len() - i,
        {
            proof {
                lemma_start_monotone(s, i as int + 1, s.len() as int);
            }
            let next = current + self.chunks[i].original_size;
            if offset >= current && offset < next {
                assert(covers(s, i as int, offset as int));
                return Some((i, &self.chunks[i]));
            }
            current = next;
            i = i + 1;
        }
        None
    }
}

proof fn lemma_stored_prefix(s: Seq<ChunkRef>, k: int)
    requires
        0 <= k <= s.len(),
    ensures
        stored_total(s.subrange(0, k)) <= stored_total(s),
    decreases s.len() - k,
{
    if k < s.len() {
        lemma_stored_prefix(s, k + 1);
        assert(s.subrange(0, k + 1).drop_last() =~= s.subrange(0, k));
    } else {
        assert(s.subrange(0, k) =~= s);
    }
}

/// Where one erasure-coded block of a stripe lives.
#[derive(Clone, Debug)]
pub struct BlockLocation {
    /// Account holding the block.
    pub account_id: u8,
    /// Remote message holding the block, once uploaded.
    pub message_id: Option<i32>,
    /// Position of the block in the stripe.
    pub block_index: u8,
    /// Upload time in seconds since the epoch, once uploaded.
    pub uploaded_at: Option<i64>,
}

/// Number of blocks in `blocks` that have a remote message.
pub open spec fn uploaded_count(blocks: Seq<BlockLocation>) -> nat
    decreases blocks.len(),
{
    if blocks.len() == 0 {
        0
    } else {
        uploaded_count(blocks.drop_last()) + if blocks.last().message_id.is_some() { 1nat } else { 0nat }
    }
}

/// The blocks of one chunk's stripe.
#[derive(Clone, Debug)]
pub struct StripeInfo {
    /// One location per block.
    pub blocks: Vec<BlockLocation>,
    /// Number of data blocks (K).
    pub data_count: u8,
    /// Number of parity blocks (N - K).
    pub parity_count: u8,
    /// Size of each block in bytes.
    pub block_size: u64,
}

impl StripeInfo {
    /// A stripe description with no blocks yet.
    pub fn new(data_count: u8, parity_count: u8, block_size: u64) -> (r: Self)
        ensures
            r.data_count == data_count,
            r.parity_count == parity_count,
            r.block_size == block_size,
            r.blocks@.len() == 0,
    {
        StripeInfo { blocks: Vec::new(), data_count, parity_count, block_size }
    }

    /// Number of blocks that have been uploaded.
    pub fn uploaded_blocks(&self) -> (r: usize)
        ensures
            r == uploaded_count(self.blocks@),
    {
        let mut n: usize = 0;
        let mut i: usize = 0;
        while i < self.blocks.len()
            invariant
                i <= self.blocks@.len(),
                n <= i,
                n == uploaded_count(self.blocks@.subrange(0, i as int)),
            decreases self.blocks@.len() - i,
        {
            assert(self.blocks@.subrange(0, i as int + 1).drop_last() =~= self.blocks@.subrange(0, i as int));
            if self.blocks[i].message_id.is_some() {
                n = n + 1;
            }
            i = i + 1;
        }
        assert(self.blocks@.subrange(0, i as int) =~= self.blocks@);
        n
    }

    /// Whether enough blocks were uploaded to rebuild the chunk.
    pub fn can_reconstruct(&self) -> (r: bool)
        ensures
            r == (uploaded_count(self.blocks@) >= self.data_count),
    {
        self.uploaded_blocks() >= self.data_count as usize
    }
}

/// Locator of a chunk stored as an erasure-coded stripe.
#[derive(Clone, Debug)]
pub struct ErasureChunkRef {
    /// Content-based id.
    pub id: String,
    /// Offset of the chunk in the file.
    pub offset: u64,
    /// Plaintext size.
    pub original_size: u64,
    /// Bytes striped (after compression and encryption); cuts the padding
    /// off the decoded blocks.
    pub size: u64,
    /// Whether the stored bytes are compressed.
    pub compressed: bool,
    /// Where the stripe's blocks live.
    pub stripe: StripeInfo,
    /// Manifest version that wrote the chunk.
    pub version: u64,
}

/// Ordered list of the erasure-coded chunks of one file.
#[derive(Clone, Debug)]
pub struct ErasureChunkManifest {
    pub version: u64,
    pub total_size: u64,
    pub chunks: Vec<ErasureChunkRef>,
    pub file_hash: String,
    /// K of the stripes.
    pub data_count: u8,
    /// N of the stripes.
    pub total_count: u8,
}

impl ErasureChunkManifest {
    /// An empty manifest for stripes of K = `data_count` of N = `total_count` blocks.
    pub fn new(version: u64, data_count: u8, total_count: u8) -> (r: Self)
        ensures
            r.version == version,
            r.total_size == 0,
            r.chunks@.len() == 0,
            r.file_hash@.len() == 0,
            r.data_count == data_count,
            r.total_count == total_count,
    {
        ErasureChunkManifest { version, total_size: 0, chunks: Vec::new(), file_hash: String::new(), data_count, total_count }
    }
}

} // verus!
