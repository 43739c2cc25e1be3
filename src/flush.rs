//! The manifest that a flush of a file's bytes produces.

use vstd::prelude::*;
use crate::chunk::{concat_in_order, content_id, lemma_chunk_round_trip, piece, piece_count, sorted_by_offset, Chunk, Chunker};
use crate::manifest::{start_of, ChunkManifest, ChunkRef};

verus! {

/// The locator of chunk `c` before upload: no message yet, stored as is.
pub open spec fn fresh_ref(r: ChunkRef, c: Chunk) -> bool {
    &&& r.id@ == c.info.id@
    &&& r.offset == c.info.offset
    &&& r.original_size == c.data@.len()
    &&& r.size == c.data@.len()
    &&& r.message_id == 0
    &&& !r.compressed
}

proof fn lemma_piece_sum(data: Seq<u8>, cs: nat, refs: Seq<ChunkRef>, k: int)
    requires
        cs > 0,
        refs.len() == piece_count(data.len(), cs),
        0 <= k <= refs.len(),
        forall|i: int| 0 <= i < refs.len() ==> (#[trigger] refs[i]).original_size == piece(data, cs, i as nat).len(),
    ensures
        start_of(refs, k) == if k * cs <= data.len() { k * cs } else { data.len() as int },
    decreases k,
{
    if k > 0 {
        lemma_piece_sum(data, cs, refs, k - 1);
        let lo = (k - 1) * cs;
        assert(lo <= data.len()) by (nonlinear_arith)
            requires k - 1 < piece_count(data.len(), cs), cs > 0, data.len() > 0,
                piece_count(data.len(), cs) == (data.len() - 1) / (cs as int) + 1, lo == (k - 1) * cs;
        assert(k * cs == lo + cs) by (nonlinear_arith)
            requires lo == (k - 1) * cs;
    } else {
        assert(0 * cs == 0);
    }
}

impl Chunker {
    /// Cuts a file's bytes into chunks and describes them in a manifest of
    /// version `version`: one locator per chunk in file order, the file's
    /// size and its content hash.
    pub fn plan_manifest(&self, version: u64, data: &[u8]) -> (r: (ChunkManifest, Vec<Chunk>))
        requires
            self.spec_chunk_size() > 0,
            data@.len() <= u64::MAX,
        ensures
            r.0.version == version,
            r.0.total_size == data@.len(),
            r.0.file_hash@ == content_id(data@),
            r.0.chunks@.len() == r.1@.len(),
            start_of(r.0.chunks@, r.0.chunks@.len() as int) == r.0.total_size,
            r.1@.len() == piece_count(data@.len(), self.spec_chunk_size() as nat),
            forall|i: int| 0 <= i < r.1@.len() ==> {
                &&& (#[trigger] r.1@[i]).wf()
                &&& r.1@[i].data@ == piece(data@, self.spec_chunk_size() as nat, i as nat)
                &&& r.1@[i].info.offset == i * self.spec_chunk_size()
                &&& fresh_ref(r.0.chunks@[i], r.1@[i])
            },
    {
        let chunks = self.chunk_data(data);
        let mut refs: Vec<ChunkRef> = Vec::new();
        let mut i: usize = 0;
        while i < chunks.len()
            invariant
                i <= chunks@.len(),
                refs@.len() == i,
                forall|j: int| 0 <= j < i ==> fresh_ref(#[trigger] refs@[j], chunks@[j]),
            decreases chunks@.len() - i,
        {
            let c = &chunks[i];
            refs.push(ChunkRef {
                id: c.info.id.clone(),
                size: c.data.len() as u64,
                message_id: 0,
                offset: c.info.offset,
                original_size: c.data.len() as u64,
                compressed: false,
            });
            i = i + 1;
        }
        let mut m = ChunkManifest::new(version);
        m.total_size = data.len() as u64;
        m.file_hash = self.file_hash(data);
        m.chunks = refs;
        proof {
            let cs = self.spec_chunk_size() as nat;
            lemma_piece_sum(data@, cs, m.chunks@, m.chunks@.len() as int);
            if data@.len() > 0 {
                let n = m.chunks@.len() as int;
                assert(n * cs >= data@.len()) by (nonlinear_arith)
                    requires n == (data@.len() - 1) / (cs as int) + 1, cs > 0, data@.len() > 0;
            }
        }
        (m, chunks)
    }
}

/// A planned manifest names the file's content: its hash is that of the
/// chunks' bytes joined by offset, and the chunks' sizes add up to the
/// file's size.
pub proof fn lemma_manifest_names_content(data: Seq<u8>, cs: nat, m: ChunkManifest, chunks: Seq<Chunk>, joined: Seq<u8>)
    requires
        cs > 0,
        m.total_size == data.len(),
        m.file_hash@ == content_id(data),
        start_of(m.chunks@, m.chunks@.len() as int) == m.total_size,
        chunks.len() == piece_count(data.len(), cs),
        forall|i: int| 0 <= i < chunks.len() ==> {
            &&& (#[trigger] chunks[i]).data@ == piece(data, cs, i as nat)
            &&& chunks[i].info.offset == i * cs
        },
        exists|order: Seq<usize>| sorted_by_offset(chunks, order) && joined == concat_in_order(chunks, order),
    ensures
        m.file_hash@ == content_id(joined),
        start_of(m.chunks@, m.chunks@.len() as int) == joined.len(),
{
    lemma_chunk_round_trip(data, cs, chunks, joined);
}

} // verus!
