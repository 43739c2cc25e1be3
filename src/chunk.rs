//! Fixed-size, content-addressed chunking, reassembly and deduplication.

use vstd::prelude::*;
use crate::bytes::{append_bytes, copy_range};

verus! {

/// What the content hash yields: the lowercase hex of the digest of the bytes.
pub uninterp spec fn content_id(data: Seq<u8>) -> Seq<char>;

/// Relies on blake3::hash and blake3::Hash::to_hex: the digest depends on the
/// bytes alone, and its hex form is 64 characters.
#[verifier::external_body]
pub(crate) fn hash_hex(data: &[u8]) -> (r: String)
    ensures
        r@ == content_id(data@),
        r@.len() == 64,
{
    blake3::hash(data).to_hex().to_string()
}

/// The bytes of chunk `i` when `data` is cut into pieces of `size` bytes.
pub open spec fn piece(data: Seq<u8>, size: nat, i: nat) -> Seq<u8> {
    let lo = i * size;
    let hi = if (i + 1) * size <= data.len() { (i + 1) * size } else { data.len() as nat };
    data.subrange(lo as int, hi as int)
}

/// Number of chunks that `len` bytes are cut into.
pub open spec fn piece_count(len: nat, size: nat) -> nat
    recommends
        size > 0,
{
    if len == 0 { 0 } else { ((len - 1) as nat / size + 1) as nat }
}

/// Information about a chunk.
#[derive(Clone, Debug)]
pub struct ChunkInfo {
    /// Content-based identifier.
    pub id: String,
    /// Number of bytes.
    pub size: usize,
    /// Offset in the file.
    pub offset: u64,
    /// Hash of the plaintext.
    pub content_hash: String,
}

/// A plaintext chunk and its information.
#[derive(Clone, Debug)]
pub struct Chunk {
    pub info: ChunkInfo,
    pub data: Vec<u8>,
}

impl Chunk {
    /// The chunk's identity holds: its id and content hash name its bytes.
    pub open spec fn wf(&self) -> bool {
        &&& self.info.id@ == content_id(self.data@)
        &&& self.info.content_hash@ == content_id(self.data@)
        &&& self.info.size == self.data@.len()
    }

    /// A chunk of `data` at `offset`, identified by its content hash.
    pub fn new(data: Vec<u8>, offset: u64) -> (r: Self)
        ensures
            r.wf(),
            r.data@ == data@,
            r.info.offset == offset,
    {
        let content_hash = hash_hex(data.as_slice());
        let id = content_hash.clone();
        let size = data.len();
        Chunk { info: ChunkInfo { id, size, offset, content_hash }, data }
    }

    /// The chunk's id.
    pub fn id(&self) -> (r: &str)
        ensures
            r@ == self.info.id@,
    {
        self.info.id.as_str()
    }
}

/// Concatenation of the chunks' bytes, in the order given by `order`.
pub open spec fn concat_in_order(chunks: Seq<Chunk>, order: Seq<usize>) -> Seq<u8>
    decreases order.len(),
{
    if order.len() == 0 {
        Seq::empty()
    } else {
        concat_in_order(chunks, order.drop_last()) + chunks[order.last() as int].data@
    }
}

/// `order` lists each chunk index once, by nondecreasing offset.
pub open spec fn sorted_by_offset(chunks: Seq<Chunk>, order: Seq<usize>) -> bool {
    &&& order.len() == chunks.len()
    &&& order.no_duplicates()
    &&& forall|j: int| 0 <= j < order.len() ==> order[j] < chunks.len()
    &&& forall|a: int, b: int|
        0 <= a < b < order.len() ==> chunks[order[a] as int].info.offset <= chunks[order[b] as int].info.offset
}

/// Splits data into fixed-size chunks.
pub struct Chunker {
    chunk_size: usize,
}

impl Chunker {
    pub closed spec fn spec_chunk_size(&self) -> usize {
        self.chunk_size
    }

    /// A chunker with the chunk size of `config`.
    pub fn new(config: &crate::config::ChunkConfig) -> (r: Self)
        ensures
            r.spec_chunk_size() == config.chunk_size,
    {
        Chunker { chunk_size: config.chunk_size }
    }

    /// A chunker with the given chunk size.
    pub fn with_size(chunk_size: usize) -> (r: Self)
        ensures
            r.spec_chunk_size() == chunk_size,
    {
        Chunker { chunk_size }
    }

    /// The configured chunk size.
    pub fn chunk_size(&self) -> (r: usize)
        ensures
            r == self.spec_chunk_size(),
    {
        self.chunk_size
    }

    /// Cuts `data` into chunks of `chunk_size` bytes; the last one may be short.
    pub fn chunk_data(&self, data: &[u8]) -> (r: Vec<Chunk>)
        requires
            self.spec_chunk_size() > 0,
        ensures
            r@.len() == piece_count(data@.len(), self.spec_chunk_size() as nat),
            forall|i: int| 0 <= i < r@.len() ==> {
                &&& (#[trigger] r@[i]).wf()
                &&& r@[i].data@ == piece(data@, self.spec_chunk_size() as nat, i as nat)
                &&& r@[i].info.offset == i * self.spec_chunk_size()
            },
    {
        let cs = self.chunk_size;
        let n = data.len();
        let mut chunks: Vec<Chunk> = Vec::new();
        let mut offset: usize = 0;
        assert(chunks@.len() * cs == 0);
        while offset < n
            invariant
                cs == self.spec_chunk_size(),
                cs > 0,
                n == data@.len(),
                offset <= n,
                offset < n ==> offset == chunks@.len() * cs,
                offset < n ==> chunks@.len() < piece_count(n as nat, cs as nat),
                offset >= n ==> chunks@.len() == piece_count(n as nat, cs as nat),
                forall|i: int| 0 <= i < chunks@.len() ==> {
                    &&& (#[trigger] chunks@[i]).wf()
                    &&& chunks@[i].data@ == piece(data@, cs as nat, i as nat)
                    &&& chunks@[i].info.offset == i * cs
                },
            decreases n - offset,
        {
            let hi = if n - offset >= cs { offset + cs } else { n };
            let k = chunks.len();
            let piece_bytes = copy_range(data, offset, hi);
            let c = Chunk::new(piece_bytes, offset as u64);
            proof {
                assert(k * cs + cs == (k + 1) * cs) by (nonlinear_arith);
                assert(c.data@ == piece(data@, cs as nat, k as nat));
            }
            chunks.push(c);
            offset = hi;
            proof {
                let m = chunks@.len();
                assert(m == k + 1);
                if hi < n {
                    assert(offset == m * cs);
                    assert((n - 1) as nat / cs as nat >= m) by (nonlinear_arith)
                        requires offset == m * cs, offset < n, cs > 0;
                } else {
                    assert((n - 1) as nat / cs as nat == k) by (nonlinear_arith)
                        requires k * cs < n, n <= (k + 1) * cs, cs > 0;
                }
            }
        }
        chunks
    }

    /// Concatenates the chunks' bytes in order of offset.
    pub fn reassemble(&self, chunks: &[Chunk]) -> (r: Vec<u8>)
        ensures
            exists|order: Seq<usize>|
                sorted_by_offset(chunks@, order) && r@ == concat_in_order(chunks@, order),
    {
        let order = offset_order(chunks);
        let mut result: Vec<u8> = Vec::new();
        let mut j: usize = 0;
        while j < order.len()
            invariant
                j <= order@.len(),
                sorted_by_offset(chunks@, order@),
                result@ == concat_in_order(chunks@, order@.subrange(0, j as int)),
            decreases order@.len() - j,
        {
            let k = order[j];
            append_bytes(&mut result, chunks[k].data.as_slice());
            proof {
                let pre = order@.subrange(0, j as int + 1);
                assert(pre.drop_last() =~= order@.subrange(0, j as int));
            }
            j = j + 1;
        }
        assert(order@.subrange(0, order@.len() as int) =~= order@);
        result
    }

    /// Bytes `offset .. offset + len` of the file the chunks make up, cut
    /// short at its end (empty past it).
    pub fn read_range(&self, chunks: &[Chunk], offset: u64, len: u64) -> (r: Vec<u8>)
        ensures
            exists|order: Seq<usize>| sorted_by_offset(chunks@, order) && {
                let all = concat_in_order(chunks@, order);
                let lo = if offset as int <= all.len() { offset as int } else { all.len() as int };
                let hi = if offset as int + len as int <= all.len() { offset as int + len as int } else { all.len() as int };
                r@ == all.subrange(lo, hi)
            },
    {
        let all = self.reassemble(chunks);
        let n = all.len();
        let lo: usize = if offset as u128 <= n as u128 { offset as usize } else { n };
        let hi: usize = if offset as u128 + len as u128 <= n as u128 { (offset + len) as usize } else { n };
        copy_range(all.as_slice(), lo, hi)
    }

    /// The content hash of a whole file's bytes.
    pub fn file_hash(&self, data: &[u8]) -> (r: String)
        ensures
            r@ == content_id(data@),
    {
        hash_hex(data)
    }
}

/// Indices of `chunks` ordered by offset; equal offsets keep their order.
fn offset_order(chunks: &[Chunk]) -> (order: Vec<usize>)
    ensures
        sorted_by_offset(chunks@, order@),
{
    let mut order: Vec<usize> = Vec::new();
    let mut i: usize = 0;
    while i < chunks.len()
        invariant
            i <= chunks@.len(),
            order@.len() == i,
            order@.no_duplicates(),
            forall|j: int| 0 <= j < order@.len() ==> order@[j] < i,
            forall|a: int, b: int|
                0 <= a < b < order@.len() ==> chunks@[order@[a] as int].info.offset
                    <= chunks@[order@[b] as int].info.offset,
        decreases chunks@.len() - i,
    {
        let off = chunks[i].info.offset;
        let mut p: usize = order.len();
        while p > 0 && chunks[order[p - 1]].info.offset > off
            invariant
                p <= order@.len(),
                order@.len() == i,
                i < chunks@.len(),
                off == chunks@[i as int].info.offset,
                forall|j: int| 0 <= j < order@.len() ==> order@[j] < i,
                forall|j: int| p <= j < order@.len() ==> chunks@[order@[j] as int].info.offset > off,
            decreases p,
        {
            p = p - 1;
        }
        let ghost old_order = order@;
        order.insert(p, i);
        proof {
            assert(order@ =~= old_order.insert(p as int, i));
            assert forall|a: int, b: int| 0 <= a < b < order@.len() implies order@[a] != order@[b] by {
                let a2 = if a < p { a } else if a == p { -1 } else { a - 1 };
                let b2 = if b < p { b } else if b == p { -1 } else { b - 1 };
                if a != p as int && b != p as int {
                    assert(old_order[a2] != old_order[b2]);
                }
                if a == p as int {
                    assert(old_order[b2] < i);
                }
                if b == p as int {
                    assert(old_order[a2] < i);
                }
            }
            assert forall|a: int, b: int|
                0 <= a < b < order@.len() implies chunks@[order@[a] as int].info.offset
                    <= chunks@[order@[b] as int].info.offset by {
                if b == p as int && p > 0 {
                    assert(a <= p - 1);
                    if a < p - 1 {
                        assert(chunks@[old_order[a] as int].info.offset <= chunks@[old_order[p - 1] as int].info.offset);
                    }
                }
            }
        }
        i = i + 1;
    }
    order
}

proof fn lemma_order_is_identity(chunks: Seq<Chunk>, order: Seq<usize>, cs: nat)
    requires
        cs > 0,
        sorted_by_offset(chunks, order),
        forall|i: int| 0 <= i < chunks.len() ==> (#[trigger] chunks[i]).info.offset == i * cs,
    ensures
        forall|j: int| 0 <= j < order.len() ==> order[j] == j,
{
    let n = order.len() as int;
    assert forall|a: int, b: int| 0 <= a < b < n implies (#[trigger] order[a]) < #[trigger] order[b] by {
        let x = order[a] as int;
        let y = order[b] as int;
        assert(chunks[x].info.offset <= chunks[y].info.offset);
        assert(x * cs <= y * cs);
        if x > y {
            assert(x * cs > y * cs) by (nonlinear_arith)
                requires x > y, cs > 0;
        }
        assert(order[a] != order[b]);
    }
    assert forall|j: int| 0 <= j < n implies order[j] >= j by {
        lemma_increasing_lower(order, j);
    }
    assert forall|j: int| 0 <= j < n implies order[j] <= j by {
        lemma_increasing_upper(order, j, n);
    }
}

proof fn lemma_increasing_lower(order: Seq<usize>, j: int)
    requires
        0 <= j < order.len(),
        forall|a: int, b: int| 0 <= a < b < order.len() ==> (#[trigger] order[a]) < #[trigger] order[b],
    ensures
        order[j] >= j,
    decreases j,
{
    if j > 0 {
        lemma_increasing_lower(order, j - 1);
        assert(order[j - 1] < order[j]);
    }
}

proof fn lemma_increasing_upper(order: Seq<usize>, j: int, n: int)
    requires
        n == order.len(),
        0 <= j < n,
        forall|i: int| 0 <= i < n ==> order[i] < n,
        forall|a: int, b: int| 0 <= a < b < order.len() ==> (#[trigger] order[a]) < #[trigger] order[b],
    ensures
        order[j] <= j,
    decreases n - j,
{
    if j < n - 1 {
        lemma_increasing_upper(order, j + 1, n);
        assert(order[j] < order[j + 1]);
    }
}

proof fn lemma_concat_pieces(data: Seq<u8>, cs: nat, chunks: Seq<Chunk>, order: Seq<usize>, k: int)
    requires
        cs > 0,
        0 <= k <= order.len(),
        order.len() == chunks.len(),
        chunks.len() == piece_count(data.len(), cs),
        forall|j: int| 0 <= j < order.len() ==> order[j] == j,
        forall|i: int| 0 <= i < chunks.len() ==> (#[trigger] chunks[i]).data@ == piece(data, cs, i as nat),
    ensures
        concat_in_order(chunks, order.subrange(0, k)) == data.subrange(0, if k * cs <= data.len() { k * cs } else { data.len() as int }),
    decreases k,
{
    if k > 0 {
        let pre = order.subrange(0, k);
        assert(pre.drop_last() =~= order.subrange(0, k - 1));
        lemma_concat_pieces(data, cs, chunks, order, k - 1);
        let lo = (k - 1) * cs;
        assert(lo <= data.len()) by (nonlinear_arith)
            requires k - 1 < piece_count(data.len(), cs), cs > 0, data.len() > 0,
                piece_count(data.len(), cs) == (data.len() - 1) / (cs as int) + 1, lo == (k - 1) * cs;
        assert(k * cs == lo + cs) by (nonlinear_arith)
            requires lo == (k - 1) * cs;
        let hi = if k * cs <= data.len() { k * cs } else { data.len() as int };
        assert(pre.last() == k - 1);
        assert(concat_in_order(chunks, pre) == concat_in_order(chunks, pre.drop_last()) + chunks[k - 1].data@);
        assert(chunks[k - 1].data@ == piece(data, cs, (k - 1) as nat));
        assert(data.subrange(0, hi) =~= data.subrange(0, lo) + piece(data, cs, (k - 1) as nat));
    } else {
        assert(0 * cs == 0);
        assert(order.subrange(0, 0).len() == 0);
        assert(data.subrange(0, 0) =~= Seq::<u8>::empty());
    }
}

/// Cutting bytes into chunks and joining the chunks by offset gives the bytes back.
pub proof fn lemma_chunk_round_trip(data: Seq<u8>, cs: nat, chunks: Seq<Chunk>, joined: Seq<u8>)
    requires
        cs > 0,
        chunks.len() == piece_count(data.len(), cs),
        forall|i: int| 0 <= i < chunks.len() ==> {
            &&& (#[trigger] chunks[i]).data@ == piece(data, cs, i as nat)
            &&& chunks[i].info.offset == i * cs
        },
        exists|order: Seq<usize>| sorted_by_offset(chunks, order) && joined == concat_in_order(chunks, order),
    ensures
        joined == data,
{
    let order = choose|order: Seq<usize>| sorted_by_offset(chunks, order) && joined == concat_in_order(chunks, order);
    lemma_order_is_identity(chunks, order, cs);
    lemma_concat_pieces(data, cs, chunks, order, order.len() as int);
    assert(order.subrange(0, order.len() as int) =~= order);
    if data.len() > 0 {
        let n = order.len() as int;
        assert(n * cs >= data.len()) by (nonlinear_arith)
            requires n == (data.len() - 1) / (cs as int) + 1, cs > 0, data.len() > 0;
    }
    assert(data.subrange(0, data.len() as int) =~= data);
}

/// Every id that `classify` calls new is in neither `known` nor earlier in `ids`.
pub proof fn lemma_classify_new_unknown(known: Set<Seq<char>>, ids: Seq<Seq<char>>)
    ensures
        forall|t: int| 0 <= t < classify(known, ids).0.len() ==> {
            let j = #[trigger] classify(known, ids).0[t];
            &&& 0 <= j < ids.len()
            &&& !known.contains(ids[j])
            &&& !ids.subrange(0, j).contains(ids[j])
        },
        forall|t: int| 0 <= t < classify(known, ids).1.len() ==> 0 <= #[trigger] classify(known, ids).1[t] < ids.len(),
        classify(known, ids).0.len() + classify(known, ids).1.len() == ids.len(),
    decreases ids.len(),
{
    if ids.len() > 0 {
        lemma_classify_new_unknown(known, ids.drop_last());
        let j = ids.len() - 1;
        assert(ids.drop_last() =~= ids.subrange(0, j));
        assert forall|t: int| 0 <= t < classify(known, ids.drop_last()).0.len() implies
            ids.subrange(0, classify(known, ids.drop_last()).0[t]) =~= ids.drop_last().subrange(0, classify(known, ids.drop_last()).0[t]) by {}
    }
}

/// Writing the same chunks again uploads nothing: once their ids are known,
/// `filter_new` finds none of them new.
pub proof fn lemma_dedup_second_write(known: Set<Seq<char>>, ids: Seq<Seq<char>>)
    requires
        ids.to_set().subset_of(known),
    ensures
        classify(known, ids).0.len() == 0,
        classify(known, ids).1.len() == ids.len(),
{
    lemma_classify_new_unknown(known, ids);
    if classify(known, ids).0.len() > 0 {
        let j = classify(known, ids).0[0];
        assert(ids.to_set().contains(ids[j]));
    }
}

/// Remembers which chunk ids are already stored.
pub struct DedupTracker {
    known_chunks: Vec<String>,
}

impl View for DedupTracker {
    type V = Set<Seq<char>>;

    closed spec fn view(&self) -> Set<Seq<char>> {
        self.known_chunks@.map_values(|s: String| s@).to_set()
    }
}

/// Splits `ids` into the indices of first sightings (neither in `known`
/// nor earlier in `ids`) and the indices of ids seen before.
pub open spec fn classify(known: Set<Seq<char>>, ids: Seq<Seq<char>>) -> (Seq<int>, Seq<int>)
    decreases ids.len(),
{
    if ids.len() == 0 {
        (Seq::empty(), Seq::empty())
    } else {
        let prev = classify(known, ids.drop_last());
        let j = ids.len() - 1;
        if known.contains(ids[j]) || ids.drop_last().contains(ids[j]) {
            (prev.0, prev.1.push(j))
        } else {
            (prev.0.push(j), prev.1)
        }
    }
}

/// The ids of a sequence of chunks.
pub open spec fn ids_of(chunks: Seq<Chunk>) -> Seq<Seq<char>> {
    chunks.map_values(|c: Chunk| c.info.id@)
}

proof fn lemma_push_to_set(s: Seq<Seq<char>>, x: Seq<char>)
    ensures
        s.push(x).to_set() == s.to_set().insert(x),
{
    assert(s.push(x) =~= s + seq![x]);
    Seq::lemma_to_set_insert_commutes(s, x);
}

impl DedupTracker {
    /// Each known id is stored once.
    pub closed spec fn wf(&self) -> bool {
        self.known_chunks@.map_values(|s: String| s@).no_duplicates()
    }

    /// A tracker that knows no chunk.
    pub fn new() -> (r: Self)
        ensures
            r.wf(),
            r@ == Set::<Seq<char>>::empty(),
    {
        let r = DedupTracker { known_chunks: Vec::new() };
        assert(r.known_chunks@.map_values(|s: String| s@) =~= Seq::<Seq<char>>::empty());
        assert(r@ =~= Set::<Seq<char>>::empty());
        r
    }

    /// Whether the id is known.
    pub fn is_known(&self, chunk_id: &str) -> (r: bool)
        ensures
            r == self@.contains(chunk_id@),
    {
        let k = chunk_id.to_owned();
        let ghost ks = self.known_chunks@.map_values(|s: String| s@);
        let mut i: usize = 0;
        while i < self.known_chunks.len()
            invariant
                i <= self.known_chunks@.len(),
                ks == self.known_chunks@.map_values(|s: String| s@),
                k@ == chunk_id@,
                forall|j: int| 0 <= j < i ==> ks[j] != k@,
            decreases self.known_chunks@.len() - i,
        {
            if self.known_chunks[i] == k {
                assert(ks[i as int] == k@);
                return true;
            }
            i = i + 1;
        }
        proof {
            if ks.contains(k@) {
                let j = choose|j: int| 0 <= j < ks.len() && ks[j] == k@;
                assert(ks[j] != k@);
            }
        }
        false
    }

    /// Records the id as known.
    pub fn register(&mut self, chunk_id: String)
        requires
            old(self).wf(),
        ensures
            final(self).wf(),
            final(self)@ == old(self)@.insert(chunk_id@),
            final(self)@.finite(),
            final(self)@.len() == old(self)@.len() + if old(self)@.contains(chunk_id@) { 0int } else { 1int },
    {
        proof {
            self.known_chunks@.map_values(|s: String| s@).unique_seq_to_set();
        }
        if !self.is_known(chunk_id.as_str()) {
            let ghost before = self.known_chunks@.map_values(|s: String| s@);
            self.known_chunks.push(chunk_id);
            proof {
                let after = self.known_chunks@.map_values(|s: String| s@);
                assert(after =~= before.push(chunk_id@));
                lemma_push_to_set(before, chunk_id@);
                assert(after.no_duplicates());
                after.unique_seq_to_set();
            }
        } else {
            assert(old(self)@.insert(chunk_id@) =~= old(self)@);
        }
    }

    /// Number of known ids.
    pub fn len(&self) -> (r: usize)
        requires
            self.wf(),
        ensures
            r == self@.len(),
    {
        proof {
            self.known_chunks@.map_values(|s: String| s@).unique_seq_to_set();
        }
        self.known_chunks.len()
    }

    /// Whether no id is known.
    pub fn is_empty(&self) -> (r: bool)
        requires
            self.wf(),
        ensures
            r == (self@.len() == 0),
    {
        self.len() == 0
    }

    /// Sorts chunks into those first seen now, which become known, and the
    /// ids of those already known (or repeated earlier in `chunks`).
    pub fn filter_new(&mut self, chunks: Vec<Chunk>) -> (r: (Vec<Chunk>, Vec<String>))
        requires
            old(self).wf(),
        ensures
            final(self).wf(),
            final(self)@ == old(self)@.union(ids_of(chunks@).to_set()),
            r.0@ == classify(old(self)@, ids_of(chunks@)).0.map_values(|j: int| chunks@[j]),
            r.1@.map_values(|s: String| s@)
                == classify(old(self)@, ids_of(chunks@)).1.map_values(|j: int| ids_of(chunks@)[j]),
    {
        let ghost all = chunks@;
        let ghost ids = ids_of(chunks@);
        let mut rest = chunks;
        let mut new_chunks: Vec<Chunk> = Vec::new();
        let mut existing_ids: Vec<String> = Vec::new();
        let mut i: usize = 0;
        let total = rest.len();
        while rest.len() > 0
            invariant
                ids == ids_of(all),
                all.len() <= usize::MAX,
                self.wf(),
                i + rest@.len() == all.len(),
                rest@ == all.subrange(i as int, all.len() as int),
                self@ == old(self)@.union(ids.subrange(0, i as int).to_set()),
                new_chunks@ == classify(old(self)@, ids.subrange(0, i as int)).0.map_values(|j: int| all[j]),
                existing_ids@.map_values(|s: String| s@)
                    == classify(old(self)@, ids.subrange(0, i as int)).1.map_values(|j: int| ids[j]),
            decreases rest@.len(),
        {
            let chunk = rest.remove(0);
            let ghost pre = ids.subrange(0, i as int);
            let ghost pre1 = ids.subrange(0, i as int + 1);
            proof {
                assert(chunk == all[i as int]);
                assert(ids[i as int] == chunk.info.id@);
                assert(pre1.drop_last() =~= pre);
                assert(pre1[i as int] == chunk.info.id@);
                assert(pre1.to_set() =~= pre.to_set().insert(chunk.info.id@)) by {
                    lemma_push_to_set(pre, chunk.info.id@);
                    assert(pre.push(chunk.info.id@) =~= pre1);
                }
                assert(self@.contains(chunk.info.id@) == (old(self)@.contains(chunk.info.id@)
                    || pre.contains(chunk.info.id@))) by {
                    if pre.contains(chunk.info.id@) {
                        let j = choose|j: int| 0 <= j < pre.len() && pre[j] == chunk.info.id@;
                        assert(pre.to_set().contains(pre[j]));
                    }
                    if pre.to_set().contains(chunk.info.id@) {
                        assert(pre.contains(chunk.info.id@));
                    }
                }
            }
            let id = chunk.info.id.clone();
            assert(id@ == chunk.info.id@);
            let ghost prev_existing = existing_ids@;
            if self.is_known(id.as_str()) {
                existing_ids.push(id);
                assert(existing_ids@.map_values(|s: String| s@)
                    =~= prev_existing.map_values(|s: String| s@).push(ids[i as int]));
                proof {
                    let c = classify(old(self)@, pre1);
                    let q = classify(old(self)@, pre);
                    assert(old(self)@.contains(pre1[i as int]) || pre1.drop_last().contains(pre1[i as int]));
                    assert(c == (q.0, q.1.push(i as int)));
                    assert(existing_ids@.map_values(|s: String| s@)
                        =~= classify(old(self)@, pre1).1.map_values(|j: int| ids[j]));
                    assert(new_chunks@ =~= classify(old(self)@, pre1).0.map_values(|j: int| all[j]));
                    assert(self@ =~= old(self)@.union(pre1.to_set()));
                }
            } else {
                self.register(id);
                new_chunks.push(chunk);
                proof {
                    let c = classify(old(self)@, pre1);
                    let q = classify(old(self)@, pre);
                    assert(!(old(self)@.contains(pre1[i as int]) || pre1.drop_last().contains(pre1[i as int])));
                    assert(c == (q.0.push(i as int), q.1));
                    assert(existing_ids@.map_values(|s: String| s@)
                        =~= classify(old(self)@, pre1).1.map_values(|j: int| ids[j]));
                    assert(new_chunks@ =~= classify(old(self)@, pre1).0.map_values(|j: int| all[j]));
                    assert(self@ =~= old(self)@.union(pre1.to_set()));
                }
            }
            i = i + 1;
        }
        assert(ids.subrange(0, i as int) =~= ids);
        (new_chunks, existing_ids)
    }

}

} // verus!
