//! Bounded cache of plaintext chunks, with one fetch at a time per chunk.

use vstd::prelude::*;
use crate::bytes::copy_range;
use crate::config::EvictionPolicy;

verus! {

/// A cached chunk.
pub struct CacheEntry {
    pub id: String,
    pub data: Vec<u8>,
    /// Reads since it was cached.
    pub hits: u64,
}

/// Bytes held by `entries`.
pub open spec fn held(entries: Seq<CacheEntry>) -> int
    decreases entries.len(),
{
    if entries.len() == 0 {
        0
    } else {
        held(entries.drop_last()) + entries.last().data@.len()
    }
}

/// The ids of `entries`.
pub open spec fn entry_ids(entries: Seq<CacheEntry>) -> Seq<Seq<char>> {
    entries.map_values(|e: CacheEntry| e.id@)
}

/// The ids that a list of strings holds.
pub open spec fn names(v: Seq<String>) -> Seq<Seq<char>> {
    v.map_values(|s: String| s@)
}

/// What a reader that misses the cache does next.
#[derive(Debug, PartialEq, Eq)]
pub enum Fetch {
    /// The chunk is cached: here it is.
    Cached(Vec<u8>),
    /// Nobody fetches it yet: the caller fetches it and hands it back.
    Start,
    /// Another reader fetches it: wait for that result.
    Wait,
}

proof fn lemma_held_remove(s: Seq<CacheEntry>, i: int)
    requires
        0 <= i < s.len(),
    ensures
        held(s.remove(i)) == held(s) - s[i].data@.len(),
    decreases s.len(),
{
    if i < s.len() - 1 {
        lemma_held_remove(s.drop_last(), i);
        assert(s.remove(i).drop_last() =~= s.drop_last().remove(i));
        assert(s.remove(i).last() == s.last());
    } else {
        assert(s.remove(i) =~= s.drop_last());
    }
}

proof fn lemma_held_nonneg(s: Seq<CacheEntry>)
    ensures
        held(s) >= 0,
        forall|i: int| 0 <= i < s.len() ==> (#[trigger] s[i]).data@.len() <= held(s),
    decreases s.len(),
{
    if s.len() > 0 {
        lemma_held_nonneg(s.drop_last());
        assert forall|i: int| 0 <= i < s.len() implies (#[trigger] s[i]).data@.len() <= held(s) by {
            if i < s.len() - 1 {
                assert(s.drop_last()[i] == s[i]);
            }
        }
    }
}

/// Chunks by id, at most `max_size` bytes in all.
pub struct ChunkCache {
    entries: Vec<CacheEntry>,
    in_flight: Vec<String>,
    resident: u64,
    max_size: u64,
    policy: EvictionPolicy,
}

impl ChunkCache {
    /// Bytes held.
    pub closed spec fn resident_spec(&self) -> int {
        held(self.entries@)
    }

    /// The cached chunks.
    pub closed spec fn contents(&self) -> Seq<CacheEntry> {
        self.entries@
    }

    pub closed spec fn max(&self) -> u64 {
        self.max_size
    }

    /// Ids being fetched.
    pub closed spec fn fetching(&self) -> Seq<Seq<char>> {
        names(self.in_flight@)
    }

    /// Ids cached, in eviction order for the recency policies.
    pub closed spec fn cached(&self) -> Seq<Seq<char>> {
        entry_ids(self.entries@)
    }

    /// Bytes held never exceed the bound; each id is cached once and fetched
    /// by at most one reader.
    pub closed spec fn wf(&self) -> bool {
        &&& self.resident == held(self.entries@)
        &&& held(self.entries@) <= self.max_size
        &&& entry_ids(self.entries@).no_duplicates()
        &&& names(self.in_flight@).no_duplicates()
    }

    /// An empty cache of at most `max_size` bytes.
    pub fn new(max_size: u64, policy: EvictionPolicy) -> (r: Self)
        ensures
            r.wf(),
            r.max() == max_size,
            r.resident_spec() == 0,
            r.cached().len() == 0,
            r.fetching().len() == 0,
    {
        let r = ChunkCache { entries: Vec::new(), in_flight: Vec::new(), resident: 0, max_size, policy };
        assert(entry_ids(r.entries@) =~= Seq::<Seq<char>>::empty());
        assert(r.in_flight@.map_values(|s: String| s@) =~= Seq::<Seq<char>>::empty());
        r
    }

    /// Bytes held.
    pub fn resident_bytes(&self) -> (r: u64)
        requires
            self.wf(),
        ensures
            r == self.resident_spec(),
            r <= self.max(),
    {
        self.resident
    }

    /// Number of cached chunks.
    pub fn len(&self) -> (r: usize)
        ensures
            r == self.cached().len(),
    {
        self.entries.len()
    }

    fn position(&self, id: &String) -> (r: Option<usize>)
        requires
            self.wf(),
        ensures
            r.is_none() ==> !self.cached().contains(id@),
            r.is_some() ==> r.unwrap() < self.entries@.len() && self.entries@[r.unwrap() as int].id@ == id@,
    {
        let mut i: usize = 0;
        while i < self.entries.len()
            invariant
                i <= self.entries@.len(),
                forall|j: int| 0 <= j < i ==> (#[trigger] self.entries@[j]).id@ != id@,
            decreases self.entries@.len() - i,
        {
            if self.entries[i].id == *id {
                return Some(i);
            }
            i = i + 1;
        }
        proof {
            if self.cached().contains(id@) {
                let j = choose|j: int| 0 <= j < self.cached().len() && self.cached()[j] == id@;
                assert(self.entries@[j].id@ == id@);
            }
        }
        None
    }

    fn remove_at(&mut self, i: usize) -> (r: CacheEntry)
        requires
            old(self).wf(),
            i < old(self).entries@.len(),
        ensures
            final(self).wf(),
            r == old(self).entries@[i as int],
            final(self).entries@ == old(self).entries@.remove(i as int),
            final(self).in_flight == old(self).in_flight,
            final(self).max_size == old(self).max_size,
            final(self).policy == old(self).policy,
    {
        proof {
            lemma_held_remove(self.entries@, i as int);
            lemma_held_nonneg(self.entries@);
        }
        let e = self.entries.remove(i);
        self.resident = self.resident - e.data.len() as u64;
        proof {
            let s = old(self).entries@;
            let ids = entry_ids(s);
            assert(entry_ids(self.entries@) =~= ids.remove(i as int));
            assert forall|a: int, b: int| 0 <= a < b < ids.remove(i as int).len() implies
                ids.remove(i as int)[a] != ids.remove(i as int)[b] by {
                let a2 = if a < i { a } else { a + 1 };
                let b2 = if b < i { b } else { b + 1 };
                assert(ids[a2] != ids[b2]);
            }
        }
        e
    }

    /// Index of the chunk that leaves first under the policy.
    fn victim(&self) -> (r: usize)
        requires
            self.entries@.len() > 0,
        ensures
            r < self.entries@.len(),
    {
        match self.policy {
            EvictionPolicy::Lfu => {
                let mut best: usize = 0;
                let mut i: usize = 1;
                while i < self.entries.len()
                    invariant
                        best < self.entries@.len(),
                        1 <= i <= self.entries@.len(),
                    decreases self.entries@.len() - i,
                {
                    if self.entries[i].hits < self.entries[best].hits {
                        best = i;
                    }
                    i = i + 1;
                }
                best
            },
            _ => 0,
        }
    }

    /// The cached bytes of `id`, counted as a read.
    pub fn get(&mut self, id: &str) -> (r: Option<Vec<u8>>)
        requires
            old(self).wf(),
        ensures
            final(self).wf(),
            r.is_none() <==> !old(self).cached().contains(id@),
            r.is_some() ==> exists|i: int| 0 <= i < old(self).contents().len()
                && (#[trigger] old(self).contents()[i]).id@ == id@ && r.unwrap()@ == old(self).contents()[i].data@,
            final(self).cached().to_set() == old(self).cached().to_set(),
            final(self).resident_spec() == old(self).resident_spec(),
            final(self).fetching() == old(self).fetching(),
            final(self).max() == old(self).max(),
    {
        let key = id.to_owned();
        let i = match self.position(&key) {
            Some(i) => i,
            None => { return None; },
        };
        let ghost s0 = self.entries@;
        proof {
            assert(entry_ids(s0)[i as int] == id@);
            assert(old(self).cached().contains(id@));
            lemma_held_remove(s0, i as int);
        }
        let mut e = self.remove_at(i);
        let copy = copy_range(e.data.as_slice(), 0, e.data.len());
        assert(e.data@.subrange(0, e.data@.len() as int) =~= e.data@);
        assert(old(self).contents()[i as int] == e);
        assert(copy@ == old(self).contents()[i as int].data@);
        if e.hits < u64::MAX {
            e.hits = e.hits + 1;
        }
        let ghost e1 = e;
        let ghost mid = self.entries@;
        match self.policy {
            EvictionPolicy::Lru => {
                self.resident = self.resident + e.data.len() as u64;
                self.entries.push(e);
                proof {
                    assert(self.entries@ =~= mid.push(e1));
                    assert(self.entries@.drop_last() =~= mid);
                    self.lemma_reinsert(s0, i as int);
                }
            },
            _ => {
                self.resident = self.resident + e.data.len() as u64;
                self.entries.insert(i, e);
                proof {
                    assert(self.entries@ =~= s0.update(i as int, e1));
                    lemma_held_update(s0, i as int, e1);
                    assert(entry_ids(self.entries@) =~= entry_ids(s0));
                }
            },
        }
        Some(copy)
    }

    proof fn lemma_reinsert(&self, s0: Seq<CacheEntry>, i: int)
        requires
            0 <= i < s0.len(),
            self.entries@.len() == s0.len(),
            self.entries@.drop_last() == s0.remove(i),
            self.entries@.last().id == s0[i].id,
            self.entries@.last().data == s0[i].data,
            entry_ids(s0).no_duplicates(),
        ensures
            held(self.entries@) == held(s0),
            entry_ids(self.entries@).no_duplicates(),
            entry_ids(self.entries@).to_set() == entry_ids(s0).to_set(),
    {
        lemma_held_remove(s0, i);
        let ids0 = entry_ids(s0);
        let ids1 = entry_ids(self.entries@);
        assert forall|a: int| 0 <= a < ids1.len() implies ids1[a] == (if a < i { ids0[a] } else if a < ids1.len() - 1 { ids0[a + 1] } else { ids0[i] }) by {
            if a < ids1.len() - 1 {
                assert(self.entries@[a] == self.entries@.drop_last()[a]);
            }
        }
        assert forall|a: int, b: int| 0 <= a < b < ids1.len() implies ids1[a] != ids1[b] by {
            let a2 = if a < i { a } else if a < ids1.len() - 1 { a + 1 } else { i };
            let b2 = if b < i { b } else if b < ids1.len() - 1 { b + 1 } else { i };
            assert(ids0[a2] != ids0[b2]);
        }
        assert(ids1.to_set() =~= ids0.to_set()) by {
            assert forall|x: Seq<char>| ids1.to_set().contains(x) implies ids0.to_set().contains(x) by {
                let a = choose|a: int| 0 <= a < ids1.len() && ids1[a] == x;
                let a2 = if a < i { a } else if a < ids1.len() - 1 { a + 1 } else { i };
                assert(ids0[a2] == x);
            }
            assert forall|x: Seq<char>| ids0.to_set().contains(x) implies ids1.to_set().contains(x) by {
                let a = choose|a: int| 0 <= a < ids0.len() && ids0[a] == x;
                let a2 = if a < i { a } else if a > i { a - 1 } else { ids1.len() - 1 };
                assert(ids1[a2] == x);
            }
        }
    }

    /// Caches `data` as chunk `id`, evicting by the policy until it fits.
    /// A chunk larger than the whole cache is not cached.
    pub fn insert(&mut self, id: String, data: Vec<u8>) -> (r: bool)
        requires
            old(self).wf(),
        ensures
            final(self).wf(),
            r == (data@.len() <= old(self).max()),
            r ==> final(self).cached().contains(id@),
            !r ==> final(self).cached() == old(self).cached(),
            final(self).fetching() == old(self).fetching(),
            final(self).max() == old(self).max(),
    {
        if data.len() as u64 > self.max_size {
            return false;
        }
        match self.position(&id) {
            Some(i) => {
                let ghost ids0 = self.cached();
                self.remove_at(i);
                proof {
                    assert(self.cached() =~= ids0.remove(i as int));
                    if self.cached().contains(id@) {
                        let j = choose|j: int| 0 <= j < self.cached().len() && self.cached()[j] == id@;
                        let j2 = if j < i { j } else { j + 1 };
                        assert(ids0[j2] == id@ && ids0[i as int] == id@ && j2 != i);
                    }
                }
            },
            None => {},
        }
        let need = data.len() as u64;
        while self.entries.len() > 0 && self.resident > self.max_size - need
            invariant
                self.wf(),
                need <= self.max_size,
                !self.cached().contains(id@),
                self.in_flight == old(self).in_flight,
                self.max_size == old(self).max_size,
            decreases self.entries@.len(),
        {
            let v = self.victim();
            let ghost before = self.cached();
            self.remove_at(v);
            proof {
                assert(!before.contains(id@));
                if self.cached().contains(id@) {
                    let j = choose|j: int| 0 <= j < self.cached().len() && self.cached()[j] == id@;
                    let j2 = if j < v { j } else { j + 1 };
                    assert(before[j2] == id@);
                }
            }
        }
        proof {
            if self.entries@.len() == 0 {
                assert(held(self.entries@) == 0);
            }
        }
        let ghost before = self.entries@;
        let e = CacheEntry { id, data, hits: 0 };
        let ghost e1 = e;
        self.resident = self.resident + need;
        self.entries.push(e);
        proof {
            assert(self.entries@.drop_last() =~= before);
            let ids = entry_ids(self.entries@);
            assert(ids =~= entry_ids(before).push(e1.id@));
            assert forall|a: int, b: int| 0 <= a < b < ids.len() implies ids[a] != ids[b] by {
                if b == ids.len() - 1 {
                    assert(entry_ids(before)[a] == ids[a]);
                    assert(entry_ids(before).contains(ids[a]));
                }
            }
            assert(ids[ids.len() - 1] == e1.id@);
        }
        true
    }

    /// What a reader of `id` does: take the cached bytes, start the one
    /// fetch of it, or wait for the fetch under way.
    pub fn begin_fetch(&mut self, id: &str) -> (r: Fetch)
        requires
            old(self).wf(),
        ensures
            final(self).wf(),
            old(self).cached().contains(id@) ==> r matches Fetch::Cached(_),
            !old(self).cached().contains(id@) && old(self).fetching().contains(id@) ==> r == Fetch::Wait
                && final(self).fetching() == old(self).fetching(),
            !old(self).cached().contains(id@) && !old(self).fetching().contains(id@) ==> r == Fetch::Start
                && final(self).fetching() == old(self).fetching().push(id@),
            final(self).resident_spec() == old(self).resident_spec(),
            final(self).max() == old(self).max(),
    {
        match self.get(id) {
            Some(bytes) => { return Fetch::Cached(bytes); },
            None => {},
        }
        let key = id.to_owned();
        let ghost f = names(self.in_flight@);
        let mut i: usize = 0;
        while i < self.in_flight.len()
            invariant
                f == names(self.in_flight@),
                key@ == id@,
                self.wf(),
                !old(self).cached().contains(id@),
                self.fetching() == old(self).fetching(),
                self.resident_spec() == old(self).resident_spec(),
                self.max() == old(self).max(),
                i <= self.in_flight@.len(),
                forall|j: int| 0 <= j < i ==> f[j] != id@,
            decreases self.in_flight@.len() - i,
        {
            if self.in_flight[i] == key {
                assert(f[i as int] == id@);
                return Fetch::Wait;
            }
            i = i + 1;
        }
        proof {
            if f.contains(id@) {
                let j = choose|j: int| 0 <= j < f.len() && f[j] == id@;
                assert(f[j] != id@);
            }
        }
        self.in_flight.push(key);
        proof {
            let g = names(self.in_flight@);
            assert(g =~= f.push(id@));
            assert forall|a: int, b: int| 0 <= a < b < g.len() implies g[a] != g[b] by {
                if b == g.len() - 1 {
                    assert(f[a] == g[a]);
                    assert(f.contains(g[a]));
                }
            }
        }
        Fetch::Start
    }

    /// Hands back the bytes of a fetch started by `begin_fetch`: the fetch
    /// ends, and the chunk is cached if it fits.
    pub fn complete_fetch(&mut self, id: String, data: Vec<u8>) -> (r: bool)
        requires
            old(self).wf(),
        ensures
            final(self).wf(),
            !final(self).fetching().contains(id@),
            r == (data@.len() <= old(self).max()),
            r ==> final(self).cached().contains(id@),
            final(self).max() == old(self).max(),
    {
        let ghost f = names(self.in_flight@);
        let mut kept: Vec<String> = Vec::new();
        let mut i: usize = 0;
        while i < self.in_flight.len()
            invariant
                f == names(self.in_flight@),
                f.no_duplicates(),
                i <= self.in_flight@.len(),
                names(kept@).no_duplicates(),
                !names(kept@).contains(id@),
                forall|x: Seq<char>| #[trigger] names(kept@).contains(x) ==> f.subrange(0, i as int).contains(x),
            decreases self.in_flight@.len() - i,
        {
            let ghost before = names(kept@);
            if self.in_flight[i] != id {
                kept.push(self.in_flight[i].clone());
                proof {
                    let after = names(kept@);
                    assert(after =~= before.push(f[i as int]));
                    assert(!before.contains(f[i as int])) by {
                        if before.contains(f[i as int]) {
                            let j = choose|j: int| 0 <= j < i && f.subrange(0, i as int)[j] == f[i as int];
                            assert(f[j] == f[i as int]);
                        }
                    }
                    assert forall|a: int, b: int| 0 <= a < b < after.len() implies after[a] != after[b] by {
                        if b == after.len() - 1 {
                            assert(before[a] == after[a]);
                            assert(before.contains(after[a]));
                        }
                    }
                    assert forall|x: Seq<char>| #[trigger] after.contains(x) implies f.subrange(0, i as int + 1).contains(x) by {
                        let j = choose|j: int| 0 <= j < after.len() && after[j] == x;
                        if j < before.len() {
                            assert(before[j] == x);
                            assert(before.contains(x));
                            let k = choose|k: int| 0 <= k < i && f.subrange(0, i as int)[k] == x;
                            assert(f.subrange(0, i as int + 1)[k] == x);
                        } else {
                            assert(f.subrange(0, i as int + 1)[i as int] == x);
                        }
                    }
                }
            } else {
                proof {
                    assert forall|x: Seq<char>| #[trigger] before.contains(x) implies f.subrange(0, i as int + 1).contains(x) by {
                        let k = choose|k: int| 0 <= k < i && f.subrange(0, i as int)[k] == x;
                        assert(f.subrange(0, i as int + 1)[k] == x);
                    }
                }
            }
            i = i + 1;
        }
        self.in_flight = kept;
        self.insert(id, data)
    }
}

/// A well-formed cache holds at most its bound, caches each chunk once, and
/// has at most one fetch under way per chunk.
pub proof fn lemma_cache_bounds(c: &ChunkCache)
    requires
        c.wf(),
    ensures
        c.resident_spec() <= c.max(),
        c.cached().no_duplicates(),
        c.fetching().no_duplicates(),
{
}

proof fn lemma_held_update(s: Seq<CacheEntry>, i: int, e: CacheEntry)
    requires
        0 <= i < s.len(),
        e.data@.len() == s[i].data@.len(),
    ensures
        held(s.update(i, e)) == held(s),
    decreases s.len(),
{
    if i < s.len() - 1 {
        lemma_held_update(s.drop_last(), i, e);
        assert(s.update(i, e).drop_last() =~= s.drop_last().update(i, e));
    } else {
        assert(s.update(i, e).drop_last() =~= s.drop_last());
    }
}

} // verus!
