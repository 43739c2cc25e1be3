//! Recency tracking for the chunk cache: the least recently used key leaves first.

use vstd::prelude::*;

verus! {

/// Position of `k` in `s`, when `s` holds it.
pub open spec fn key_index(s: Seq<Seq<char>>, k: Seq<char>) -> int {
    choose|i: int| 0 <= i < s.len() && s[i] == k
}

/// `s` with the key `k` taken out (unchanged when `s` does not hold it).
pub open spec fn without_key(s: Seq<Seq<char>>, k: Seq<char>) -> Seq<Seq<char>> {
    if s.contains(k) {
        s.remove(key_index(s, k))
    } else {
        s
    }
}

/// Tracks keys from oldest to most recently used; each key at most once.
pub struct LruCache {
    order: Vec<String>,
}

impl View for LruCache {
    type V = Seq<Seq<char>>;

    closed spec fn view(&self) -> Seq<Seq<char>> {
        self.order@.map_values(|s: String| s@)
    }
}

impl LruCache {
    /// Each key is tracked once.
    pub open spec fn wf(&self) -> bool {
        self@.no_duplicates()
    }

    /// An empty tracker.
    pub fn new() -> (r: Self)
        ensures
            r.wf(),
            r@ == Seq::<Seq<char>>::empty(),
    {
        let r = LruCache { order: Vec::new() };
        assert(r@ =~= Seq::<Seq<char>>::empty());
        r
    }

    fn find(&self, key: &String) -> (r: Option<usize>)
        requires
            self.wf(),
        ensures
            r.is_none() ==> !self@.contains(key@),
            r.is_some() ==> r.unwrap() < self@.len() && self@[r.unwrap() as int] == key@
                && key_index(self@, key@) == r.unwrap() as int,
    {
        let mut i: usize = 0;
        while i < self.order.len()
            invariant
                i <= self.order.len(),
                self.wf(),
                forall|j: int| 0 <= j < i ==> self@[j] != key@,
            decreases self.order.len() - i,
        {
            if self.order[i] == *key {
                assert(self@[i as int] == key@);
                let ghost k = key_index(self@, key@);
                assert(self@.contains(key@));
                assert(0 <= k < self@.len() && self@[k] == key@);
                proof {
                    if k != i as int {
                        assert(self@[k] != self@[i as int]);
                    }
                }
                return Some(i);
            }
            i = i + 1;
        }
        proof {
            if self@.contains(key@) {
                let j = choose|j: int| 0 <= j < self@.len() && self@[j] == key@;
                assert(self@[j] != key@);
            }
        }
        None
    }

    proof fn lemma_remove_keeps_distinct(s: Seq<Seq<char>>, i: int)
        requires
            s.no_duplicates(),
            0 <= i < s.len(),
        ensures
            s.remove(i).no_duplicates(),
            !s.remove(i).contains(s[i]),
            forall|x: Seq<char>| x != s[i] ==> (s.remove(i).contains(x) <==> s.contains(x)),
    {
        let r = s.remove(i);
        assert forall|a: int, b: int| 0 <= a < b < r.len() implies r[a] != r[b] by {
            let a2 = if a < i { a } else { a + 1 };
            let b2 = if b < i { b } else { b + 1 };
            assert(r[a] == s[a2] && r[b] == s[b2]);
        }
        if r.contains(s[i]) {
            let j = choose|j: int| 0 <= j < r.len() && r[j] == s[i];
            let j2 = if j < i { j } else { j + 1 };
            assert(r[j] == s[j2]);
        }
        assert forall|x: Seq<char>| x != s[i] implies (r.contains(x) <==> s.contains(x)) by {
            if s.contains(x) {
                let j = choose|j: int| 0 <= j < s.len() && s[j] == x;
                let j2 = if j < i { j } else { j - 1 };
                assert(r[j2] == x);
            }
            if r.contains(x) {
                let j = choose|j: int| 0 <= j < r.len() && r[j] == x;
                let j2 = if j < i { j } else { j + 1 };
                assert(s[j2] == x);
            }
        }
    }

    /// Takes `key` out of the tracker.
    pub fn remove(&mut self, key: &str)
        requires
            old(self).wf(),
        ensures
            final(self).wf(),
            final(self)@ == without_key(old(self)@, key@),
    {
        let k = key.to_owned();
        match self.find(&k) {
            Some(i) => {
                proof {
                    Self::lemma_remove_keeps_distinct(self@, i as int);
                }
                let ghost before = self.order@;
                self.order.remove(i);
                assert(self@ =~= without_key(old(self)@, key@));
            },
            None => {},
        }
    }

    /// Tracks `key` as the most recently used one.
    pub fn insert(&mut self, key: &str)
        requires
            old(self).wf(),
        ensures
            final(self).wf(),
            final(self)@ == without_key(old(self)@, key@).push(key@),
    {
        self.remove(key);
        let ghost mid = self@;
        proof {
            if old(self)@.contains(key@) {
                Self::lemma_remove_keeps_distinct(old(self)@, key_index(old(self)@, key@));
            }
        }
        self.order.push(key.to_owned());
        assert(self@ =~= mid.push(key@));
        assert(!mid.contains(key@));
        assert forall|a: int, b: int| 0 <= a < b < self@.len() implies self@[a] != self@[b] by {
            if b == mid.len() {
                assert(mid[a] == self@[a]);
            }
        }
    }

    /// Marks a tracked key as the most recently used one; an untracked key is ignored.
    pub fn touch(&mut self, key: &str)
        requires
            old(self).wf(),
        ensures
            final(self).wf(),
            old(self)@.contains(key@) ==> final(self)@ == without_key(old(self)@, key@).push(key@),
            !old(self)@.contains(key@) ==> final(self)@ == old(self)@,
    {
        let k = key.to_owned();
        match self.find(&k) {
            Some(_) => self.insert(key),
            None => {},
        }
    }

    /// Takes out and returns the least recently used key.
    pub fn pop_oldest(&mut self) -> (r: Option<String>)
        requires
            old(self).wf(),
        ensures
            final(self).wf(),
            old(self)@.len() == 0 ==> r.is_none() && final(self)@ == old(self)@,
            old(self)@.len() > 0 ==> r.is_some() && r.unwrap()@ == old(self)@[0]
                && final(self)@ == old(self)@.subrange(1, old(self)@.len() as int),
    {
        if self.order.len() == 0 {
            None
        } else {
            proof {
                Self::lemma_remove_keeps_distinct(self@, 0);
            }
            let k = self.order.remove(0);
            assert(self@ =~= old(self)@.subrange(1, old(self)@.len() as int));
            Some(k)
        }
    }

    /// Whether no key is tracked.
    pub fn is_empty(&self) -> (r: bool)
        ensures
            r == (self@.len() == 0),
    {
        self.order.len() == 0
    }

    /// Number of tracked keys.
    pub fn len(&self) -> (r: usize)
        ensures
            r == self@.len(),
    {
        self.order.len()
    }

    /// Forgets every key.
    pub fn clear(&mut self)
        ensures
            final(self).wf(),
            final(self)@ == Seq::<Seq<char>>::empty(),
    {
        self.order.clear();
        assert(self@ =~= Seq::<Seq<char>>::empty());
    }

    /// Drops stale entries. The order holds each live key exactly once, so
    /// nothing is stale and the tracked order stays as it is.
    pub fn compact(&mut self)
        requires
            old(self).wf(),
        ensures
            final(self).wf(),
            final(self)@ == old(self)@,
    {
    }
}

} // verus!
