//! Reference counts of stored chunks: how many manifest entries name each.

use vstd::prelude::*;

verus! {

/// How many times `id` occurs in `ids`.
pub open spec fn occurrences(ids: Seq<Seq<char>>, id: Seq<char>) -> nat
    decreases ids.len(),
{
    if ids.len() == 0 {
        0
    } else {
        occurrences(ids.drop_last(), id) + if ids.last() == id { 1nat } else { 0nat }
    }
}

/// The views of a list of strings.
pub open spec fn views(v: Seq<String>) -> Seq<Seq<char>> {
    v.map_values(|s: String| s@)
}

/// Counts per chunk id; ids with no reference are not kept.
pub struct RefCounts {
    entries: Vec<(String, u64)>,
}

impl RefCounts {
    /// References to `id`.
    pub closed spec fn count(&self, id: Seq<char>) -> nat {
        if exists|i: int| 0 <= i < self.entries@.len() && self.entries@[i].0@ == id {
            self.entries@[choose|i: int| 0 <= i < self.entries@.len() && self.entries@[i].0@ == id].1 as nat
        } else {
            0
        }
    }

    /// Each id once, with a positive count.
    pub closed spec fn wf(&self) -> bool {
        &&& forall|a: int, b: int| 0 <= a < b < self.entries@.len() ==> self.entries@[a].0@ != self.entries@[b].0@
        &&& forall|i: int| 0 <= i < self.entries@.len() ==> self.entries@[i].1 > 0
    }

    /// No references.
    pub fn new() -> (r: Self)
        ensures
            r.wf(),
            forall|id: Seq<char>| r.count(id) == 0,
    {
        RefCounts { entries: Vec::new() }
    }

    proof fn lemma_count_at(&self, i: int)
        requires
            self.wf(),
            0 <= i < self.entries@.len(),
        ensures
            self.count(self.entries@[i].0@) == self.entries@[i].1,
    {
        let id = self.entries@[i].0@;
        let j = choose|j: int| 0 <= j < self.entries@.len() && self.entries@[j].0@ == id;
        if j != i {
            if j < i {
                assert(self.entries@[j].0@ != self.entries@[i].0@);
            } else {
                assert(self.entries@[i].0@ != self.entries@[j].0@);
            }
        }
    }

    fn find(&self, id: &String) -> (r: Option<usize>)
        requires
            self.wf(),
        ensures
            r.is_none() ==> self.count(id@) == 0 && forall|i: int| 0 <= i < self.entries@.len() ==> self.entries@[i].0@ != id@,
            r.is_some() ==> r.unwrap() < self.entries@.len() && self.entries@[r.unwrap() as int].0@ == id@
                && self.count(id@) == self.entries@[r.unwrap() as int].1,
    {
        let mut i: usize = 0;
        while i < self.entries.len()
            invariant
                self.wf(),
                i <= self.entries@.len(),
                forall|j: int| 0 <= j < i ==> self.entries@[j].0@ != id@,
            decreases self.entries@.len() - i,
        {
            if self.entries[i].0 == *id {
                proof {
                    self.lemma_count_at(i as int);
                }
                return Some(i);
            }
            i = i + 1;
        }
        None
    }

    /// References to `id`.
    pub fn get(&self, id: &String) -> (r: u64)
        requires
            self.wf(),
        ensures
            r == self.count(id@),
    {
        match self.find(id) {
            Some(i) => self.entries[i].1,
            None => 0,
        }
    }

    /// One more reference to `id`.
    pub fn add_one(&mut self, id: &String)
        requires
            old(self).wf(),
            old(self).count(id@) < u64::MAX,
        ensures
            final(self).wf(),
            final(self).count(id@) == old(self).count(id@) + 1,
            forall|other: Seq<char>| other != id@ ==> final(self).count(other) == old(self).count(other),
    {
        let ghost before = self.entries@;
        match self.find(id) {
            Some(i) => {
                let c = self.entries[i].1;
                self.entries.set(i, (id.clone(), c + 1));
                proof {
                    self.lemma_count_at(i as int);
                    assert forall|other: Seq<char>| other != id@ implies self.count(other) == old(self).count(other) by {
                        self.lemma_same_other(before, other, i as int);
                    }
                }
            },
            None => {
                self.entries.push((id.clone(), 1));
                proof {
                    self.lemma_count_at(before.len() as int);
                    assert forall|other: Seq<char>| other != id@ implies self.count(other) == old(self).count(other) by {
                        self.lemma_same_other(before, other, before.len() as int);
                    }
                }
            },
        }
    }

    /// One reference fewer to `id`; whether none is left.
    pub fn remove_one(&mut self, id: &String) -> (r: bool)
        requires
            old(self).wf(),
            old(self).count(id@) > 0,
        ensures
            final(self).wf(),
            final(self).count(id@) == old(self).count(id@) - 1,
            r == (final(self).count(id@) == 0),
            forall|other: Seq<char>| other != id@ ==> final(self).count(other) == old(self).count(other),
    {
        let ghost before = self.entries@;
        let i = match self.find(id) {
            Some(i) => i,
            None => { return false; },
        };
        let c = self.entries[i].1;
        if c > 1 {
            self.entries.set(i, (id.clone(), c - 1));
            proof {
                self.lemma_count_at(i as int);
                assert forall|other: Seq<char>| other != id@ implies self.count(other) == old(self).count(other) by {
                    self.lemma_same_other(before, other, i as int);
                }
            }
            false
        } else {
            self.entries.remove(i);
            proof {
                assert forall|a: int, b: int| 0 <= a < b < self.entries@.len() implies self.entries@[a].0@ != self.entries@[b].0@ by {
                    let a2 = if a < i { a } else { a + 1 };
                    let b2 = if b < i { b } else { b + 1 };
                    assert(before[a2].0@ != before[b2].0@);
                }
                if exists|j: int| 0 <= j < self.entries@.len() && self.entries@[j].0@ == id@ {
                    let j = choose|j: int| 0 <= j < self.entries@.len() && self.entries@[j].0@ == id@;
                    let j2 = if j < i { j } else { j + 1 };
                    assert(before[j2].0@ == id@ && j2 != i);
                    if j2 < i { assert(before[j2].0@ != before[i as int].0@); } else { assert(before[i as int].0@ != before[j2].0@); }
                }
                assert forall|other: Seq<char>| other != id@ implies self.count(other) == old(self).count(other) by {
                    if exists|j: int| 0 <= j < before.len() && before[j].0@ == other {
                        let j = choose|j: int| 0 <= j < before.len() && before[j].0@ == other;
                        assert(j != i);
                        let j2 = if j < i { j } else { j - 1 };
                        assert(self.entries@[j2] == before[j]);
                        self.lemma_count_at(j2);
                        old(self).lemma_count_at(j);
                    }
                    if exists|j: int| 0 <= j < self.entries@.len() && self.entries@[j].0@ == other {
                        let j = choose|j: int| 0 <= j < self.entries@.len() && self.entries@[j].0@ == other;
                        let j2 = if j < i { j } else { j + 1 };
                        assert(before[j2] == self.entries@[j]);
                    }
                }
            }
            true
        }
    }

    proof fn lemma_same_other(&self, before: Seq<(String, u64)>, other: Seq<char>, i: int)
        requires
            self.wf(),
            0 <= i <= before.len(),
            self.entries@.len() == if i == before.len() { before.len() as int + 1 } else { before.len() as int },
            forall|j: int| 0 <= j < before.len() && j != i ==> self.entries@[j] == before[j],
            0 <= i < self.entries@.len(),
            i < before.len() ==> self.entries@[i].0@ == before[i].0@,
            other != self.entries@[i].0@,
            forall|a: int, b: int| 0 <= a < b < before.len() ==> before[a].0@ != before[b].0@,
        ensures
            self.count(other) == (if exists|j: int| 0 <= j < before.len() && before[j].0@ == other {
                before[choose|j: int| 0 <= j < before.len() && before[j].0@ == other].1 as nat
            } else {
                0nat
            }),
    {
        if exists|j: int| 0 <= j < before.len() && before[j].0@ == other {
            let j = choose|j: int| 0 <= j < before.len() && before[j].0@ == other;
            assert(j != i);
            assert(self.entries@[j] == before[j]);
            self.lemma_count_at(j);
        }
        if exists|j: int| 0 <= j < self.entries@.len() && self.entries@[j].0@ == other {
            let j = choose|j: int| 0 <= j < self.entries@.len() && self.entries@[j].0@ == other;
            assert(j != i);
            assert(before[j] == self.entries@[j]);
        }
    }

    /// One reference per entry of `ids` (a manifest's chunk ids).
    pub fn add_refs(&mut self, ids: &Vec<String>)
        requires
            old(self).wf(),
            forall|id: Seq<char>| old(self).count(id) + occurrences(views(ids@), id) <= u64::MAX,
        ensures
            final(self).wf(),
            forall|id: Seq<char>| final(self).count(id) == old(self).count(id) + occurrences(views(ids@), id),
    {
        let mut i: usize = 0;
        while i < ids.len()
            invariant
                self.wf(),
                i <= ids@.len(),
                forall|id: Seq<char>| old(self).count(id) + occurrences(views(ids@), id) <= u64::MAX,
                forall|id: Seq<char>| self.count(id) == old(self).count(id) + occurrences(views(ids@).subrange(0, i as int), id),
            decreases ids@.len() - i,
        {
            proof {
                let v = views(ids@);
                assert(v.subrange(0, i as int + 1).drop_last() =~= v.subrange(0, i as int));
                lemma_occurrences_prefix(v, i as int + 1, ids@[i as int]@);
            }
            self.add_one(&ids[i]);
            i = i + 1;
        }
        assert(views(ids@).subrange(0, i as int) =~= views(ids@));
    }

    /// Drops one reference per entry of `ids`; returns the ids left with
    /// none, which nothing names any more.
    pub fn release_refs(&mut self, ids: &Vec<String>) -> (r: Vec<String>)
        requires
            old(self).wf(),
            forall|id: Seq<char>| old(self).count(id) >= occurrences(views(ids@), id),
        ensures
            final(self).wf(),
            forall|id: Seq<char>| final(self).count(id) == old(self).count(id) - occurrences(views(ids@), id),
            forall|k: int| 0 <= k < r@.len() ==> final(self).count(#[trigger] r@[k]@) == 0
                && occurrences(views(ids@), r@[k]@) > 0,
    {
        let mut orphans: Vec<String> = Vec::new();
        let mut i: usize = 0;
        while i < ids.len()
            invariant
                self.wf(),
                i <= ids@.len(),
                forall|id: Seq<char>| old(self).count(id) >= occurrences(views(ids@), id),
                forall|id: Seq<char>| self.count(id) == old(self).count(id) - occurrences(views(ids@).subrange(0, i as int), id),
                forall|k: int| 0 <= k < orphans@.len() ==> occurrences(views(ids@).subrange(0, i as int), #[trigger] orphans@[k]@) > 0
                    && self.count(orphans@[k]@) + occurrences(views(ids@).subrange(0, i as int), orphans@[k]@)
                        == old(self).count(orphans@[k]@),
                forall|k: int| 0 <= k < orphans@.len() ==> old(self).count(#[trigger] orphans@[k]@) == occurrences(views(ids@).subrange(0, i as int), orphans@[k]@),
            decreases ids@.len() - i,
        {
            proof {
                let v = views(ids@);
                assert(v.subrange(0, i as int + 1).drop_last() =~= v.subrange(0, i as int));
                lemma_occurrences_prefix(v, i as int + 1, ids@[i as int]@);
                lemma_occurrences_prefix(v, ids@.len() as int, ids@[i as int]@);
                assert(v[i as int] == ids@[i as int]@);
            }
            let ghost before = orphans@;
            if self.remove_one(&ids[i]) {
                orphans.push(ids[i].clone());
            }
            proof {
                let v = views(ids@);
                assert forall|k: int| 0 <= k < orphans@.len() implies
                    occurrences(v.subrange(0, i as int + 1), #[trigger] orphans@[k]@) > 0
                    && old(self).count(orphans@[k]@) == occurrences(v.subrange(0, i as int + 1), orphans@[k]@) by {
                    if k < before.len() {
                        assert(orphans@[k] == before[k]);
                    }
                }
            }
            i = i + 1;
        }
        assert(views(ids@).subrange(0, i as int) =~= views(ids@));
        proof {
            assert forall|k: int| 0 <= k < orphans@.len() implies self.count(#[trigger] orphans@[k]@) == 0 by {}
        }
        orphans
    }
}

proof fn lemma_occurrences_prefix(v: Seq<Seq<char>>, k: int, id: Seq<char>)
    requires
        0 <= k <= v.len(),
    ensures
        occurrences(v.subrange(0, k), id) <= occurrences(v, id),
    decreases v.len() - k,
{
    if k < v.len() {
        lemma_occurrences_prefix(v, k + 1, id);
        assert(v.subrange(0, k + 1).drop_last() =~= v.subrange(0, k));
    } else {
        assert(v.subrange(0, k) =~= v);
    }
}

} // verus!
