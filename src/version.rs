//! Per-file version history with a cap on the number of versions kept.

use vstd::prelude::*;
use std::collections::HashMap;
use crate::clock::now_unix_secs;
use crate::error::Error;
use crate::manifest::{ChunkManifest, ChunkRef};

verus! {

broadcast use vstd::std_specs::hash::group_hash_axioms;

/// One version of a file.
#[derive(Clone, Debug)]
pub struct FileVersion {
    /// Version number, from 1 upwards per file.
    pub version: u64,
    /// Creation time in seconds since the Unix epoch.
    pub created: i64,
    /// File size at this version.
    pub size: u64,
    /// The chunks of this version.
    pub manifest: ChunkManifest,
    /// Optional description.
    pub comment: Option<String>,
}

impl FileVersion {
    /// Version `version` of a file whose chunks are `manifest`.
    pub fn new(version: u64, manifest: ChunkManifest, comment: Option<String>) -> (r: Self)
        ensures
            r.version == version,
            r.size == manifest.total_size,
            r.manifest == manifest,
            r.comment == comment,
    {
        let size = manifest.total_size;
        FileVersion { version, created: now_unix_secs(), size, manifest, comment }
    }
}

/// Number the next version of a file gets, after the history `h`.
pub open spec fn next_version(h: Seq<FileVersion>) -> int {
    if h.len() == 0 { 1 } else { h.last().version + 1 }
}

/// The history `h` once the oldest versions beyond `max` are dropped (0: no cap).
pub open spec fn pruned(h: Seq<FileVersion>, max: nat) -> Seq<FileVersion> {
    if max > 0 && h.len() > max { h.subrange(h.len() - max, h.len() as int) } else { h }
}

/// The chunk ids that a manifest names.
pub open spec fn manifest_ids(m: ChunkManifest) -> Set<Seq<char>> {
    Set::new(|id: Seq<char>| exists|j: int| 0 <= j < m.chunks@.len() && (#[trigger] m.chunks@[j]).id@ == id)
}

/// The chunk ids that some version in `h` names.
pub open spec fn history_ids(h: Seq<FileVersion>) -> Set<Seq<char>> {
    Set::new(|id: Seq<char>| exists|i: int| 0 <= i < h.len() && #[trigger] manifest_ids(h[i].manifest).contains(id))
}

/// Version histories of the files, keyed by inode number.
pub struct VersionManager {
    versions: HashMap<u64, Vec<FileVersion>>,
    /// Versions dropped by the cap, oldest first, until collected.
    evicted: HashMap<u64, Vec<FileVersion>>,
    max_versions: usize,
}

impl VersionManager {
    /// The versions kept for `ino`, oldest first.
    pub closed spec fn history(&self, ino: u64) -> Seq<FileVersion> {
        if self.versions@.contains_key(ino) { self.versions@[ino]@ } else { Seq::empty() }
    }

    /// The versions of `ino` the cap has dropped, oldest first.
    pub closed spec fn evicted_history(&self, ino: u64) -> Seq<FileVersion> {
        if self.evicted@.contains_key(ino) { self.evicted@[ino]@ } else { Seq::empty() }
    }

    /// Whether any version of `ino` is kept.
    pub closed spec fn tracks(&self, ino: u64) -> bool {
        self.versions@.contains_key(ino)
    }

    /// The cap on versions per file (0: none).
    pub closed spec fn cap(&self) -> nat {
        self.max_versions as nat
    }

    /// A tracked file has at least one version, and no more than the cap.
    pub closed spec fn wf(&self) -> bool {
        forall|ino: u64| #[trigger] self.versions@.contains_key(ino) ==> {
            &&& self.versions@[ino]@.len() > 0
            &&& (self.max_versions > 0 ==> self.versions@[ino]@.len() <= self.max_versions)
        }
    }

    /// An empty manager keeping at most `max_versions` per file (0: no cap).
    pub fn new(max_versions: usize) -> (r: Self)
        ensures
            r.wf(),
            r.cap() == max_versions,
            forall|ino: u64| !r.tracks(ino) && r.history(ino) == Seq::<FileVersion>::empty()
                && r.evicted_history(ino) == Seq::<FileVersion>::empty(),
    {
        VersionManager { versions: HashMap::new(), evicted: HashMap::new(), max_versions }
    }

    /// Appends a version of `ino` with the next number, drops the oldest
    /// beyond the cap, and returns the new number.
    pub fn add_version(&mut self, ino: u64, manifest: ChunkManifest, comment: Option<String>) -> (r: u64)
        requires
            old(self).wf(),
            next_version(old(self).history(ino)) <= u64::MAX,
        ensures
            final(self).wf(),
            final(self).cap() == old(self).cap(),
            r == next_version(old(self).history(ino)),
            final(self).tracks(ino),
            final(self).history(ino).len() >= 1,
            final(self).history(ino) == pruned(
                old(self).history(ino).push(final(self).history(ino).last()), old(self).cap()),
            final(self).history(ino).last().version == r,
            final(self).history(ino).last().size == manifest.total_size,
            final(self).history(ino).last().manifest == manifest,
            final(self).history(ino).last().comment == comment,
            final(self).evicted_history(ino) == old(self).evicted_history(ino)
                + old(self).history(ino).push(final(self).history(ino).last()).subrange(0,
                    old(self).history(ino).len() + 1 - final(self).history(ino).len()),
            forall|other: u64| other != ino ==> final(self).history(other) == old(self).history(other)
                && final(self).tracks(other) == old(self).tracks(other)
                && final(self).evicted_history(other) == old(self).evicted_history(other),
    {
        let mut versions: Vec<FileVersion> = match self.versions.remove(&ino) {
            Some(v) => v,
            None => Vec::new(),
        };
        let next: u64 = if versions.len() == 0 { 1 } else { versions[versions.len() - 1].version + 1 };
        let v = FileVersion::new(next, manifest, comment);
        let ghost fresh = v;
        versions.push(v);
        let ghost full = versions@;
        let mut gone: Vec<FileVersion> = match self.evicted.remove(&ino) {
            Some(g) => g,
            None => Vec::new(),
        };
        let ghost gone0 = gone@;
        assert(gone0 == old(self).evicted_history(ino));
        if self.max_versions > 0 && versions.len() > self.max_versions {
            let to_remove = versions.len() - self.max_versions;
            let mut removed: usize = 0;
            while removed < to_remove
                invariant
                    removed <= to_remove,
                    to_remove == full.len() - self.max_versions,
                    versions@ == full.subrange(removed as int, full.len() as int),
                    gone@ == gone0 + full.subrange(0, removed as int),
                decreases to_remove - removed,
            {
                let v = versions.remove(0);
                gone.push(v);
                removed = removed + 1;
                assert(versions@ =~= full.subrange(removed as int, full.len() as int));
                assert(gone@ =~= gone0 + full.subrange(0, removed as int));
            }
        } else {
            assert(gone@ =~= gone0 + full.subrange(0, 0));
        }
        proof {
            assert(versions@.last() == fresh);
            assert(full =~= full.subrange(0, full.len() - versions@.len()) + versions@);
        }
        self.versions.insert(ino, versions);
        self.evicted.insert(ino, gone);
        next
    }

    /// The versions kept for `ino`, oldest first.
    pub fn get_versions(&self, ino: u64) -> (r: Option<&[FileVersion]>)
        ensures
            r.is_some() == self.tracks(ino),
            r.is_some() ==> r.unwrap()@ == self.history(ino),
    {
        match self.versions.get(&ino) {
            Some(v) => Some(v.as_slice()),
            None => None,
        }
    }

    /// Version `version` of `ino`.
    pub fn get_version(&self, ino: u64, version: u64) -> (r: Result<&FileVersion, Error>)
        ensures
            !self.tracks(ino) ==> r == Err::<&FileVersion, Error>(Error::InodeNotFound(ino)),
            self.tracks(ino) && !(exists|i: int| 0 <= i < self.history(ino).len() && (#[trigger] self.history(ino)[i]).version == version)
                ==> r == Err::<&FileVersion, Error>(Error::VersionNotFound(version)),
            self.tracks(ino) && (exists|i: int| 0 <= i < self.history(ino).len() && (#[trigger] self.history(ino)[i]).version == version)
                ==> r.is_ok() && *r.unwrap() == self.history(ino)[first_with_version(self.history(ino), version)],
    {
        let versions = match self.versions.get(&ino) {
            Some(v) => v,
            None => { return Err(Error::InodeNotFound(ino)); },
        };
        let mut i: usize = 0;
        while i < versions.len()
            invariant
                versions@ == self.history(ino),
                i <= versions@.len(),
                forall|j: int| 0 <= j < i ==> versions@[j].version != version,
            decreases versions@.len() - i,
        {
            if versions[i].version == version {
                proof {
                    lemma_first_with_version(versions@, version, i as int);
                }
                return Ok(&versions[i]);
            }
            i = i + 1;
        }
        Err(Error::VersionNotFound(version))
    }

    /// The newest version of `ino`.
    pub fn get_latest(&self, ino: u64) -> (r: Option<&FileVersion>)
        requires
            self.wf(),
        ensures
            r.is_some() == self.tracks(ino),
            r.is_some() ==> *r.unwrap() == self.history(ino).last(),
    {
        match self.versions.get(&ino) {
            Some(v) => {
                if v.len() == 0 {
                    None
                } else {
                    Some(&v[v.len() - 1])
                }
            },
            None => None,
        }
    }

    /// Forgets every version of `ino`.
    pub fn delete_versions(&mut self, ino: u64)
        requires
            old(self).wf(),
        ensures
            final(self).wf(),
            final(self).cap() == old(self).cap(),
            !final(self).tracks(ino),
            final(self).history(ino) == Seq::<FileVersion>::empty(),
            final(self).evicted_history(ino) == Seq::<FileVersion>::empty(),
            forall|other: u64| other != ino ==> final(self).history(other) == old(self).history(other)
                && final(self).tracks(other) == old(self).tracks(other)
                && final(self).evicted_history(other) == old(self).evicted_history(other),
    {
        self.versions.remove(&ino);
        self.evicted.remove(&ino);
    }

    /// A copy of every history, to restore with the inode tree's snapshot.
    pub fn snapshot(&self) -> (r: Self)
        ensures
            forall|ino: u64| r.history(ino) == self.history(ino) && r.tracks(ino) == self.tracks(ino)
                && r.evicted_history(ino) == self.evicted_history(ino),
            r.cap() == self.cap(),
            self.wf() ==> r.wf(),
    {
        VersionManager { versions: self.versions.clone(), evicted: self.evicted.clone(), max_versions: self.max_versions }
    }

    /// Replaces every history by those of `snap`.
    pub fn restore(&mut self, snap: &Self)
        requires
            snap.wf(),
        ensures
            final(self).wf(),
            forall|ino: u64| final(self).history(ino) == snap.history(ino) && final(self).tracks(ino) == snap.tracks(ino)
                && final(self).evicted_history(ino) == snap.evicted_history(ino),
            final(self).cap() == snap.cap(),
    {
        self.versions = snap.versions.clone();
        self.evicted = snap.evicted.clone();
        self.max_versions = snap.max_versions;
    }

    /// Number of versions kept for `ino`.
    pub fn version_count(&self, ino: u64) -> (r: usize)
        ensures
            r == self.history(ino).len(),
    {
        match self.versions.get(&ino) {
            Some(v) => v.len(),
            None => 0,
        }
    }

    /// Chunk ids that only evicted versions of `ino` named: neither a kept
    /// version nor `current` names them. Each once, in order of first
    /// appearance; these go to garbage collection.
    pub fn get_orphaned_chunks(&self, ino: u64, current: &ChunkManifest) -> (r: Vec<String>)
        ensures
            r@.map_values(|s: String| s@).no_duplicates(),
            r@.map_values(|s: String| s@).to_set()
                == history_ids(self.evicted_history(ino)).difference(excluded(*current, self.history(ino))),
    {
        let mut out: Vec<String> = Vec::new();
        let empty: Vec<FileVersion> = Vec::new();
        let kept: &Vec<FileVersion> = match self.versions.get(&ino) {
            Some(v) => v,
            None => &empty,
        };
        assert(kept@ == self.history(ino));
        let ghost h = self.evicted_history(ino);
        match self.evicted.get(&ino) {
            Some(versions) => {
                let mut i: usize = 0;
                while i < versions.len()
                    invariant
                        versions@ == h,
                        kept@ == self.history(ino),
                        i <= h.len(),
                        out@.map_values(|s: String| s@).no_duplicates(),
                        out@.map_values(|s: String| s@).to_set()
                            == history_ids(h.subrange(0, i as int)).difference(excluded(*current, kept@)),
                    decreases h.len() - i,
                {
                    collect_new_ids(&mut out, &versions[i].manifest, current, kept);
                    proof {
                        let pre = h.subrange(0, i as int);
                        let post = h.subrange(0, i as int + 1);
                        assert(history_ids(post) =~= history_ids(pre).union(manifest_ids(h[i as int].manifest))) by {
                            assert forall|id: Seq<char>| history_ids(post).contains(id) implies
                                history_ids(pre).union(manifest_ids(h[i as int].manifest)).contains(id) by {
                                let k = choose|k: int| 0 <= k < post.len() && #[trigger] manifest_ids(post[k].manifest).contains(id);
                                if k < i {
                                    assert(pre[k] == post[k]);
                                }
                            }
                            assert forall|id: Seq<char>| history_ids(pre).union(manifest_ids(h[i as int].manifest)).contains(id)
                                implies history_ids(post).contains(id) by {
                                if history_ids(pre).contains(id) {
                                    let k = choose|k: int| 0 <= k < pre.len() && #[trigger] manifest_ids(pre[k].manifest).contains(id);
                                    assert(post[k] == pre[k]);
                                } else {
                                    assert(post[i as int] == h[i as int]);
                                }
                            }
                        }
                    }
                    i = i + 1;
                }
                assert(h.subrange(0, i as int) =~= h);
            },
            None => {
                assert(out@.map_values(|s: String| s@) =~= Seq::<Seq<char>>::empty());
                assert(history_ids(h) =~= Set::<Seq<char>>::empty());
            },
        }
        out
    }
}

/// Whether a version in `vs` names `id`.
fn history_holds(vs: &Vec<FileVersion>, id: &String) -> (r: bool)
    ensures
        r == history_ids(vs@).contains(id@),
{
    let mut i: usize = 0;
    while i < vs.len()
        invariant
            i <= vs@.len(),
            forall|j: int| 0 <= j < i ==> !(#[trigger] manifest_ids(vs@[j].manifest)).contains(id@),
        decreases vs@.len() - i,
    {
        if manifest_holds(&vs[i].manifest, id) {
            assert(manifest_ids(vs@[i as int].manifest).contains(id@));
            return true;
        }
        i = i + 1;
    }
    false
}

/// Ids that a current manifest or a kept version still names.
pub open spec fn excluded(current: ChunkManifest, kept: Seq<FileVersion>) -> Set<Seq<char>> {
    manifest_ids(current).union(history_ids(kept))
}

/// Index of the first version numbered `version` in `h`.
pub open spec fn first_with_version(h: Seq<FileVersion>, version: u64) -> int {
    choose|i: int| 0 <= i < h.len() && h[i].version == version
        && forall|j: int| 0 <= j < i ==> h[j].version != version
}

proof fn lemma_first_with_version(h: Seq<FileVersion>, version: u64, i: int)
    requires
        0 <= i < h.len(),
        h[i].version == version,
        forall|j: int| 0 <= j < i ==> h[j].version != version,
    ensures
        first_with_version(h, version) == i,
{
    let k = first_with_version(h, version);
    if k < i {
        assert(h[k].version != version);
    }
    if k > i {
        assert(h[i].version != version);
    }
}

/// Whether `ids` holds `id`.
fn holds_id(ids: &Vec<String>, id: &String) -> (r: bool)
    ensures
        r == ids@.map_values(|s: String| s@).contains(id@),
{
    let ghost v = ids@.map_values(|s: String| s@);
    let mut i: usize = 0;
    while i < ids.len()
        invariant
            v == ids@.map_values(|s: String| s@),
            i <= ids@.len(),
            forall|j: int| 0 <= j < i ==> v[j] != id@,
        decreases ids@.len() - i,
    {
        if ids[i] == *id {
            assert(v[i as int] == id@);
            return true;
        }
        i = i + 1;
    }
    false
}

/// Whether `m` names `id`.
fn manifest_holds(m: &ChunkManifest, id: &String) -> (r: bool)
    ensures
        r == manifest_ids(*m).contains(id@),
{
    let mut i: usize = 0;
    while i < m.chunks.len()
        invariant
            i <= m.chunks@.len(),
            forall|j: int| 0 <= j < i ==> (#[trigger] m.chunks@[j]).id@ != id@,
        decreases m.chunks@.len() - i,
    {
        if m.chunks[i].id == *id {
            assert(manifest_ids(*m).contains(id@));
            return true;
        }
        i = i + 1;
    }
    false
}

/// Appends to `out` the ids of `m` that neither `out`, `current` nor a
/// version in `kept` holds.
fn collect_new_ids(out: &mut Vec<String>, m: &ChunkManifest, current: &ChunkManifest, kept: &Vec<FileVersion>)
    requires
        old(out)@.map_values(|s: String| s@).no_duplicates(),
    ensures
        final(out)@.map_values(|s: String| s@).no_duplicates(),
        final(out)@.map_values(|s: String| s@).to_set()
            == old(out)@.map_values(|s: String| s@).to_set().union(manifest_ids(*m).difference(excluded(*current, kept@))),
{
    let ghost start = old(out)@.map_values(|s: String| s@).to_set();
    let mut i: usize = 0;
    while i < m.chunks.len()
        invariant
            i <= m.chunks@.len(),
            out@.map_values(|s: String| s@).no_duplicates(),
            out@.map_values(|s: String| s@).to_set() == start.union(
                Set::new(|id: Seq<char>| exists|j: int| 0 <= j < i && (#[trigger] m.chunks@[j]).id@ == id)
                    .difference(excluded(*current, kept@))),
        decreases m.chunks@.len() - i,
    {
        let id = &m.chunks[i].id;
        let ghost before = out@.map_values(|s: String| s@);
        if !manifest_holds(current, id) && !history_holds(kept, id) && !holds_id(out, id) {
            out.push(id.clone());
            proof {
                let after = out@.map_values(|s: String| s@);
                assert(after =~= before.push(id@));
                assert forall|a: int, b: int| 0 <= a < b < after.len() implies after[a] != after[b] by {
                    if b == before.len() {
                        assert(before[a] == after[a]);
                    }
                }
            }
        }
        proof {
            let seen_i = Set::new(|x: Seq<char>| exists|j: int| 0 <= j < i && (#[trigger] m.chunks@[j]).id@ == x);
            let seen_i1 = Set::new(|x: Seq<char>| exists|j: int| 0 <= j < i + 1 && (#[trigger] m.chunks@[j]).id@ == x);
            assert(seen_i1 =~= seen_i.insert(id@)) by {
                assert forall|x: Seq<char>| seen_i1.contains(x) implies seen_i.insert(id@).contains(x) by {
                    let j = choose|j: int| 0 <= j < i + 1 && (#[trigger] m.chunks@[j]).id@ == x;
                    if j < i {
                        assert(seen_i.contains(x));
                    }
                }
                assert(seen_i1.contains(id@)) by {
                    assert(m.chunks@[i as int].id@ == id@);
                }
            }
            let after = out@.map_values(|s: String| s@);
            assert(after.to_set() =~= start.union(seen_i1.difference(excluded(*current, kept@)))) by {
                assert forall|x: Seq<char>| after.to_set().contains(x) <==> start.union(seen_i1.difference(excluded(*current, kept@))).contains(x) by {
                    if after.to_set().contains(x) {
                        let j = choose|j: int| 0 <= j < after.len() && after[j] == x;
                        if j < before.len() {
                            assert(before[j] == x);
                            assert(before.to_set().contains(x));
                        }
                    }
                    if before.to_set().contains(x) {
                        let j = choose|j: int| 0 <= j < before.len() && before[j] == x;
                        assert(after[j] == x);
                    }
                    if x == id@ && !excluded(*current, kept@).contains(x) {
                        if before.contains(x) {
                            let j = choose|j: int| 0 <= j < before.len() && before[j] == x;
                            assert(before.to_set().contains(x));
                        } else {
                            assert(after[after.len() - 1] == x);
                        }
                    }
                }
            }
        }
        i = i + 1;
    }
    assert(Set::new(|id: Seq<char>| exists|j: int| 0 <= j < i && (#[trigger] m.chunks@[j]).id@ == id) =~= manifest_ids(*m));
}

} // verus!
