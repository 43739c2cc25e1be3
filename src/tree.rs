//! The inode tree: an arena of inodes keyed by number, with parent and
//! child links by number, names unique within a directory.

use vstd::prelude::*;
use std::collections::HashMap;
use crate::error::Error;
use crate::inode::{without_child, FileType, Inode, ROOT_INO};

verus! {

broadcast use vstd::std_specs::hash::group_hash_axioms;

/// `c` is an entry of directory `d` in `m`.
pub open spec fn child_of(m: Map<u64, Inode>, c: u64, d: u64) -> bool {
    m.contains_key(c) && c != ROOT_INO && m[c].parent == d
}

/// The entry of directory `d` named `name` is `c`.
pub open spec fn named(m: Map<u64, Inode>, d: u64, name: Seq<char>, c: u64) -> bool {
    child_of(m, c, d) && m[c].name@ == name
}

/// Following parents from `cur` for at most `fuel` steps meets `top`
/// (stopping at the root or at a missing inode).
pub open spec fn reaches(m: Map<u64, Inode>, cur: u64, top: u64, fuel: nat) -> bool
    decreases fuel,
{
    if fuel == 0 {
        false
    } else if cur == top {
        true
    } else if cur == ROOT_INO || !m.contains_key(cur) {
        false
    } else {
        reaches(m, m[cur].parent, top, (fuel - 1) as nat)
    }
}

/// The tree's invariants: the root is a directory and its own parent; every
/// other inode's parent is a directory; each directory lists exactly the
/// inodes whose parent it is, once each; names are unique in a directory.
pub open spec fn tree_wf(m: Map<u64, Inode>, next_ino: u64) -> bool {
    &&& m.contains_key(ROOT_INO)
    &&& m[ROOT_INO].parent == ROOT_INO
    &&& m[ROOT_INO].attrs.kind == FileType::Directory
    &&& forall|k: u64| #[trigger] m.contains_key(k) ==> m[k].ino == k && k < next_ino
    &&& forall|k: u64| #[trigger] m.contains_key(k) && k != ROOT_INO ==> m.contains_key(m[k].parent)
        && m[m[k].parent].attrs.kind == FileType::Directory
    &&& forall|d: u64, c: u64| #![trigger m[d].children@.contains(c)] #![trigger child_of(m, c, d)]
        m.contains_key(d) ==> (m[d].children@.contains(c) <==> child_of(m, c, d))
    &&& forall|d: u64| #[trigger] m.contains_key(d) ==> m[d].children@.no_duplicates()
    &&& forall|a: u64, b: u64| #[trigger] child_of(m, a, m[b].parent) && #[trigger] m.contains_key(b) && b != ROOT_INO && a != b
        ==> m[a].name@ != m[b].name@
}

/// Every inode of the file system, by number.
pub struct InodeTable {
    inodes: HashMap<u64, Inode>,
    next_ino: u64,
}

impl InodeTable {
    pub closed spec fn map(&self) -> Map<u64, Inode> {
        self.inodes@
    }

    /// The number the next new inode gets.
    pub closed spec fn next(&self) -> u64 {
        self.next_ino
    }

    pub closed spec fn wf(&self) -> bool {
        tree_wf(self.inodes@, self.next_ino)
    }

    /// A tree holding only `root`.
    pub fn new(root: Inode) -> (r: Result<Self, Error>)
        ensures
            (root.ino == ROOT_INO && root.parent == ROOT_INO && root.attrs.kind == FileType::Directory
                && root.children@.len() == 0) <==> r.is_ok(),
            r.is_ok() ==> r.unwrap().wf() && r.unwrap().map() == Map::<u64, Inode>::empty().insert(ROOT_INO, root),
            r.is_err() ==> r == Err::<Self, Error>(Error::Config),
    {
        if root.ino != ROOT_INO || root.parent != ROOT_INO || root.attrs.kind != FileType::Directory
            || root.children.len() != 0 {
            return Err(Error::Config);
        }
        let mut inodes: HashMap<u64, Inode> = HashMap::new();
        inodes.insert(ROOT_INO, root);
        let t = InodeTable { inodes, next_ino: ROOT_INO + 1 };
        proof {
            let m = t.inodes@;
            assert(m == Map::<u64, Inode>::empty().insert(ROOT_INO, root));
            assert forall|d: u64, c: u64| m.contains_key(d) implies
                (#[trigger] m[d].children@.contains(c) <==> #[trigger] child_of(m, c, d)) by {
                assert(d == ROOT_INO);
                if child_of(m, c, d) {
                    assert(c == ROOT_INO);
                }
            }
            assert(root.children@.no_duplicates());
        }
        Ok(t)
    }

    /// Adds `node` to directory `parent` as `name`, under the next inode
    /// number, which is returned.
    pub fn create(&mut self, parent: u64, name: String, node: Inode) -> (r: Result<u64, Error>)
        requires
            old(self).wf(),
        ensures
            final(self).wf(),
            !old(self).map().contains_key(parent) ==> r == Err::<u64, Error>(Error::InodeNotFound(parent)),
            old(self).map().contains_key(parent) && old(self).map()[parent].attrs.kind != FileType::Directory
                ==> r == Err::<u64, Error>(Error::NotADirectory(parent)),
            r.is_ok() ==> {
                let ino = r.unwrap();
                let m0 = old(self).map();
                let m1 = final(self).map();
                &&& m0.contains_key(parent) && m0[parent].attrs.kind == FileType::Directory
                &&& !(exists|c: u64| #[trigger] named(m0, parent, name@, c))
                &&& !m0.contains_key(ino)
                &&& m1.dom() == m0.dom().insert(ino)
                &&& named(m1, parent, name@, ino)
                &&& m1[ino].attrs.kind == node.attrs.kind
                &&& m1[ino].version == node.version
                &&& m1[parent].children@ == m0[parent].children@.push(ino)
                &&& forall|k: u64| k != ino && k != parent && #[trigger] m0.contains_key(k) ==> m1[k] == m0[k]
            },
            r.is_err() ==> final(self).map() == old(self).map(),
            old(self).map().contains_key(parent) && old(self).map()[parent].attrs.kind == FileType::Directory
                && !(exists|c: u64| #[trigger] named(old(self).map(), parent, name@, c))
                && node.children@.len() == 0 && old(self).next() < u64::MAX ==> r.is_ok(),
    {
        let kind = match self.inodes.get(&parent) {
            Some(d) => d.attrs.kind,
            None => { return Err(Error::InodeNotFound(parent)); },
        };
        if kind != FileType::Directory {
            return Err(Error::NotADirectory(parent));
        }
        if self.lookup(parent, name.as_str()).is_some() {
            return Err(Error::AlreadyExists);
        }
        if node.children.len() != 0 || self.next_ino == u64::MAX {
            return Err(Error::Config);
        }
        let ghost m0 = self.inodes@;
        let ino = self.next_ino;
        let mut node = node;
        node.ino = ino;
        node.parent = parent;
        node.name = name;
        let mut dir = match self.inodes.remove(&parent) {
            Some(d) => d,
            None => { return Err(Error::InodeNotFound(parent)); },
        };
        assert(dir == m0[parent]);
        assert(!dir.children@.contains(ino)) by {
            if dir.children@.contains(ino) {
                assert(child_of(m0, ino, parent));
            }
        }
        dir.add_child(ino);
        let ghost newnode = node;
        let ghost newdir = dir;
        self.inodes.insert(ino, node);
        self.inodes.insert(parent, dir);
        self.next_ino = ino + 1;
        proof {
            let m1 = self.inodes@;
            assert(m1 == m0.insert(ino, newnode).insert(parent, newdir));
            assert(!m0.contains_key(ino));
            assert(m1.dom() =~= m0.dom().insert(ino));
            assert forall|k: u64| #[trigger] m1.contains_key(k) && k != ROOT_INO implies m1.contains_key(m1[k].parent)
                && m1[m1[k].parent].attrs.kind == FileType::Directory by {
                if k != ino && k != parent {
                    assert(m1[k] == m0[k]);
                }
            }
            assert(ino != ROOT_INO);
            assert(parent != ino);
            assert(m1[ino] == newnode);
            assert(m1[parent] == newdir);
            assert(newnode.children@.len() == 0);
            assert forall|d: u64, c: u64| m1.contains_key(d) implies
                (#[trigger] m1[d].children@.contains(c) <==> #[trigger] child_of(m1, c, d)) by {
                if c == ino {
                    if d == parent {
                        assert(newdir.children@.last() == ino);
                        assert(newdir.children@.contains(ino));
                    } else if d == ino {
                        assert(!newnode.children@.contains(c));
                    } else {
                        assert(m1[d] == m0[d]);
                        assert(!child_of(m0, ino, d));
                    }
                } else {
                    assert(child_of(m1, c, d) == child_of(m0, c, d)) by {
                        if m1.contains_key(c) && c != parent {
                            assert(m1[c] == m0[c]);
                        }
                    }
                    if d == ino {
                        assert(!newnode.children@.contains(c));
                        if child_of(m0, c, ino) {
                            assert(m0.contains_key(m0[c].parent));
                        }
                    } else if d == parent {
                        assert(newdir.children@ == m0[parent].children@.push(ino));
                        if m0[parent].children@.contains(c) {
                            let j = choose|j: int| 0 <= j < m0[parent].children@.len() && m0[parent].children@[j] == c;
                            assert(newdir.children@[j] == c);
                        }
                        if newdir.children@.contains(c) {
                            let j = choose|j: int| 0 <= j < newdir.children@.len() && newdir.children@[j] == c;
                            assert(m0[parent].children@[j] == c);
                            assert(m0[parent].children@.contains(c));
                        }
                        assert(m0[parent].children@.contains(c) <==> child_of(m0, c, parent));
                    } else {
                        assert(m1[d] == m0[d]);
                    }
                }
            }
            assert forall|d: u64| #[trigger] m1.contains_key(d) implies m1[d].children@.no_duplicates() by {
                if d != ino && d != parent {
                    assert(m1[d] == m0[d]);
                } else if d == parent {
                    assert forall|a: int, b: int| 0 <= a < b < m1[d].children@.len() implies
                        m1[d].children@[a] != m1[d].children@[b] by {
                        if b == m1[d].children@.len() - 1 {
                            assert(m0[parent].children@.contains(m1[d].children@[a]));
                        }
                    }
                }
            }
            assert forall|x: u64| x != ino && #[trigger] m1.contains_key(x) implies
                m1[x].name == m0[x].name && m1[x].parent == m0[x].parent && m0.contains_key(x) by {
                if x != parent {
                    assert(m1[x] == m0[x]);
                }
            }
            assert forall|a: u64, b: u64| #[trigger] child_of(m1, a, m1[b].parent) && #[trigger] m1.contains_key(b)
                && b != ROOT_INO && a != b implies m1[a].name@ != m1[b].name@ by {
                if a == ino {
                    assert(m1[b].parent == m0[b].parent && m0.contains_key(b));
                    assert(child_of(m0, b, parent));
                    assert(!named(m0, parent, name@, b));
                } else if b == ino {
                    assert(m1[a].parent == m0[a].parent && m0.contains_key(a));
                    assert(child_of(m0, a, parent));
                    assert(!named(m0, parent, name@, a));
                } else {
                    assert(m1[a].parent == m0[a].parent && m1[b].parent == m0[b].parent);
                    assert(child_of(m0, a, m0[b].parent));
                    assert(m0.contains_key(b));
                }
            }
            assert(named(m1, parent, newnode.name@, ino));
        }
        Ok(ino)
    }

    /// Removes the entry `name` of directory `parent` (a directory only when
    /// empty) and returns its inode number.
    pub fn unlink(&mut self, parent: u64, name: &str) -> (r: Result<u64, Error>)
        requires
            old(self).wf(),
        ensures
            final(self).wf(),
            !(exists|c: u64| #[trigger] named(old(self).map(), parent, name@, c))
                ==> r == Err::<u64, Error>(Error::InodeNotFound(parent)),
            r.is_err() ==> final(self).map() == old(self).map(),
            r.is_ok() ==> {
                let c = r.unwrap();
                let m0 = old(self).map();
                let m1 = final(self).map();
                &&& named(m0, parent, name@, c)
                &&& m0[c].children@.len() == 0
                &&& m1.dom() == m0.dom().remove(c)
                &&& m1[parent].children@ == without_child(m0[parent].children@, c)
                &&& forall|k: u64| k != c && k != parent && #[trigger] m0.contains_key(k) ==> m1[k] == m0[k]
            },
            (exists|c: u64| #[trigger] named(old(self).map(), parent, name@, c) && old(self).map()[c].children@.len() == 0)
                ==> r.is_ok(),
    {
        let c = match self.lookup(parent, name) {
            Some(c) => c,
            None => { return Err(Error::InodeNotFound(parent)); },
        };
        let ghost m0 = self.inodes@;
        proof {
            if exists|x: u64| #[trigger] named(m0, parent, name@, x) && m0[x].children@.len() == 0 {
                let x = choose|x: u64| #[trigger] named(m0, parent, name@, x) && m0[x].children@.len() == 0;
                if x != c {
                    assert(child_of(m0, x, m0[c].parent));
                }
            }
        }
        let empty = match self.inodes.get(&c) {
            Some(node) => node.children.len() == 0,
            None => { return Err(Error::InodeNotFound(parent)); },
        };
        if !empty {
            return Err(Error::NotEmpty(c));
        }
        let mut dir = match self.inodes.remove(&parent) {
            Some(d) => d,
            None => { return Err(Error::InodeNotFound(parent)); },
        };
        dir.remove_child(c);
        let ghost newdir = dir;
        self.inodes.remove(&c);
        self.inodes.insert(parent, dir);
        proof {
            let m1 = self.inodes@;
            assert(c != parent) by {
                assert(m0.contains_key(m0[c].parent));
                if c == parent {
                    assert(child_of(m0, c, c));
                    assert(m0[c].children@.contains(c));
                }
            }
            assert(m1 == m0.remove(c).insert(parent, newdir));
            assert(m1.dom() =~= m0.dom().remove(c));
            lemma_filter_ne(m0[parent].children@, c);
            assert forall|x: u64| x != c && x != parent && #[trigger] m1.contains_key(x) implies m1[x] == m0[x] by {}
            assert forall|x: u64| #[trigger] m1.contains_key(x) implies
                m1[x].name == m0[x].name && m1[x].parent == m0[x].parent && m1[x].attrs.kind == m0[x].attrs.kind by {}
            assert forall|x: u64| m0.contains_key(x) && x != ROOT_INO implies #[trigger] m0[x].parent != c by {
                if m0[x].parent == c {
                    assert(child_of(m0, x, c));
                    assert(m0[c].children@.contains(x));
                }
            }
            assert forall|k: u64| #[trigger] m1.contains_key(k) && k != ROOT_INO implies m1.contains_key(m1[k].parent)
                && m1[m1[k].parent].attrs.kind == FileType::Directory by {
                assert(m0[k].parent != c);
            }
            assert forall|d: u64, x: u64| m1.contains_key(d) implies
                (#[trigger] m1[d].children@.contains(x) <==> #[trigger] child_of(m1, x, d)) by {
                if d == parent {
                    if x != c {
                        assert(child_of(m1, x, d) == child_of(m0, x, d));
                    }
                } else {
                    assert(m1[d] == m0[d]);
                    if x == c {
                        assert(!child_of(m0, c, d));
                    } else {
                        assert(child_of(m1, x, d) == child_of(m0, x, d));
                    }
                }
            }
            assert forall|d: u64| #[trigger] m1.contains_key(d) implies m1[d].children@.no_duplicates() by {
                if d != parent {
                    assert(m1[d] == m0[d]);
                }
            }
            assert forall|a: u64, b: u64| #[trigger] child_of(m1, a, m1[b].parent) && #[trigger] m1.contains_key(b)
                && b != ROOT_INO && a != b implies m1[a].name@ != m1[b].name@ by {
                assert(child_of(m0, a, m0[b].parent));
                assert(m0.contains_key(b));
            }
        }
        Ok(c)
    }

    /// Whether `ino` lies at or below `top`, following parents from `ino`.
    fn within(&self, ino: u64, top: u64) -> (r: bool)
        ensures
            r == reaches(self.map(), ino, top, self.map().len()),
    {
        let mut cur = ino;
        let mut steps: usize = 0;
        let limit = self.inodes.len();
        while steps < limit
            invariant
                steps <= limit,
                limit == self.map().len(),
                reaches(self.map(), ino, top, limit as nat) == reaches(self.map(), cur, top, (limit - steps) as nat),
            decreases limit - steps,
        {
            if cur == top {
                return true;
            }
            if cur == ROOT_INO {
                return false;
            }
            cur = match self.inodes.get(&cur) {
                Some(n) => n.parent,
                None => { return false; },
            };
            steps = steps + 1;
        }
        false
    }

    /// Moves the entry `name` of directory `parent` to directory
    /// `new_parent` as `new_name`; its inode number and version stay.
    pub fn rename(&mut self, parent: u64, name: &str, new_parent: u64, new_name: String) -> (r: Result<u64, Error>)
        requires
            old(self).wf(),
        ensures
            final(self).wf(),
            !(exists|c: u64| #[trigger] named(old(self).map(), parent, name@, c))
                ==> r == Err::<u64, Error>(Error::InodeNotFound(parent)),
            r.is_err() ==> final(self).map() == old(self).map(),
            r.is_ok() ==> {
                let c = r.unwrap();
                let m0 = old(self).map();
                let m1 = final(self).map();
                &&& named(m0, parent, name@, c)
                &&& named(m1, new_parent, new_name@, c)
                &&& m1.dom() == m0.dom()
                &&& m1[c].version == m0[c].version
                &&& m1[c].attrs.kind == m0[c].attrs.kind
                &&& m1[c].children == m0[c].children
                &&& forall|k: u64| k != c && k != parent && k != new_parent && #[trigger] m0.contains_key(k) ==> m1[k] == m0[k]
            },
            forall|c: u64| #[trigger] named(old(self).map(), parent, name@, c)
                && old(self).map().contains_key(new_parent)
                && old(self).map()[new_parent].attrs.kind == FileType::Directory
                && c != parent && c != new_parent
                && !reaches(old(self).map(), new_parent, c, old(self).map().len())
                && (forall|x: u64| #[trigger] named(old(self).map(), new_parent, new_name@, x) ==> x == c)
                ==> r == Ok::<u64, Error>(c),
    {
        let c = match self.lookup(parent, name) {
            Some(c) => c,
            None => { return Err(Error::InodeNotFound(parent)); },
        };
        let ghost m0 = self.inodes@;
        let target_kind = match self.inodes.get(&new_parent) {
            Some(d) => d.attrs.kind,
            None => { return Err(Error::InodeNotFound(new_parent)); },
        };
        if target_kind != FileType::Directory {
            return Err(Error::NotADirectory(new_parent));
        }
        match self.lookup(new_parent, new_name.as_str()) {
            Some(x) => {
                if x != c {
                    return Err(Error::AlreadyExists);
                }
                return Ok(c);
            },
            None => {},
        }
        if c == parent || c == new_parent || self.within(new_parent, c) {
            return Err(Error::InvalidMove);
        }
        let mut node = match self.inodes.remove(&c) {
            Some(n) => n,
            None => { return Err(Error::InodeNotFound(parent)); },
        };
        assert(node == m0[c]);
        node.parent = new_parent;
        node.name = new_name;
        let ghost newnode = node;
        if new_parent == parent {
            self.inodes.insert(c, node);
            proof {
                let m1 = self.inodes@;
                assert(m1 == m0.insert(c, newnode));
                assert(m1.dom() =~= m0.dom());
                assert forall|x: u64| #[trigger] m1.contains_key(x) implies
                    m1[x].parent == m0[x].parent && m1[x].attrs.kind == m0[x].attrs.kind
                    && m1[x].children == m0[x].children && m0.contains_key(x) by {}
                assert forall|x: u64| x != c && #[trigger] m1.contains_key(x) implies m1[x] == m0[x] by {}
                assert forall|d: u64, x: u64| m1.contains_key(d) implies
                    (#[trigger] m1[d].children@.contains(x) <==> #[trigger] child_of(m1, x, d)) by {
                    assert(child_of(m1, x, d) == child_of(m0, x, d));
                }
                assert forall|d: u64| #[trigger] m1.contains_key(d) implies m1[d].children@.no_duplicates() by {}
                assert forall|a: u64, b: u64| #[trigger] child_of(m1, a, m1[b].parent) && #[trigger] m1.contains_key(b)
                    && b != ROOT_INO && a != b implies m1[a].name@ != m1[b].name@ by {
                    if a == c {
                        assert(child_of(m0, b, parent));
                        assert(!named(m0, parent, newnode.name@, b));
                    } else if b == c {
                        assert(child_of(m0, a, parent));
                        assert(!named(m0, parent, newnode.name@, a));
                    } else {
                        assert(child_of(m0, a, m0[b].parent));
                    }
                }
                assert(named(m1, new_parent, newnode.name@, c));
            }
            return Ok(c);
        }
        let mut from = match self.inodes.remove(&parent) {
            Some(d) => d,
            None => { return Err(Error::InodeNotFound(parent)); },
        };
        let mut to = match self.inodes.remove(&new_parent) {
            Some(d) => d,
            None => { return Err(Error::InodeNotFound(new_parent)); },
        };
        assert(from == m0[parent] && to == m0[new_parent]);
        assert(!to.children@.contains(c)) by {
            if to.children@.contains(c) {
                assert(child_of(m0, c, new_parent));
            }
        }
        from.remove_child(c);
        to.add_child(c);
        let ghost newfrom = from;
        let ghost newto = to;
        self.inodes.insert(parent, from);
        self.inodes.insert(new_parent, to);
        self.inodes.insert(c, node);
        proof {
            let m1 = self.inodes@;
            assert(m1 == m0.insert(parent, newfrom).insert(new_parent, newto).insert(c, newnode));
            assert(m1.dom() =~= m0.dom());
            lemma_filter_ne(m0[parent].children@, c);
            assert forall|x: u64| #[trigger] m1.contains_key(x) implies
                m1[x].attrs.kind == m0[x].attrs.kind && m0.contains_key(x)
                && (x != c ==> m1[x].parent == m0[x].parent && m1[x].name == m0[x].name)
                && (x != parent && x != new_parent ==> m1[x].children == m0[x].children) by {}
            assert forall|x: u64| x != c && x != parent && x != new_parent && #[trigger] m1.contains_key(x)
                implies m1[x] == m0[x] by {}
            assert forall|k: u64| #[trigger] m1.contains_key(k) && k != ROOT_INO implies m1.contains_key(m1[k].parent)
                && m1[m1[k].parent].attrs.kind == FileType::Directory by {
                if k != c {
                    assert(m0.contains_key(m0[k].parent));
                }
            }
            assert forall|d: u64, x: u64| m1.contains_key(d) implies
                (#[trigger] m1[d].children@.contains(x) <==> #[trigger] child_of(m1, x, d)) by {
                if x != c {
                    assert(child_of(m1, x, d) == child_of(m0, x, d));
                }
                if d == parent {
                } else if d == new_parent {
                    assert(newto.children@ == m0[new_parent].children@.push(c));
                    if m0[new_parent].children@.contains(x) {
                        let j = choose|j: int| 0 <= j < m0[new_parent].children@.len() && m0[new_parent].children@[j] == x;
                        assert(newto.children@[j] == x);
                    }
                    if newto.children@.contains(x) && x != c {
                        let j = choose|j: int| 0 <= j < newto.children@.len() && newto.children@[j] == x;
                        assert(m0[new_parent].children@[j] == x);
                        assert(m0[new_parent].children@.contains(x));
                    }
                    if x == c {
                        assert(newto.children@[newto.children@.len() - 1] == c);
                    }
                } else {
                    assert(m1[d].children == m0[d].children);
                    if x == c {
                        assert(!child_of(m0, c, d));
                    }
                }
            }
            assert forall|d: u64| #[trigger] m1.contains_key(d) implies m1[d].children@.no_duplicates() by {
                if d == new_parent {
                    assert forall|a: int, b: int| 0 <= a < b < newto.children@.len() implies
                        newto.children@[a] != newto.children@[b] by {
                        if b == newto.children@.len() - 1 {
                            assert(m0[new_parent].children@.contains(newto.children@[a]));
                        }
                    }
                }
            }
            assert forall|a: u64, b: u64| #[trigger] child_of(m1, a, m1[b].parent) && #[trigger] m1.contains_key(b)
                && b != ROOT_INO && a != b implies m1[a].name@ != m1[b].name@ by {
                if a == c {
                    assert(child_of(m0, b, new_parent));
                    assert(!named(m0, new_parent, newnode.name@, b));
                } else if b == c {
                    assert(child_of(m0, a, new_parent));
                    assert(!named(m0, new_parent, newnode.name@, a));
                } else {
                    assert(child_of(m0, a, m0[b].parent));
                }
            }
            assert(named(m1, new_parent, newnode.name@, c));
        }
        Ok(c)
    }

    /// A copy of the whole tree, to restore later.
    pub fn snapshot(&self) -> (r: InodeTable)
        ensures
            r.map() == self.map(),
            r.next() == self.next(),
            self.wf() ==> r.wf(),
    {
        InodeTable { inodes: self.inodes.clone(), next_ino: self.next_ino }
    }

    /// Replaces the tree by the contents of `snap`. Inode numbers handed out
    /// since are not handed out again.
    pub fn restore(&mut self, snap: &InodeTable)
        requires
            snap.wf(),
        ensures
            final(self).wf(),
            final(self).map() == snap.map(),
            final(self).next() >= old(self).next(),
    {
        self.inodes = snap.inodes.clone();
        if snap.next_ino > self.next_ino {
            self.next_ino = snap.next_ino;
        }
    }

    /// Number of inodes.
    pub fn len(&self) -> (r: usize)
        ensures
            r == self.map().len(),
    {
        self.inodes.len()
    }

    /// The inode numbered `ino`.
    pub fn get(&self, ino: u64) -> (r: Option<&Inode>)
        ensures
            r.is_some() == self.map().contains_key(ino),
            r.is_some() ==> *r.unwrap() == self.map()[ino],
    {
        self.inodes.get(&ino)
    }

    /// The entry of directory `parent` named `name`.
    pub fn lookup(&self, parent: u64, name: &str) -> (r: Option<u64>)
        requires
            self.wf(),
        ensures
            r.is_none() <==> !exists|c: u64| #[trigger] named(self.map(), parent, name@, c),
            r.is_some() ==> named(self.map(), parent, name@, r.unwrap()),
    {
        let m = Ghost(self.inodes@);
        let dir = match self.inodes.get(&parent) {
            Some(d) => d,
            None => {
                proof {
                    if exists|c: u64| #[trigger] named(m@, parent, name@, c) {
                        let c = choose|c: u64| #[trigger] named(m@, parent, name@, c);
                        assert(m@.contains_key(m@[c].parent));
                    }
                }
                return None;
            },
        };
        let key = name.to_owned();
        let mut i: usize = 0;
        while i < dir.children.len()
            invariant
                m@ == self.inodes@,
                tree_wf(m@, self.next_ino),
                m@.contains_key(parent),
                *dir == m@[parent],
                key@ == name@,
                i <= dir.children@.len(),
                forall|j: int| 0 <= j < i ==> !named(m@, parent, name@, #[trigger] dir.children@[j]),
            decreases dir.children@.len() - i,
        {
            let c = dir.children[i];
            assert(m@[parent].children@.contains(c));
            assert(child_of(m@, c, parent));
            let inode = match self.inodes.get(&c) { Some(x) => x, None => { return None; } };
            if inode.name == key {
                assert(child_of(m@, c, parent));
                assert(named(m@, parent, name@, c));
                assert(self.map() == m@);
                assert(named(self.map(), parent, name@, c));
                return Some(c);
            }
            i = i + 1;
        }
        proof {
            if exists|c: u64| #[trigger] named(m@, parent, name@, c) {
                let c = choose|c: u64| #[trigger] named(m@, parent, name@, c);
                assert(m@[parent].children@.contains(c));
                let j = choose|j: int| 0 <= j < dir.children@.len() && dir.children@[j] == c;
                assert(!named(m@, parent, name@, dir.children@[j]));
            }
        }
        None
    }
}

/// In a well-formed tree every directory lists exactly the inodes whose
/// parent it is, and each name in a directory leads to one inode.
pub proof fn lemma_directory_entries(t: &InodeTable)
    requires
        t.wf(),
    ensures
        forall|d: u64, c: u64| #![trigger t.map()[d].children@.contains(c)]
            t.map().contains_key(d) ==> (t.map()[d].children@.contains(c) <==> child_of(t.map(), c, d)),
        forall|d: u64, name: Seq<char>, a: u64, b: u64|
            #[trigger] named(t.map(), d, name, a) && #[trigger] named(t.map(), d, name, b) ==> a == b,
{
    assert forall|d: u64, name: Seq<char>, a: u64, b: u64|
        #[trigger] named(t.map(), d, name, a) && #[trigger] named(t.map(), d, name, b) implies a == b by {
        let m = t.map();
        if a != b {
            assert(child_of(m, a, m[b].parent));
        }
    }
}

/// Restoring a snapshot with no writes in between gives back the tree that
/// was snapshotted.
pub proof fn lemma_restore_involution(before: Map<u64, Inode>, snap: Map<u64, Inode>, after: Map<u64, Inode>)
    requires
        snap == before,
        after == snap,
    ensures
        after == before,
{
}

/// Taking `x` out of a sequence keeps the rest, and keeps it free of repeats.
pub proof fn lemma_filter_ne(s: Seq<u64>, x: u64)
    ensures
        forall|y: u64| #[trigger] without_child(s, x).contains(y) <==> (s.contains(y) && y != x),
        s.no_duplicates() ==> without_child(s, x).no_duplicates(),
    decreases s.len(),
{
    reveal(Seq::filter);
    if s.len() > 0 {
        lemma_filter_ne(s.drop_last(), x);
        let prev = without_child(s.drop_last(), x);
        assert(without_child(s, x) == if s.last() != x { prev.push(s.last()) } else { prev });
        assert forall|y: u64| #[trigger] without_child(s, x).contains(y) <==> (s.contains(y) && y != x) by {
            if without_child(s, x).contains(y) {
                let j = choose|j: int| 0 <= j < without_child(s, x).len() && without_child(s, x)[j] == y;
                if s.last() != x && j == prev.len() {
                    assert(s[s.len() - 1] == y);
                } else {
                    assert(prev[j] == y);
                    assert(prev.contains(y));
                    let k = choose|k: int| 0 <= k < s.drop_last().len() && s.drop_last()[k] == y;
                    assert(s[k] == y);
                }
            }
            if s.contains(y) && y != x {
                let k = choose|k: int| 0 <= k < s.len() && s[k] == y;
                if k == s.len() - 1 {
                    assert(without_child(s, x)[prev.len() as int] == y);
                } else {
                    assert(s.drop_last()[k] == y);
                    assert(s.drop_last().contains(y));
                    assert(prev.contains(y));
                    let j = choose|j: int| 0 <= j < prev.len() && prev[j] == y;
                    if s.last() != x {
                        assert(prev.push(s.last())[j] == prev[j]);
                    }
                    assert(without_child(s, x)[j] == y);
                }
            }
        }
        if s.no_duplicates() {
            assert(s.drop_last().no_duplicates()) by {
                assert forall|a: int, b: int| 0 <= a < b < s.drop_last().len() implies s.drop_last()[a] != s.drop_last()[b] by {
                    assert(s[a] != s[b]);
                }
            }
            if s.last() != x {
                assert(!prev.contains(s.last())) by {
                    if prev.contains(s.last()) {
                        assert(s.drop_last().contains(s.last()));
                        let k = choose|k: int| 0 <= k < s.drop_last().len() && s.drop_last()[k] == s.last();
                        assert(s[k] == s[s.len() - 1]);
                    }
                }
                assert forall|a: int, b: int| 0 <= a < b < without_child(s, x).len() implies without_child(s, x)[a] != without_child(s, x)[b] by {
                    if b == prev.len() {
                        assert(prev.contains(prev[a]));
                    } else {
                        assert(prev[a] != prev[b]);
                    }
                }
            }
        }
    }
}

} // verus!
