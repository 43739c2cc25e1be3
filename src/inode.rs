//! Inodes: attributes, kind-specific payload and directory children.

use vstd::prelude::*;
use crate::clock::now_unix_secs;
use crate::chunk::{content_id, hash_hex};
use crate::manifest::ChunkManifest;

verus! {

/// Inode number of the root directory.
pub const ROOT_INO: u64 = 1;

/// Block size reported in attributes.
pub const BLKSIZE: u32 = 4096;

/// Kind of an inode.
#[derive(Clone, Copy, Debug, PartialEq, Eq, Structural)]
pub enum FileType {
    RegularFile,
    Directory,
    Symlink,
}

/// POSIX attributes; times are seconds since the Unix epoch.
#[derive(Clone, Debug)]
pub struct InodeAttributes {
    pub size: u64,
    pub blocks: u64,
    pub atime: i64,
    pub mtime: i64,
    pub ctime: i64,
    pub crtime: i64,
    pub kind: FileType,
    pub perm: u16,
    pub nlink: u32,
    pub uid: u32,
    pub gid: u32,
    pub rdev: u32,
    pub blksize: u32,
    pub flags: u32,
}

/// Number of 512-byte blocks that `size` bytes occupy.
pub open spec fn blocks_for(size: int) -> int {
    (size + 511) / 512
}

impl InodeAttributes {
    /// The attributes every fresh inode shares.
    pub open spec fn fresh(&self, kind: FileType, uid: u32, gid: u32, perm: u16, size: u64, nlink: u32) -> bool {
        &&& self.size == size
        &&& self.blocks == 0
        &&& self.kind == kind
        &&& self.perm == perm
        &&& self.nlink == nlink
        &&& self.uid == uid
        &&& self.gid == gid
        &&& self.rdev == 0
        &&& self.blksize == BLKSIZE
        &&& self.flags == 0
        &&& self.atime == self.mtime == self.ctime == self.crtime
    }

    fn fresh_now(kind: FileType, uid: u32, gid: u32, perm: u16, size: u64, nlink: u32) -> (r: Self)
        ensures
            r.fresh(kind, uid, gid, perm, size, nlink),
    {
        let now = now_unix_secs();
        InodeAttributes {
            size,
            blocks: 0,
            atime: now,
            mtime: now,
            ctime: now,
            crtime: now,
            kind,
            perm,
            nlink,
            uid,
            gid,
            rdev: 0,
            blksize: BLKSIZE,
            flags: 0,
        }
    }

    /// Attributes of a new, empty regular file.
    pub fn new_file(uid: u32, gid: u32, perm: u16) -> (r: Self)
        ensures
            r.fresh(FileType::RegularFile, uid, gid, perm, 0, 1),
    {
        Self::fresh_now(FileType::RegularFile, uid, gid, perm, 0, 1)
    }

    /// Attributes of a new directory (its own entry and its parent's).
    pub fn new_directory(uid: u32, gid: u32, perm: u16) -> (r: Self)
        ensures
            r.fresh(FileType::Directory, uid, gid, perm, 0, 2),
    {
        Self::fresh_now(FileType::Directory, uid, gid, perm, 0, 2)
    }

    /// Attributes of a new symlink whose target is `target_len` bytes.
    pub fn new_symlink(uid: u32, gid: u32, target_len: u64) -> (r: Self)
        ensures
            r.fresh(FileType::Symlink, uid, gid, 0o777, target_len, 1),
    {
        Self::fresh_now(FileType::Symlink, uid, gid, 0o777, target_len, 1)
    }

    /// Sets the modification and change times to now.
    pub fn touch(&mut self)
        ensures
            final(self).mtime == final(self).ctime,
            final(self).size == old(self).size,
            final(self).blocks == old(self).blocks,
            final(self).atime == old(self).atime,
            final(self).crtime == old(self).crtime,
            final(self).kind == old(self).kind,
            final(self).perm == old(self).perm,
            final(self).nlink == old(self).nlink,
            final(self).uid == old(self).uid,
            final(self).gid == old(self).gid,
            final(self).rdev == old(self).rdev,
            final(self).blksize == old(self).blksize,
            final(self).flags == old(self).flags,
    {
        let now = now_unix_secs();
        self.mtime = now;
        self.ctime = now;
    }
}

/// `a` and `b` agree on every attribute but the size, the block count and
/// the modification and change times.
pub open spec fn attrs_agree(a: InodeAttributes, b: InodeAttributes) -> bool {
    &&& a.atime == b.atime
    &&& a.crtime == b.crtime
    &&& a.kind == b.kind
    &&& a.perm == b.perm
    &&& a.nlink == b.nlink
    &&& a.uid == b.uid
    &&& a.gid == b.gid
    &&& a.rdev == b.rdev
    &&& a.blksize == b.blksize
    &&& a.flags == b.flags
}

/// `a` and `b` agree on everything but the children and the attributes.
pub open spec fn payload_agrees(a: Inode, b: Inode) -> bool {
    &&& a.ino == b.ino
    &&& a.parent == b.parent
    &&& a.name == b.name
    &&& a.manifest == b.manifest
    &&& a.symlink_target == b.symlink_target
    &&& a.version == b.version
    &&& a.xattrs == b.xattrs
}

/// `s` without any occurrence of `x`.
pub open spec fn without_child(s: Seq<u64>, x: u64) -> Seq<u64> {
    s.filter(|v: u64| v != x)
}

/// A file, directory or symlink.
#[derive(Clone, Debug)]
pub struct Inode {
    pub ino: u64,
    pub parent: u64,
    pub name: String,
    pub attrs: InodeAttributes,
    /// The chunks of a regular file.
    pub manifest: Option<ChunkManifest>,
    /// The target of a symlink.
    pub symlink_target: Option<String>,
    /// Inode numbers of a directory's entries.
    pub children: Vec<u64>,
    pub version: u64,
    /// Extended attributes, each name once.
    pub xattrs: Vec<(String, Vec<u8>)>,
}

impl Inode {
    /// The fields a fresh inode of any kind starts with.
    pub open spec fn fresh(&self, ino: u64, parent: u64, name: Seq<char>) -> bool {
        &&& self.ino == ino
        &&& self.parent == parent
        &&& self.name@ == name
        &&& self.children@.len() == 0
        &&& self.version == 0
        &&& self.xattrs@.len() == 0
    }

    /// The root directory: inode 1, its own parent, with no name.
    pub fn root(uid: u32, gid: u32, perm: u16) -> (r: Self)
        ensures
            r.fresh(ROOT_INO, ROOT_INO, Seq::<char>::empty()),
            r.attrs.fresh(FileType::Directory, uid, gid, perm, 0, 2),
            r.manifest.is_none(),
            r.symlink_target.is_none(),
    {
        Inode {
            ino: ROOT_INO,
            parent: ROOT_INO,
            name: String::new(),
            attrs: InodeAttributes::new_directory(uid, gid, perm),
            manifest: None,
            symlink_target: None,
            children: Vec::new(),
            version: 0,
            xattrs: Vec::new(),
        }
    }

    /// An empty regular file.
    pub fn new_file(ino: u64, parent: u64, name: String, uid: u32, gid: u32, perm: u16) -> (r: Self)
        ensures
            r.fresh(ino, parent, name@),
            r.attrs.fresh(FileType::RegularFile, uid, gid, perm, 0, 1),
            r.manifest.is_some(),
            r.manifest.unwrap().version == 0,
            r.manifest.unwrap().total_size == 0,
            r.manifest.unwrap().chunks@.len() == 0,
            r.manifest.unwrap().file_hash@ == content_id(Seq::<u8>::empty()),
            r.symlink_target.is_none(),
    {
        let mut manifest = ChunkManifest::new(0);
        let empty: Vec<u8> = Vec::new();
        manifest.file_hash = hash_hex(empty.as_slice());
        assert(empty@ =~= Seq::<u8>::empty());
        Inode {
            ino,
            parent,
            name,
            attrs: InodeAttributes::new_file(uid, gid, perm),
            manifest: Some(manifest),
            symlink_target: None,
            children: Vec::new(),
            version: 0,
            xattrs: Vec::new(),
        }
    }

    /// An empty directory.
    pub fn new_directory(ino: u64, parent: u64, name: String, uid: u32, gid: u32, perm: u16) -> (r: Self)
        ensures
            r.fresh(ino, parent, name@),
            r.attrs.fresh(FileType::Directory, uid, gid, perm, 0, 2),
            r.manifest.is_none(),
            r.symlink_target.is_none(),
    {
        Inode {
            ino,
            parent,
            name,
            attrs: InodeAttributes::new_directory(uid, gid, perm),
            manifest: None,
            symlink_target: None,
            children: Vec::new(),
            version: 0,
            xattrs: Vec::new(),
        }
    }

    /// A symlink to `target`; its size is the target's length in bytes.
    pub fn new_symlink(ino: u64, parent: u64, name: String, target: String, uid: u32, gid: u32) -> (r: Self)
        ensures
            r.fresh(ino, parent, name@),
            r.attrs.fresh(FileType::Symlink, uid, gid, 0o777, r.attrs.size, 1),
            r.manifest.is_none(),
            r.symlink_target == Some(target),
    {
        let target_len = target.as_str().len() as u64;
        Inode {
            ino,
            parent,
            name,
            attrs: InodeAttributes::new_symlink(uid, gid, target_len),
            manifest: None,
            symlink_target: Some(target),
            children: Vec::new(),
            version: 0,
            xattrs: Vec::new(),
        }
    }

    /// Whether this is a directory.
    pub fn is_dir(&self) -> (r: bool)
        ensures
            r == (self.attrs.kind == FileType::Directory),
    {
        self.attrs.kind == FileType::Directory
    }

    /// Whether this is a regular file.
    pub fn is_file(&self) -> (r: bool)
        ensures
            r == (self.attrs.kind == FileType::RegularFile),
    {
        self.attrs.kind == FileType::RegularFile
    }

    /// Whether this is a symlink.
    pub fn is_symlink(&self) -> (r: bool)
        ensures
            r == (self.attrs.kind == FileType::Symlink),
    {
        self.attrs.kind == FileType::Symlink
    }

    /// Lists `child_ino` among the children, once.
    pub fn add_child(&mut self, child_ino: u64)
        ensures
            old(self).children@.contains(child_ino) ==> final(self).children@ == old(self).children@,
            !old(self).children@.contains(child_ino) ==> final(self).children@ == old(self).children@.push(child_ino)
                && final(self).attrs.mtime == final(self).attrs.ctime,
            payload_agrees(*final(self), *old(self)),
            attrs_agree(final(self).attrs, old(self).attrs),
            final(self).attrs.size == old(self).attrs.size,
            final(self).attrs.blocks == old(self).attrs.blocks,
            final(self).ino == old(self).ino,
            final(self).parent == old(self).parent,
            final(self).name == old(self).name,
            final(self).version == old(self).version,
            final(self).attrs.kind == old(self).attrs.kind,
    {
        let mut i: usize = 0;
        while i < self.children.len()
            invariant
                i <= self.children@.len(),
                forall|j: int| 0 <= j < i ==> self.children@[j] != child_ino,
            decreases self.children@.len() - i,
        {
            if self.children[i] == child_ino {
                return;
            }
            i = i + 1;
        }
        self.children.push(child_ino);
        self.attrs.touch();
    }

    /// Drops every occurrence of `child_ino` from the children.
    pub fn remove_child(&mut self, child_ino: u64)
        ensures
            final(self).children@ == without_child(old(self).children@, child_ino),
            payload_agrees(*final(self), *old(self)),
            attrs_agree(final(self).attrs, old(self).attrs),
            final(self).attrs.blocks == old(self).attrs.blocks,
            final(self).attrs.mtime == final(self).attrs.ctime,
            final(self).ino == old(self).ino,
            final(self).parent == old(self).parent,
            final(self).name == old(self).name,
            final(self).version == old(self).version,
            final(self).attrs.size == old(self).attrs.size,
            final(self).attrs.kind == old(self).attrs.kind,
    {
        let mut kept: Vec<u64> = Vec::new();
        let mut i: usize = 0;
        while i < self.children.len()
            invariant
                i <= self.children@.len(),
                kept@ == without_child(self.children@.subrange(0, i as int), child_ino),
            decreases self.children@.len() - i,
        {
            proof {
                reveal(Seq::filter);
                assert(self.children@.subrange(0, i as int + 1).drop_last() =~= self.children@.subrange(0, i as int));
            }
            if self.children[i] != child_ino {
                kept.push(self.children[i]);
            }
            i = i + 1;
        }
        assert(self.children@.subrange(0, i as int) =~= self.children@);
        self.children = kept;
        self.attrs.touch();
    }

    /// Sets the size and the block count that goes with it.
    pub fn set_size(&mut self, size: u64)
        ensures
            final(self).attrs.size == size,
            final(self).attrs.blocks == blocks_for(size as int),
            final(self).attrs.mtime == final(self).attrs.ctime,
            payload_agrees(*final(self), *old(self)),
            attrs_agree(final(self).attrs, old(self).attrs),
            final(self).children == old(self).children,
            final(self).ino == old(self).ino,
            final(self).parent == old(self).parent,
            final(self).version == old(self).version,
            final(self).attrs.kind == old(self).attrs.kind,
    {
        self.attrs.size = size;
        self.attrs.blocks = size / 512 + if size % 512 == 0 { 0 } else { 1 };
        self.attrs.touch();
    }

    /// Advances the version by one.
    pub fn bump_version(&mut self)
        requires
            old(self).version < u64::MAX,
        ensures
            final(self).version == old(self).version + 1,
            final(self).ino == old(self).ino,
            final(self).children == old(self).children,
    {
        self.version = self.version + 1;
    }
}

} // verus!
