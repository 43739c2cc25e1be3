//! Open-file handles: access mode, dirty write buffer and read position.

use vstd::prelude::*;

verus! {

/// Mask of the access mode in open flags.
pub const O_ACCMODE: i32 = 3;
/// Open for reading only.
pub const O_RDONLY: i32 = 0;
/// Open for writing only.
pub const O_WRONLY: i32 = 1;
/// Open for reading and writing.
pub const O_RDWR: i32 = 2;
/// Writes go to the end of the file.
pub const O_APPEND: i32 = 0o2000;

/// The access mode of open flags.
pub open spec fn access_mode(flags: i32) -> i32 {
    flags & O_ACCMODE
}

/// State of one open file.
pub struct FileHandle {
    pub ino: u64,
    pub flags: i32,
    /// Bytes written since the last flush.
    pub write_buffer: Vec<u8>,
    pub read_pos: u64,
    /// Whether the buffer holds bytes not yet flushed.
    pub dirty: bool,
}

impl FileHandle {
    /// A clean handle on `ino` opened with `flags`.
    pub fn new(ino: u64, flags: i32) -> (r: Self)
        ensures
            r.ino == ino,
            r.flags == flags,
            r.write_buffer@.len() == 0,
            r.read_pos == 0,
            !r.dirty,
    {
        FileHandle { ino, flags, write_buffer: Vec::new(), read_pos: 0, dirty: false }
    }

    /// Opened for reading (read-only or read-write).
    pub fn is_readable(&self) -> (r: bool)
        ensures
            r == (access_mode(self.flags) == O_RDONLY || access_mode(self.flags) == O_RDWR),
    {
        let mode = self.flags & O_ACCMODE;
        mode == O_RDONLY || mode == O_RDWR
    }

    /// Opened for writing (write-only or read-write).
    pub fn is_writable(&self) -> (r: bool)
        ensures
            r == (access_mode(self.flags) == O_WRONLY || access_mode(self.flags) == O_RDWR),
    {
        let mode = self.flags & O_ACCMODE;
        mode == O_WRONLY || mode == O_RDWR
    }

    /// Opened for appending.
    pub fn is_append(&self) -> (r: bool)
        ensures
            r == (self.flags & O_APPEND != 0),
    {
        self.flags & O_APPEND != 0
    }

    /// Marks the buffer as holding unflushed bytes.
    pub fn mark_dirty(&mut self)
        ensures
            final(self).dirty,
            final(self).write_buffer == old(self).write_buffer,
            final(self).ino == old(self).ino,
            final(self).flags == old(self).flags,
            final(self).read_pos == old(self).read_pos,
    {
        self.dirty = true;
    }

    /// Whether there are unflushed bytes.
    pub fn is_dirty(&self) -> (r: bool)
        ensures
            r == self.dirty,
    {
        self.dirty
    }

    /// Marks the buffer as flushed.
    pub fn clear_dirty(&mut self)
        ensures
            !final(self).dirty,
            final(self).write_buffer == old(self).write_buffer,
            final(self).ino == old(self).ino,
            final(self).flags == old(self).flags,
            final(self).read_pos == old(self).read_pos,
    {
        self.dirty = false;
    }

    /// Appends `data` to the buffer, in the order of the calls.
    pub fn write(&mut self, data: &[u8])
        ensures
            final(self).write_buffer@ == old(self).write_buffer@ + data@,
            final(self).dirty,
            final(self).ino == old(self).ino,
            final(self).flags == old(self).flags,
            final(self).read_pos == old(self).read_pos,
    {
        crate::bytes::append_bytes(&mut self.write_buffer, data);
        self.dirty = true;
    }

    /// A copy of the buffer.
    pub fn get_write_buffer(&self) -> (r: Vec<u8>)
        ensures
            r@ == self.write_buffer@,
    {
        let r = crate::bytes::copy_range(self.write_buffer.as_slice(), 0, self.write_buffer.len());
        assert(self.write_buffer@.subrange(0, self.write_buffer@.len() as int) =~= self.write_buffer@);
        r
    }

    /// Empties the buffer.
    pub fn clear_write_buffer(&mut self)
        ensures
            final(self).write_buffer@.len() == 0,
            final(self).dirty == old(self).dirty,
            final(self).ino == old(self).ino,
            final(self).flags == old(self).flags,
            final(self).read_pos == old(self).read_pos,
    {
        self.write_buffer.clear();
    }

    /// What a flush hands to the write pipeline: the buffered bytes when
    /// dirty, after which the handle is clean and empty; nothing otherwise.
    pub fn take_for_flush(&mut self) -> (r: Option<Vec<u8>>)
        ensures
            old(self).dirty ==> r.is_some() && r.unwrap()@ == old(self).write_buffer@,
            !old(self).dirty ==> r.is_none(),
            !final(self).dirty,
            old(self).dirty ==> final(self).write_buffer@.len() == 0,
            !old(self).dirty ==> final(self).write_buffer@ == old(self).write_buffer@,
            final(self).ino == old(self).ino,
            final(self).flags == old(self).flags,
            final(self).read_pos == old(self).read_pos,
    {
        if !self.dirty {
            return None;
        }
        let mut taken: Vec<u8> = Vec::new();
        std::mem::swap(&mut taken, &mut self.write_buffer);
        self.dirty = false;
        Some(taken)
    }
}

/// Ids of the open handles, by position.
pub open spec fn handle_ids(handles: Seq<(u64, FileHandle)>) -> Seq<u64> {
    handles.map_values(|e: (u64, FileHandle)| e.0)
}

/// Position of the handle `fh` in `hs`.
pub open spec fn handle_index(hs: Seq<(u64, FileHandle)>, fh: u64) -> int {
    choose|i: int| 0 <= i < hs.len() && hs[i].0 == fh
}

/// The open files, by handle id.
pub struct HandleManager {
    next_id: u64,
    handles: Vec<(u64, FileHandle)>,
}

impl HandleManager {
    /// The open handles with their ids, in the order they were opened.
    pub closed spec fn entries(&self) -> Seq<(u64, FileHandle)> {
        self.handles@
    }

    pub closed spec fn open_ids(&self) -> Seq<u64> {
        handle_ids(self.handles@)
    }

    pub closed spec fn handle_of(&self, fh: u64) -> FileHandle {
        self.handles@[handle_index(self.handles@, fh)].1
    }

    /// Ids are unique and below the next one handed out.
    pub closed spec fn wf(&self) -> bool {
        &&& handle_ids(self.handles@).no_duplicates()
        &&& forall|i: int| 0 <= i < self.handles@.len() ==> (#[trigger] self.handles@[i]).0 < self.next_id
    }

    pub closed spec fn next(&self) -> u64 {
        self.next_id
    }

    /// No open files; the first id is 1.
    pub fn new() -> (r: Self)
        ensures
            r.wf(),
            r.open_ids().len() == 0,
            r.next() == 1,
    {
        let r = HandleManager { next_id: 1, handles: Vec::new() };
        assert(handle_ids(r.handles@) =~= Seq::<u64>::empty());
        r
    }

    /// Opens `ino` with `flags` under a new handle id, which is returned.
    pub fn open(&mut self, ino: u64, flags: i32) -> (r: u64)
        requires
            old(self).wf(),
            old(self).next() < u64::MAX,
        ensures
            final(self).wf(),
            r == old(self).next(),
            !old(self).open_ids().contains(r),
            final(self).open_ids() == old(self).open_ids().push(r),
            final(self).next() == old(self).next() + 1,
    {
        let fh = self.next_id;
        let ghost before = self.handles@;
        proof {
            if handle_ids(before).contains(fh) {
                let i = choose|i: int| 0 <= i < handle_ids(before).len() && handle_ids(before)[i] == fh;
                assert(before[i].0 < fh);
            }
        }
        self.handles.push((fh, FileHandle::new(ino, flags)));
        self.next_id = fh + 1;
        proof {
            let ids = handle_ids(self.handles@);
            assert(ids =~= handle_ids(before).push(fh));
            assert forall|a: int, b: int| 0 <= a < b < ids.len() implies ids[a] != ids[b] by {
                if b == ids.len() - 1 {
                    assert(before[a].0 < fh);
                }
            }
            assert forall|i: int| 0 <= i < self.handles@.len() implies (#[trigger] self.handles@[i]).0 < self.next_id by {
                if i < before.len() {
                    assert(self.handles@[i] == before[i]);
                }
            }
        }
        fh
    }

    fn position(&self, fh: u64) -> (r: Option<usize>)
        requires
            self.wf(),
        ensures
            r.is_none() ==> !self.open_ids().contains(fh),
            r.is_some() ==> r.unwrap() < self.handles@.len() && self.handles@[r.unwrap() as int].0 == fh,
    {
        let mut i: usize = 0;
        while i < self.handles.len()
            invariant
                i <= self.handles@.len(),
                forall|j: int| 0 <= j < i ==> self.handles@[j].0 != fh,
            decreases self.handles@.len() - i,
        {
            if self.handles[i].0 == fh {
                return Some(i);
            }
            i = i + 1;
        }
        proof {
            if self.open_ids().contains(fh) {
                let j = choose|j: int| 0 <= j < self.open_ids().len() && self.open_ids()[j] == fh;
                assert(self.handles@[j].0 == fh);
            }
        }
        None
    }

    /// Whether `fh` is open.
    pub fn is_valid(&self, fh: u64) -> (r: bool)
        requires
            self.wf(),
        ensures
            r == self.open_ids().contains(fh),
    {
        match self.position(fh) {
            Some(i) => {
                assert(self.open_ids()[i as int] == fh);
                true
            },
            None => false,
        }
    }

    /// Closes `fh`, handing back its state.
    pub fn close(&mut self, fh: u64) -> (r: Option<FileHandle>)
        requires
            old(self).wf(),
        ensures
            final(self).wf(),
            r.is_some() == old(self).open_ids().contains(fh),
            !final(self).open_ids().contains(fh),
            forall|x: u64| x != fh ==> (final(self).open_ids().contains(x) <==> old(self).open_ids().contains(x)),
            final(self).next() == old(self).next(),
    {
        match self.position(fh) {
            Some(i) => {
                let ghost before = self.handles@;
                let ghost ids0 = handle_ids(before);
                let (_, h) = self.handles.remove(i);
                proof {
                    assert(ids0[i as int] == fh);
                    let ids = handle_ids(self.handles@);
                    assert(ids =~= ids0.remove(i as int));
                    assert forall|a: int, b: int| 0 <= a < b < ids.len() implies ids[a] != ids[b] by {
                        let a2 = if a < i { a } else { a + 1 };
                        let b2 = if b < i { b } else { b + 1 };
                        assert(ids0[a2] != ids0[b2]);
                    }
                    assert forall|k: int| 0 <= k < self.handles@.len() implies (#[trigger] self.handles@[k]).0 < self.next_id by {
                        let k2 = if k < i { k } else { k + 1 };
                        assert(self.handles@[k] == before[k2]);
                    }
                    assert forall|x: u64| x != fh implies (ids.contains(x) <==> ids0.contains(x)) by {
                        if ids0.contains(x) {
                            let j = choose|j: int| 0 <= j < ids0.len() && ids0[j] == x;
                            assert(j != i);
                            let j2 = if j < i { j } else { j - 1 };
                            assert(ids[j2] == x);
                        }
                        if ids.contains(x) {
                            let j = choose|j: int| 0 <= j < ids.len() && ids[j] == x;
                            let j2 = if j < i { j } else { j + 1 };
                            assert(ids0[j2] == x);
                        }
                    }
                    if ids.contains(fh) {
                        let j = choose|j: int| 0 <= j < ids.len() && ids[j] == fh;
                        let j2 = if j < i { j } else { j + 1 };
                        assert(ids0[j2] == fh && j2 != i);
                    }
                    assert(ids0.contains(fh));
                }
                Some(h)
            },
            None => None,
        }
    }

    /// The state of `fh`.
    pub fn get(&self, fh: u64) -> (r: Option<&FileHandle>)
        requires
            self.wf(),
        ensures
            r.is_some() == self.open_ids().contains(fh),
            r.is_some() ==> r.unwrap().ino == self.handle_of(fh).ino && *r.unwrap() == self.handle_of(fh),
    {
        match self.position(fh) {
            Some(i) => {
                proof {
                    let ids = handle_ids(self.handles@);
                    assert(ids[i as int] == fh);
                    assert(exists|k: int| 0 <= k < self.handles@.len() && self.handles@[k].0 == fh);
                    let k = handle_index(self.handles@, fh);
                    assert(0 <= k < self.handles@.len() && self.handles@[k].0 == fh);
                    assert(ids[k] == self.handles@[k].0);
                    if k != i as int {
                        assert(ids[k] != ids[i as int]);
                    }
                    assert(k == i as int);
                    assert(self.handle_of(fh) == self.handles@[i as int].1);
                }
                Some(&self.handles[i].1)
            },
            None => None,
        }
    }

    /// Ids of the handles open on `ino`, in the order they were opened.
    pub fn handles_for_ino(&self, ino: u64) -> (r: Vec<u64>)
        requires
            self.wf(),
        ensures
            r@ == handle_ids(self.entries().filter(|e: (u64, FileHandle)| e.1.ino == ino)),
    {
        let ghost f = |e: (u64, FileHandle)| e.1.ino == ino;
        let mut r: Vec<u64> = Vec::new();
        let mut i: usize = 0;
        while i < self.handles.len()
            invariant
                i <= self.handles@.len(),
                f == (|e: (u64, FileHandle)| e.1.ino == ino),
                r@ == handle_ids(self.handles@.subrange(0, i as int).filter(f)),
            decreases self.handles@.len() - i,
        {
            proof {
                reveal(Seq::filter);
                assert(self.handles@.subrange(0, i as int + 1).drop_last() =~= self.handles@.subrange(0, i as int));
            }
            let ghost before = self.handles@.subrange(0, i as int).filter(f);
            if self.handles[i].1.ino == ino {
                r.push(self.handles[i].0);
                assert(handle_ids(before.push(self.handles@[i as int])) =~= handle_ids(before).push(self.handles@[i as int].0));
            }
            i = i + 1;
        }
        assert(self.handles@.subrange(0, i as int) =~= self.handles@);
        r
    }
}

} // verus!
