//! File-related system calls: the checks on the caller's file-descriptor
//! table, and opening and closing descriptors.
use vstd::prelude::*;
use crate::fs::dir::{Directory, InodeTable, first_named, links_to};

verus! {

/// An open file as the descriptor table records it.
#[derive(Clone, Copy, Debug, PartialEq, Eq, Structural)]
pub struct OpenFile {
    /// Whether the file was opened for reading.
    pub readable: bool,
    /// Whether the file was opened for writing.
    pub writable: bool,
    /// The inode of the file.
    pub inode_id: usize,
}

/// One descriptor slot: the open file, if any, and the path it was opened
/// under, if it was opened by path.
pub type FdSlot = (Option<OpenFile>, Option<Vec<u8>>);

/// A task's table of file descriptors (descriptor `fd` names slot `fd`),
/// with the path each descriptor was opened under.
pub struct FdTable {
    slots: Vec<FdSlot>,
}

/// The path recorded in a slot.
pub open spec fn slot_name(s: FdSlot) -> Option<Seq<u8>> {
    match s.1 {
        Some(v) => Some(v@),
        None => None,
    }
}

impl View for FdTable {
    type V = Seq<Option<OpenFile>>;

    closed spec fn view(&self) -> Seq<Option<OpenFile>> {
        self.slots@.map_values(|s: FdSlot| s.0)
    }
}

impl FdTable {
    /// The path each descriptor was opened under, if any.
    pub closed spec fn names(&self) -> Seq<Option<Seq<u8>>> {
        self.slots@.map_values(|s: FdSlot| slot_name(s))
    }
}

/// The lowest free descriptor of `t`, or the end of the table.
pub open spec fn lowest_free(t: Seq<Option<OpenFile>>, from: int) -> int
    decreases t.len() - from,
{
    if from >= t.len() || from < 0 {
        t.len() as int
    } else if t[from] is None {
        from
    } else {
        lowest_free(t, from + 1)
    }
}

proof fn lemma_lowest_free(t: Seq<Option<OpenFile>>, from: int)
    requires
        0 <= from <= t.len(),
    ensures
        from <= lowest_free(t, from) <= t.len(),
        lowest_free(t, from) < t.len() ==> t[lowest_free(t, from)] is None,
        forall|i: int| from <= i < lowest_free(t, from) ==> t[i] is Some,
    decreases t.len() - from,
{
    if from < t.len() && t[from] is Some {
        lemma_lowest_free(t, from + 1);
    }
}

impl FdTable {
    /// A table holding `files`, none of them opened by path.
    pub fn new(files: Vec<Option<OpenFile>>) -> (r: Self)
        ensures
            r@ == files@,
            r.names() == Seq::new(files@.len(), |i: int| None::<Seq<u8>>),
            r.names().len() == r@.len(),
    {
        let mut slots: Vec<FdSlot> = Vec::new();
        let mut i: usize = 0;
        while i < files.len()
            invariant
                i <= files@.len(),
                slots@.len() == i,
                forall|j: int| 0 <= j < i ==> (#[trigger] slots@[j]).0 == files@[j] && slots@[j].1 is None,
            decreases files@.len() - i,
        {
            slots.push((files[i], None));
            i = i + 1;
        }
        let r = FdTable { slots };
        assert(r@ =~= files@);
        assert(r.names() =~= Seq::new(files@.len(), |i: int| None::<Seq<u8>>));
        r
    }

    /// The number of slots.
    pub fn len(&self) -> (r: usize)
        ensures
            r == self@.len(),
    {
        self.slots.len()
    }

    /// The path descriptor `fd` was opened under, if any.
    pub fn name(&self, fd: usize) -> (r: &Option<Vec<u8>>)
        requires
            fd < self@.len(),
        ensures
            match *r {
                Some(v) => self.names()[fd as int] == Some(v@),
                None => self.names()[fd as int] is None,
            },
    {
        &self.slots[fd].1
    }

    /// The lowest free descriptor; the table grows by one slot, with no
    /// file and no path, when every slot is in use.
    pub fn alloc_fd(&mut self) -> (r: usize)
        ensures
            r == lowest_free(old(self)@, 0),
            r <= old(self)@.len(),
            r < final(self)@.len(),
            final(self)@[r as int] is None,
            final(self).names().len() == final(self)@.len(),
            r < old(self)@.len() ==> final(self)@ == old(self)@ && final(self).names() == old(self).names(),
            r == old(self)@.len() ==> final(self)@ == old(self)@.push(None) && final(self).names()
                == old(self).names().push(None),
    {
        proof {
            lemma_lowest_free(self@, 0);
        }
        let mut fd: usize = 0;
        while fd < self.slots.len()
            invariant
                fd <= self@.len(),
                self@ == old(self)@,
                self.names() == old(self).names(),
                self.slots@.len() == self@.len(),
                lowest_free(self@, 0) == lowest_free(self@, fd as int),
            decreases self@.len() - fd,
        {
            if self.slots[fd].0.is_none() {
                assert(self@[fd as int] is None);
                return fd;
            }
            fd = fd + 1;
        }
        self.slots.push((None, None));
        proof {
            assert(self@ =~= old(self)@.push(None));
            assert(self.names() =~= old(self).names().push(None));
        }
        fd
    }
}

/// The file to write to through descriptor `fd`, or -1 when `fd` is out of
/// range, closed, or not open for writing.
pub fn sys_write(table: &FdTable, fd: usize) -> (r: Result<OpenFile, isize>)
    ensures
        fd < table@.len() && (table@[fd as int] matches Some(f) && f.writable) ==> r == Ok::<OpenFile, isize>(table@[fd as int].unwrap()),
        !(fd < table@.len() && (table@[fd as int] matches Some(f) && f.writable)) ==> r == Err::<OpenFile, isize>(-1isize),
{
    if fd >= table.slots.len() {
        return Err(-1);
    }
    match table.slots[fd].0 {
        Some(file) => {
            if !file.writable {
                return Err(-1);
            }
            Ok(file)
        },
        None => Err(-1),
    }
}

/// The file to read from through descriptor `fd`, or -1 when `fd` is out
/// of range, closed, or not open for reading.
pub fn sys_read(table: &FdTable, fd: usize) -> (r: Result<OpenFile, isize>)
    ensures
        fd < table@.len() && (table@[fd as int] matches Some(f) && f.readable) ==> r == Ok::<OpenFile, isize>(table@[fd as int].unwrap()),
        !(fd < table@.len() && (table@[fd as int] matches Some(f) && f.readable)) ==> r == Err::<OpenFile, isize>(-1isize),
{
    if fd >= table.slots.len() {
        return Err(-1);
    }
    match table.slots[fd].0 {
        Some(file) => {
            if !file.readable {
                return Err(-1);
            }
            Ok(file)
        },
        None => Err(-1),
    }
}

/// Installs `opened`, the file found for `path` (or `None`), at the lowest
/// free descriptor, records `path` as its name and returns the descriptor;
/// -1, changing nothing, when no file was found.
pub fn sys_open(table: &mut FdTable, opened: Option<OpenFile>, path: Vec<u8>) -> (r: isize)
    requires
        old(table)@.len() < isize::MAX,
    ensures
        final(table).names().len() == final(table)@.len(),
        opened is None ==> r == -1 && final(table)@ == old(table)@ && final(table).names() == old(table).names(),
        opened matches Some(f) ==> {
            let fd = lowest_free(old(table)@, 0);
            &&& r == fd
            &&& fd < old(table)@.len() ==> final(table)@ == old(table)@.update(fd, Some(f))
                && final(table).names() == old(table).names().update(fd, Some(path@))
            &&& fd == old(table)@.len() ==> final(table)@ == old(table)@.push(Some(f))
                && final(table).names() == old(table).names().push(Some(path@))
        },
{
    match opened {
        Some(file) => {
            let fd = table.alloc_fd();
            let ghost mid_names = table.names();
            let ghost mid = table@;
            let ghost pv = path@;
            table.slots.set(fd, (Some(file), Some(path)));
            proof {
                assert(table@ =~= mid.update(fd as int, Some(file)));
                assert(table.names() =~= mid_names.update(fd as int, Some(pv)));
                if fd == old(table)@.len() {
                    assert(table@ =~= old(table)@.push(Some(file)));
                    assert(table.names() =~= old(table).names().push(Some(pv)));
                }
            }
            fd as isize
        },
        None => -1,
    }
}

/// Closes descriptor `fd` and forgets its name: 0, or -1 when `fd` is out
/// of range or already closed.
pub fn sys_close(table: &mut FdTable, fd: usize) -> (r: isize)
    ensures
        final(table).names().len() == final(table)@.len(),
        fd < old(table)@.len() && old(table)@[fd as int] is Some ==> r == 0 && final(table)@
            == old(table)@.update(fd as int, None) && final(table).names() == old(table).names().update(
            fd as int,
            None,
        ),
        !(fd < old(table)@.len() && old(table)@[fd as int] is Some) ==> r == -1 && final(table)@
            == old(table)@ && final(table).names() == old(table).names(),
{
    if fd >= table.slots.len() {
        return -1;
    }
    if table.slots[fd].0.is_none() {
        return -1;
    }
    let ghost v0 = table@;
    let ghost n0 = table.names();
    table.slots.set(fd, (None, None));
    proof {
        assert(table@ =~= v0.update(fd as int, None));
        assert(table.names() =~= n0.update(fd as int, None));
    }
    0
}

/// The kind of a file in a [`Stat`].
#[derive(Clone, Copy, Debug, PartialEq, Eq, Structural)]
pub struct StatMode {
    bits: u32,
}

impl View for StatMode {
    type V = u32;

    closed spec fn view(&self) -> u32 {
        self.bits
    }
}

#[allow(non_snake_case)]
impl StatMode {
    /// No kind.
    pub fn NULL() -> (r: Self)
        ensures
            r@ == 0,
    {
        StatMode { bits: 0 }
    }

    /// A directory.
    pub fn DIR() -> (r: Self)
        ensures
            r@ == 0o040000,
    {
        StatMode { bits: 0o040000 }
    }

    /// A regular file.
    pub fn FILE() -> (r: Self)
        ensures
            r@ == 0o100000,
    {
        StatMode { bits: 0o100000 }
    }
}

/// What `fstat` reports about a file.
#[derive(Clone, Copy, Debug)]
pub struct Stat {
    /// The device number, always 0.
    pub dev: u64,
    /// The inode number.
    pub ino: u64,
    /// The kind of file.
    pub mode: StatMode,
    /// The number of hard links (1 for a new file).
    pub nlink: u32,
    /// Unused, for layout compatibility.
    pub pad: [u64; 7],
}

/// What the file system tells about the inode behind a descriptor.
#[derive(Clone, Copy, Debug, PartialEq, Eq, Structural)]
pub struct InodeStat {
    /// The inode number.
    pub ino: u32,
    /// The number of hard links to it.
    pub nlink: u32,
    /// Whether it is a regular file (otherwise a directory).
    pub is_file: bool,
}

impl Stat {
    /// The record `fstat` fills for the inode `inode`.
    pub fn of_inode(inode: InodeStat) -> (r: Self)
        ensures
            r.dev == 0,
            r.ino == inode.ino,
            r.mode@ == if inode.is_file { 0o100000u32 } else { 0o040000u32 },
            r.nlink == inode.nlink,
            r.pad@ == seq![0u64, 0, 0, 0, 0, 0, 0],
    {
        let r = Stat {
            dev: 0,
            ino: inode.ino as u64,
            mode: if inode.is_file { StatMode::FILE() } else { StatMode::DIR() },
            nlink: inode.nlink,
            pad: [0; 7],
        };
        assert(r.pad@ =~= seq![0u64, 0, 0, 0, 0, 0, 0]);
        r
    }
}

/// What `fstat` reports for descriptor `fd`: -1 when it is closed;
/// otherwise the record of the file in `dir` named by the path the
/// descriptor was opened under, read from `inodes`: its inode number, its
/// kind and its number of hard links (entries naming that inode).
pub fn sys_fstat(table: &FdTable, fd: usize, dir: &Directory, inodes: &InodeTable) -> (r: Result<Stat, isize>)
    requires
        fd < table@.len(),
        dir@.len() <= u32::MAX,
        table@[fd as int] is Some ==> (table.names()[fd as int] matches Some(n) && (first_named(dir@, n, 0) matches Some(j)
            && dir@[j].1 < inodes@.len())),
    ensures
        table@[fd as int] is None ==> r == Err::<Stat, isize>(-1isize),
        table@[fd as int] is Some ==> {
            let id = dir@[first_named(dir@, table.names()[fd as int].unwrap(), 0).unwrap()].1;
            r matches Ok(st) && (st.dev == 0 && st.ino == id
                && st.mode@ == (if inodes@[id as int].0 { 0o100000u32 } else { 0o040000u32 })
                && st.nlink == links_to(dir@, id, dir@.len() as int)
                && st.pad@ == seq![0u64, 0, 0, 0, 0, 0, 0])
        },
{
    proof {
        lemma_names_len(table);
    }
    if table.slots[fd].0.is_none() {
        return Err(-1);
    }
    match table.name(fd) {
        Some(name) => match dir.find_inode_id(name.as_slice()) {
            Some(id) => {
                let inode = InodeStat { ino: id, nlink: dir.link_count(id), is_file: inodes.is_file(id) };
                Ok(Stat::of_inode(inode))
            },
            None => Err(-1),
        },
        None => Err(-1),
    }
}

/// The recorded paths run alongside the descriptors: one per slot.
pub proof fn lemma_names_len(t: &FdTable)
    ensures
        t.names().len() == t@.len(),
{
}

/// Closing the descriptor that opening a file returned gives back the
/// table as it was before the open (with one more free slot when the open
/// had to grow the table).
pub proof fn lemma_close_undoes_open(t: Seq<Option<OpenFile>>, f: OpenFile)
    ensures
        ({
            let fd = lowest_free(t, 0);
            &&& fd < t.len() ==> t.update(fd, Some(f)).update(fd, None) == t
            &&& fd == t.len() ==> t.push(Some(f)).update(fd, None) == t.push(None)
        }),
{
    lemma_lowest_free(t, 0);
    let fd = lowest_free(t, 0);
    if fd < t.len() {
        assert(t.update(fd, Some(f)).update(fd, None) =~= t);
    } else {
        assert(t.push(Some(f)).update(fd, None) =~= t.push(None));
    }
}

} // verus!
