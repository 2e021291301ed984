//! The root directory of easy-fs as a list of directory entries (a name
//! and an inode number, 32 bytes each on disk), and the operations on it:
//! looking names up, creating, listing and unlinking files.
use vstd::prelude::*;
use crate::fs::bitmap::{Bitmap, BitmapBlock};

verus! {

/// Bytes of one directory entry.
pub const DIRENT_SZ: usize = 32;

/// A directory: its entries (name, inode number), in the order they were
/// added.
pub struct Directory {
    entries: Vec<(Vec<u8>, u32)>,
}

/// The entries as plain values.
pub open spec fn entry_view(e: (Vec<u8>, u32)) -> (Seq<u8>, u32) {
    (e.0@, e.1)
}

impl View for Directory {
    type V = Seq<(Seq<u8>, u32)>;

    closed spec fn view(&self) -> Seq<(Seq<u8>, u32)> {
        self.entries@.map_values(|e: (Vec<u8>, u32)| entry_view(e))
    }
}

/// The index of the first entry from `i` on named `name`, if any.
pub open spec fn first_named(d: Seq<(Seq<u8>, u32)>, name: Seq<u8>, i: int) -> Option<int>
    decreases d.len() - i,
{
    if i < 0 || i >= d.len() {
        None
    } else if d[i].0 == name {
        Some(i)
    } else {
        first_named(d, name, i + 1)
    }
}

proof fn lemma_first_named(d: Seq<(Seq<u8>, u32)>, name: Seq<u8>, i: int)
    requires
        0 <= i <= d.len(),
    ensures
        first_named(d, name, i) matches Some(j) ==> i <= j < d.len() && d[j].0 == name && forall|k: int|
            i <= k < j ==> d[k].0 != name,
        first_named(d, name, i) is None ==> forall|k: int| i <= k < d.len() ==> d[k].0 != name,
    decreases d.len() - i,
{
    if i < d.len() && d[i].0 != name {
        lemma_first_named(d, name, i + 1);
    }
}

/// No two entries of `d` have the same name.
pub open spec fn names_unique(d: Seq<(Seq<u8>, u32)>) -> bool {
    forall|i: int, j: int| 0 <= i < j < d.len() ==> #[trigger] d[i].0 != #[trigger] d[j].0
}

/// The number of entries of `d` before index `n` that name inode `id`.
pub open spec fn links_to(d: Seq<(Seq<u8>, u32)>, id: u32, n: int) -> nat
    decreases n,
{
    if n <= 0 {
        0
    } else {
        links_to(d, id, n - 1) + if d[n - 1].1 == id { 1nat } else { 0nat }
    }
}

/// Whether two byte strings are equal.
fn bytes_eq(a: &[u8], b: &[u8]) -> (r: bool)
    ensures
        r == (a@ == b@),
{
    if a.len() != b.len() {
        return false;
    }
    let mut i: usize = 0;
    while i < a.len()
        invariant
            i <= a@.len(),
            a@.len() == b@.len(),
            forall|k: int| 0 <= k < i ==> a@[k] == b@[k],
        decreases a@.len() - i,
    {
        if a[i] != b[i] {
            return false;
        }
        i = i + 1;
    }
    assert(a@ =~= b@);
    true
}

/// A copy of the byte string `a`.
fn bytes_copy(a: &[u8]) -> (r: Vec<u8>)
    ensures
        r@ == a@,
{
    let mut v: Vec<u8> = Vec::new();
    let mut i: usize = 0;
    while i < a.len()
        invariant
            i <= a@.len(),
            v@ == a@.subrange(0, i as int),
        decreases a@.len() - i,
    {
        v.push(a[i]);
        i = i + 1;
        assert(v@ =~= a@.subrange(0, i as int));
    }
    assert(a@.subrange(0, a@.len() as int) =~= a@);
    v
}

impl Directory {
    /// An empty directory.
    pub fn new() -> (r: Self)
        ensures
            r@ == Seq::<(Seq<u8>, u32)>::empty(),
            names_unique(r@),
    {
        let r = Directory { entries: Vec::new() };
        assert(r@ =~= Seq::<(Seq<u8>, u32)>::empty());
        r
    }

    /// The number of entries.
    pub fn len(&self) -> (r: usize)
        ensures
            r == self@.len(),
    {
        self.entries.len()
    }

    /// The size of the directory in bytes: 32 per entry.
    pub fn size(&self) -> (r: u64)
        requires
            self@.len() * 32 <= u64::MAX,
        ensures
            r == self@.len() * 32,
    {
        (self.entries.len() as u64) * 32
    }

    /// The inode number of the first entry named `name`, if any.
    pub fn find_inode_id(&self, name: &[u8]) -> (r: Option<u32>)
        ensures
            r == match first_named(self@, name@, 0) {
                Some(j) => Some(self@[j].1),
                None => None::<u32>,
            },
    {
        let ghost d = self@;
        proof {
            lemma_first_named(d, name@, 0);
        }
        let mut i: usize = 0;
        while i < self.entries.len()
            invariant
                d == self@,
                i <= d.len(),
                first_named(d, name@, 0) == first_named(d, name@, i as int),
            decreases d.len() - i,
        {
            assert(entry_view(self.entries@[i as int]) == d[i as int]);
            if bytes_eq(self.entries[i].0.as_slice(), name) {
                return Some(self.entries[i].1);
            }
            i = i + 1;
        }
        None
    }

    /// The names of the entries, in order.
    pub fn ls(&self) -> (r: Vec<Vec<u8>>)
        ensures
            r@.len() == self@.len(),
            forall|i: int| 0 <= i < r@.len() ==> #[trigger] r@[i]@ == self@[i].0,
    {
        let mut v: Vec<Vec<u8>> = Vec::new();
        let mut i: usize = 0;
        while i < self.entries.len()
            invariant
                i <= self@.len(),
                v@.len() == i,
                forall|k: int| 0 <= k < i ==> #[trigger] v@[k]@ == self@[k].0,
            decreases self@.len() - i,
        {
            assert(entry_view(self.entries@[i as int]) == self@[i as int]);
            v.push(bytes_copy(self.entries[i].0.as_slice()));
            i = i + 1;
        }
        v
    }

    /// The number of entries that name inode `id`: its hard links.
    pub fn link_count(&self, id: u32) -> (r: u32)
        requires
            self@.len() <= u32::MAX,
        ensures
            r == links_to(self@, id, self@.len() as int),
    {
        let mut n: u32 = 0;
        let mut i: usize = 0;
        while i < self.entries.len()
            invariant
                i <= self@.len() <= u32::MAX,
                n == links_to(self@, id, i as int),
                n <= i,
            decreases self@.len() - i,
        {
            assert(entry_view(self.entries@[i as int]) == self@[i as int]);
            if self.entries[i].1 == id {
                n = n + 1;
            }
            i = i + 1;
        }
        n
    }
}

/// What the file system holds about one inode: whether it is a regular
/// file (otherwise a directory) and its data.
pub struct InodeRecord {
    pub is_file: bool,
    pub data: Vec<u8>,
}

/// The inodes of the file system, by inode number.
pub struct InodeTable {
    records: Vec<InodeRecord>,
}

/// A record as plain values: (regular file, data).
pub open spec fn record_view(r: InodeRecord) -> (bool, Seq<u8>) {
    (r.is_file, r.data@)
}

impl View for InodeTable {
    type V = Seq<(bool, Seq<u8>)>;

    closed spec fn view(&self) -> Seq<(bool, Seq<u8>)> {
        self.records@.map_values(|r: InodeRecord| record_view(r))
    }
}

impl InodeTable {
    /// `n` inodes, each an empty regular file.
    pub fn new(n: usize) -> (r: Self)
        ensures
            r@ == Seq::new(n as nat, |i: int| (true, Seq::<u8>::empty())),
    {
        let mut records: Vec<InodeRecord> = Vec::new();
        let mut i: usize = 0;
        while i < n
            invariant
                i <= n,
                records@.len() == i,
                forall|k: int| 0 <= k < i ==> #[trigger] record_view(records@[k]) == (true, Seq::<u8>::empty()),
            decreases n - i,
        {
            records.push(InodeRecord { is_file: true, data: Vec::new() });
            i = i + 1;
        }
        let r = InodeTable { records };
        assert(r@ =~= Seq::new(n as nat, |i: int| (true, Seq::<u8>::empty())));
        r
    }

    /// The number of inodes.
    pub fn len(&self) -> (r: usize)
        ensures
            r == self@.len(),
    {
        self.records.len()
    }

    /// The size in bytes of inode `id`.
    pub fn size(&self, id: u32) -> (r: usize)
        requires
            id < self@.len(),
        ensures
            r == self@[id as int].1.len(),
    {
        assert(record_view(self.records@[id as int]) == self@[id as int]);
        self.records[id as usize].data.len()
    }

    /// Whether inode `id` is a regular file.
    pub fn is_file(&self, id: u32) -> (r: bool)
        requires
            id < self@.len(),
        ensures
            r == self@[id as int].0,
    {
        assert(record_view(self.records@[id as int]) == self@[id as int]);
        self.records[id as usize].is_file
    }

    /// The data of inode `id`.
    pub fn data(&self, id: u32) -> (r: &Vec<u8>)
        requires
            id < self@.len(),
        ensures
            r@ == self@[id as int].1,
    {
        assert(record_view(self.records@[id as int]) == self@[id as int]);
        &self.records[id as usize].data
    }

    /// Sets inode `id` to `rec`.
    fn set(&mut self, id: u32, rec: InodeRecord)
        requires
            id < old(self)@.len(),
        ensures
            final(self)@ == old(self)@.update(id as int, record_view(rec)),
    {
        let ghost v0 = self@;
        let ghost rv = record_view(rec);
        self.records.set(id as usize, rec);
        assert(self@ =~= v0.update(id as int, rv));
    }
}

/// Creates a regular file named `name` in `dir`: `None`, changing nothing,
/// when an entry of that name exists; otherwise the lowest free inode of
/// the inode bitmap `inodes` on `disk` is taken, set up as an empty regular
/// file in `table`, and an entry for it appended (the directory grows by 32
/// bytes); its number is returned.
pub fn create(dir: &mut Directory, inodes: &Bitmap, disk: &mut Vec<BitmapBlock>, table: &mut InodeTable, name: &[u8]) -> (r: Option<u32>)
    requires
        inodes.start() + inodes.blocks() <= old(disk)@.len(),
        inodes.blocks() * 4096 <= u32::MAX,
        inodes.blocks() * 4096 <= old(table)@.len(),
        first_named(old(dir)@, name@, 0) is None ==> exists|b: int|
            0 <= b < inodes.blocks() * 4096 && !#[trigger] inodes.bits(old(disk)@)[b],
    ensures
        names_unique(old(dir)@) ==> names_unique(final(dir)@),
        first_named(old(dir)@, name@, 0) is Some ==> r is None && final(dir)@ == old(dir)@
            && final(disk)@ == old(disk)@ && final(table)@ == old(table)@,
        first_named(old(dir)@, name@, 0) is None ==> (r matches Some(id) && {
            &&& id < inodes.blocks() * 4096
            &&& !inodes.bits(old(disk)@)[id as int]
            &&& forall|c: int| 0 <= c < id ==> #[trigger] inodes.bits(old(disk)@)[c]
            &&& inodes.bits(final(disk)@) == inodes.bits(old(disk)@).update(id as int, true)
            &&& final(disk)@.len() == old(disk)@.len()
            &&& final(dir)@ == old(dir)@.push((name@, id))
            &&& final(table)@ == old(table)@.update(id as int, (true, Seq::<u8>::empty()))
        }),
{
    if dir.find_inode_id(name).is_some() {
        return None;
    }
    proof {
        lemma_first_named(dir@, name@, 0);
    }
    let b = inodes.allocate(disk);
    match b {
        Some(bit) => {
            let id = bit as u32;
            let ghost d0 = dir@;
            dir.entries.push((bytes_copy(name), id));
            let fresh = InodeRecord { is_file: true, data: Vec::new() };
            assert(fresh.data@ =~= Seq::<u8>::empty());
            table.set(id, fresh);
            proof {
                assert(dir@ =~= d0.push((name@, id)));
            }
            Some(id)
        },
        None => {
            proof {
                let w = choose|b: int| 0 <= b < inodes.blocks() * 4096 && !#[trigger] inodes.bits(old(disk)@)[b];
                assert(inodes.bits(old(disk)@)[w]);
            }
            None
        },
    }
}

/// Removes the file `name` from `dir`: its first entry is taken out of the
/// directory and its inode in `table` is cleared (no data left).
pub fn unlink(dir: &mut Directory, table: &mut InodeTable, name: &[u8])
    requires
        first_named(old(dir)@, name@, 0) is Some,
        old(dir)@[first_named(old(dir)@, name@, 0).unwrap()].1 < old(table)@.len(),
    ensures
        ({
            let j = first_named(old(dir)@, name@, 0).unwrap();
            let id = old(dir)@[j].1;
            &&& final(dir)@ == old(dir)@.remove(j)
            &&& final(table)@ == old(table)@.update(id as int, (old(table)@[id as int].0, Seq::<u8>::empty()))
            &&& names_unique(old(dir)@) ==> names_unique(final(dir)@) && first_named(final(dir)@, name@, 0) is None
        }),
{
    let ghost d = dir@;
    proof {
        lemma_first_named(d, name@, 0);
    }
    let mut i: usize = 0;
    while i < dir.entries.len()
        invariant
            d == dir@,
            d == old(dir)@,
            *table == *old(table),
            i <= d.len(),
            first_named(d, name@, 0) == first_named(d, name@, i as int),
            first_named(d, name@, 0) is Some,
            d[first_named(d, name@, 0).unwrap()].1 < table@.len(),
        decreases d.len() - i,
    {
        assert(entry_view(dir.entries@[i as int]) == d[i as int]);
        if bytes_eq(dir.entries[i].0.as_slice(), name) {
            let id = dir.entries[i].1;
            let is_file = table.is_file(id);
            let cleared = InodeRecord { is_file, data: Vec::new() };
            assert(cleared.data@ =~= Seq::<u8>::empty());
            table.set(id, cleared);
            dir.entries.remove(i);
            proof {
                assert(dir@ =~= d.remove(i as int));
                if names_unique(d) {
                    let f = dir@;
                    assert forall|a: int, b: int| 0 <= a < b < f.len() implies #[trigger] f[a].0 != #[trigger] f[b].0 by {
                        let a0 = if a < i { a } else { a + 1 };
                        let b0 = if b < i { b } else { b + 1 };
                        assert(f[a] == d[a0] && f[b] == d[b0]);
                    }
                    assert forall|k: int| 0 <= k < f.len() implies f[k].0 != name@ by {
                        let k0 = if k < i { k } else { k + 1 };
                        assert(f[k] == d[k0]);
                        if k0 > i {
                            assert(d[i as int].0 != d[k0].0);
                        }
                    }
                    lemma_first_named(f, name@, 0);
                }
            }
            return;
        }
        i = i + 1;
    }
}

/// Links `new_name` to the file `old_name`: -1 when the two names are
/// equal; otherwise a new file `new_name` is created (the name must be
/// free) and takes the type and data of the inode of `old_name` (which
/// must exist), and 0 is returned.
pub fn sys_linkat(dir: &mut Directory, inodes: &Bitmap, disk: &mut Vec<BitmapBlock>, table: &mut InodeTable, old_name: &[u8], new_name: &[u8]) -> (r: isize)
    requires
        inodes.start() + inodes.blocks() <= old(disk)@.len(),
        inodes.blocks() * 4096 <= u32::MAX,
        inodes.blocks() * 4096 <= old(table)@.len(),
        old_name@ != new_name@ ==> first_named(old(dir)@, old_name@, 0) is Some,
        old_name@ != new_name@ ==> old(dir)@[first_named(old(dir)@, old_name@, 0).unwrap()].1 < old(table)@.len(),
        old_name@ != new_name@ ==> first_named(old(dir)@, new_name@, 0) is None,
        old_name@ != new_name@ ==> exists|b: int|
            0 <= b < inodes.blocks() * 4096 && !#[trigger] inodes.bits(old(disk)@)[b],
    ensures
        old_name@ == new_name@ ==> r == -1 && final(dir)@ == old(dir)@ && final(disk)@ == old(disk)@
            && final(table)@ == old(table)@,
        old_name@ != new_name@ ==> r == 0 && {
            let src = old(dir)@[first_named(old(dir)@, old_name@, 0).unwrap()].1;
            let id = final(dir)@.last().1;
            &&& id < inodes.blocks() * 4096
            &&& !inodes.bits(old(disk)@)[id as int]
            &&& forall|c: int| 0 <= c < id ==> #[trigger] inodes.bits(old(disk)@)[c]
            &&& inodes.bits(final(disk)@) == inodes.bits(old(disk)@).update(id as int, true)
            &&& final(dir)@ == old(dir)@.push((new_name@, id))
            &&& final(table)@ == old(table)@.update(id as int, old(table)@[src as int])
        },
        names_unique(old(dir)@) ==> names_unique(final(dir)@),
{
    if bytes_eq(old_name, new_name) {
        return -1;
    }
    let src = dir.find_inode_id(old_name).unwrap();
    let ghost t0 = table@;
    let is_file = table.is_file(src);
    let data = bytes_copy(table.data(src).as_slice());
    let id = create(dir, inodes, disk, table, new_name).unwrap();
    let ghost t1 = table@;
    table.set(id, InodeRecord { is_file, data });
    proof {
        assert(table@ =~= t0.update(id as int, t0[src as int]));
    }
    0
}

/// Unlinks the file `name`: 0 after removing its entry and clearing its
/// inode, or -1, changing nothing, when there is none.
pub fn sys_unlinkat(dir: &mut Directory, table: &mut InodeTable, name: &[u8]) -> (r: isize)
    requires
        forall|k: int| 0 <= k < old(dir)@.len() ==> #[trigger] old(dir)@[k].1 < old(table)@.len(),
    ensures
        first_named(old(dir)@, name@, 0) is None ==> r == -1 && final(dir)@ == old(dir)@ && final(table)@ == old(table)@,
        first_named(old(dir)@, name@, 0) is Some ==> {
            let j = first_named(old(dir)@, name@, 0).unwrap();
            let id = old(dir)@[j].1;
            &&& r == 0
            &&& final(dir)@ == old(dir)@.remove(j)
            &&& final(table)@ == old(table)@.update(id as int, (old(table)@[id as int].0, Seq::<u8>::empty()))
            &&& names_unique(old(dir)@) ==> names_unique(final(dir)@) && first_named(final(dir)@, name@, 0) is None
        },
{
    if dir.find_inode_id(name).is_none() {
        return -1;
    }
    proof {
        lemma_first_named(dir@, name@, 0);
    }
    unlink(dir, table, name);
    0
}

} // verus!
