//! Page-table entries and three-level SV39 page tables.
use vstd::prelude::*;
use crate::mm::address::{PhysPageNum, VirtAddr, VirtPageNum, vpn_indexes, va_half};
use crate::mm::range::StepByOne;
use crate::mm::phys_mem::{PhysMem, ppn_limit};
use crate::mm::frame_allocator::{FrameTracker, StackFrameAllocator, FrameAllocView, frames_backed};

verus! {

/// The flag bits of a page-table entry.
#[derive(Clone, Copy, Debug, PartialEq, Eq, Structural)]
pub struct PTEFlags {
    bits: u8,
}

impl View for PTEFlags {
    type V = u8;

    closed spec fn view(&self) -> u8 {
        self.bits
    }
}

#[allow(non_snake_case)]
impl PTEFlags {
    /// The entry is valid.
    pub fn V() -> (r: Self)
        ensures
            r@ == 1,
    {
        Self { bits: 1 }
    }

    /// The page may be read.
    pub fn R() -> (r: Self)
        ensures
            r@ == 2,
    {
        Self { bits: 2 }
    }

    /// The page may be written.
    pub fn W() -> (r: Self)
        ensures
            r@ == 4,
    {
        Self { bits: 4 }
    }

    /// The page may be executed.
    pub fn X() -> (r: Self)
        ensures
            r@ == 8,
    {
        Self { bits: 8 }
    }

    /// The page is reachable from user mode.
    pub fn U() -> (r: Self)
        ensures
            r@ == 16,
    {
        Self { bits: 16 }
    }

    /// The mapping is global.
    pub fn G() -> (r: Self)
        ensures
            r@ == 32,
    {
        Self { bits: 32 }
    }

    /// The page has been accessed.
    pub fn A() -> (r: Self)
        ensures
            r@ == 64,
    {
        Self { bits: 64 }
    }

    /// The page has been written.
    pub fn D() -> (r: Self)
        ensures
            r@ == 128,
    {
        Self { bits: 128 }
    }

    /// No flag set.
    pub fn empty() -> (r: Self)
        ensures
            r@ == 0,
    {
        Self { bits: 0 }
    }

    /// The flags as a byte.
    pub fn bits(&self) -> (r: u8)
        ensures
            r == self@,
    {
        self.bits
    }

    /// The flags whose bits are `bits`; every bit of a byte names a flag, so
    /// this never fails.
    pub fn from_bits(bits: u8) -> (r: Option<Self>)
        ensures
            r matches Some(f) && f@ == bits,
    {
        Some(Self { bits })
    }

    /// The flags set in both (`self & other`).
    pub fn intersection(self, other: Self) -> (r: Self)
        ensures
            r@ == self@ & other@,
    {
        Self { bits: self.bits & other.bits }
    }

    /// The flags set in either (`self | other`).
    pub fn union(self, other: Self) -> (r: Self)
        ensures
            r@ == self@ | other@,
    {
        Self { bits: self.bits | other.bits }
    }

    /// Whether every flag of `other` is set in `self`.
    pub fn contains(&self, other: Self) -> (r: bool)
        ensures
            r == (self@ & other@ == other@),
    {
        (self.bits & other.bits) == other.bits
    }
}

// ---- the layout of an entry: page number in bits 53..10, flags in bits 7..0 ----

/// The entry word for frame `p` with flag byte `f`.
pub open spec fn pte_encode(p: usize, f: u8) -> usize {
    (((p as u64) << 10u64) | (f as u64)) as usize
}

/// The frame an entry word points to.
pub open spec fn pte_target(b: usize) -> usize {
    (((b as u64) >> 10u64) & 0xfff_ffff_ffffu64) as usize
}

/// The flag byte of an entry word.
pub open spec fn pte_flag_bits(b: usize) -> u8 {
    ((b as u64) & 0xffu64) as u8
}

/// Whether an entry word has its valid bit set.
pub open spec fn pte_valid(b: usize) -> bool {
    (b as u64) & 1u64 == 1u64
}

/// Decoding an encoded entry gives back its frame and flags, when the frame
/// number fits in 44 bits and the encoded word fits in a `usize`.
pub proof fn lemma_pte_roundtrip(p: usize, f: u8)
    requires
        p < ppn_limit(),
        p * 1024 + 1024 <= usize::MAX,
    ensures
        pte_encode(p, f) == p * 1024 + f,
        pte_target(pte_encode(p, f)) == p,
        pte_flag_bits(pte_encode(p, f)) == f,
        pte_valid(pte_encode(p, f)) == (f & 1u8 == 1u8),
{
    let pp = p as u64;
    let ff = f as u64;
    assert(pp < 0x1000_0000_0000u64 && ff < 256 ==> ((pp << 10u64) | ff) == pp * 1024 + ff)
        by (bit_vector);
    let w = (pp << 10u64) | ff;
    assert(w as usize as u64 == w);
    assert(pp < 0x1000_0000_0000u64 && ff < 256 && w == (pp << 10u64) | ff ==> ((w >> 10u64)
        & 0xfff_ffff_ffffu64) == pp && (w & 0xffu64) == ff && ((w & 1u64 == 1u64) == (ff & 1u64
        == 1u64))) by (bit_vector);
    assert(ff < 256 ==> ((ff & 1u64 == 1u64) == ((ff as u8) & 1u8 == 1u8))) by (bit_vector);
}

/// The zero word is not a valid entry.
pub proof fn lemma_zero_invalid()
    ensures
        !pte_valid(0),
{
    assert(0u64 & 1u64 == 0u64) by (bit_vector);
}

/// A page-table entry: a frame number and flag bits packed into a word.
#[derive(Clone, Copy, Debug, PartialEq, Eq, Structural)]
pub struct PageTableEntry {
    pub bits: usize,
}

impl PageTableEntry {
    /// The entry pointing to `ppn` with `flags`.
    pub fn new(ppn: PhysPageNum, flags: PTEFlags) -> (r: Self)
        ensures
            r.bits == pte_encode(ppn.0, flags@),
    {
        PageTableEntry { bits: (((ppn.0 as u64) << 10u64) | (flags.bits() as u64)) as usize }
    }

    /// The cleared entry.
    pub fn empty() -> (r: Self)
        ensures
            r.bits == 0,
    {
        PageTableEntry { bits: 0 }
    }

    /// The frame the entry points to (bits 53..10).
    pub fn ppn(&self) -> (r: PhysPageNum)
        ensures
            r.0 == pte_target(self.bits),
    {
        PhysPageNum((((self.bits as u64) >> 10u64) & 0xfff_ffff_ffffu64) as usize)
    }

    /// The flag bits of the entry (bits 7..0).
    pub fn flags(&self) -> (r: PTEFlags)
        ensures
            r@ == pte_flag_bits(self.bits),
    {
        PTEFlags::from_bits(((self.bits as u64) & 0xffu64) as u8).unwrap()
    }

    /// Whether the valid flag is set.
    pub fn is_valid(&self) -> (r: bool)
        ensures
            r == pte_valid(self.bits),
    {
        let r = self.flags().intersection(PTEFlags::V()) != PTEFlags::empty();
        proof {
            let b = self.bits as u64;
            assert(((b & 0xffu64) as u8) & 1u8 != 0u8 <==> b & 1u64 == 1u64) by (bit_vector);
        }
        r
    }

    /// Whether the readable flag is set.
    pub fn readable(&self) -> (r: bool)
        ensures
            r == (pte_flag_bits(self.bits) & 2u8 != 0u8),
    {
        self.flags().intersection(PTEFlags::R()) != PTEFlags::empty()
    }

    /// Whether the writable flag is set.
    pub fn writable(&self) -> (r: bool)
        ensures
            r == (pte_flag_bits(self.bits) & 4u8 != 0u8),
    {
        self.flags().intersection(PTEFlags::W()) != PTEFlags::empty()
    }

    /// Whether the executable flag is set.
    pub fn executable(&self) -> (r: bool)
        ensures
            r == (pte_flag_bits(self.bits) & 8u8 != 0u8),
    {
        self.flags().intersection(PTEFlags::X()) != PTEFlags::empty()
    }
}

} // verus!

verus! {

/// The valid bit survives encoding whatever the frame number.
pub proof fn lemma_encode_valid(p: usize, f: u8)
    requires
        f & 1u8 == 1u8,
    ensures
        pte_valid(pte_encode(p, f)),
{
    let pp = p as u64;
    let ff = f as u64;
    assert(ff & 1u64 == 1u64) by (bit_vector)
        requires
            f & 1u8 == 1u8,
            ff == f as u64,
    ;
    assert((((pp << 10u64) | ff) as usize as u64) & 1u64 == 1u64) by (bit_vector)
        requires
            ff & 1u64 == 1u64,
    ;
}

/// The three page-table indexes of a page number, root level first.
pub open spec fn vpn_key(vpn: VirtPageNum) -> (int, int, int) {
    let s = vpn_indexes(vpn.0 as int);
    (s[0] as int, s[1] as int, s[2] as int)
}

/// Whether each index of `k` lies in `0..512`.
pub open spec fn key_ok(k: (int, int, int)) -> bool {
    &&& 0 <= k.0 < 512
    &&& 0 <= k.1 < 512
    &&& 0 <= k.2 < 512
}

/// The leaf entry reached from the root frame along the indexes `k`, or
/// `None` when the walk meets an invalid entry before the leaf level.
pub open spec fn walk(mem: PhysMem, root: usize, k: (int, int, int)) -> Option<usize> {
    let e0 = mem.word(root as int, k.0);
    if !pte_valid(e0) {
        None
    } else {
        let e1 = mem.word(pte_target(e0) as int, k.1);
        if !pte_valid(e1) {
            None
        } else {
            Some(mem.word(pte_target(e1) as int, k.2))
        }
    }
}

/// The valid leaf entries of the table rooted at `root`, by index triple.
pub open spec fn mapping_of(mem: PhysMem, root: usize) -> Map<(int, int, int), usize> {
    Map::new(
        |k: (int, int, int)| key_ok(k) && (walk(mem, root, k) matches Some(b) && pte_valid(b)),
        |k: (int, int, int)| walk(mem, root, k).unwrap(),
    )
}

/// The number of frames the walk to `k` still has to create.
pub open spec fn frames_needed(mem: PhysMem, root: usize, k: (int, int, int)) -> int {
    let e0 = mem.word(root as int, k.0);
    if !pte_valid(e0) {
        2
    } else if !pte_valid(mem.word(pte_target(e0) as int, k.1)) {
        1
    } else {
        0
    }
}

/// Every frame a walk from `root` reads is held in `mem`.
pub open spec fn readable(mem: PhysMem, root: usize) -> bool {
    &&& mem.holds(root as int)
    &&& forall|i: int|
        #![trigger mem.word(root as int, i)]
        0 <= i < 512 && pte_valid(mem.word(root as int, i)) ==> {
            let t = pte_target(mem.word(root as int, i));
            &&& mem.holds(t as int)
            &&& forall|j: int|
                #![trigger mem.word(t as int, j)]
                0 <= j < 512 && pte_valid(mem.word(t as int, j)) ==> mem.holds(
                    pte_target(mem.word(t as int, j)) as int,
                )
        }
}


/// Entry word `w1` is what a walk that creates missing tables leaves where
/// `w0` stood: `w0` itself when it was valid, otherwise an entry with only
/// the valid flag set, pointing to a next-level table.
pub open spec fn installed(w0: usize, w1: usize) -> bool {
    if pte_valid(w0) {
        w1 == w0
    } else {
        w1 == pte_encode(pte_target(w1), 1u8)
    }
}

/// The words `map` changes when it maps key `k` to entry `leaf` in the
/// table with root `root`, from memory `m0` to `m1`: the root entry and the
/// level-1 entry on the walk are kept when valid, and otherwise point, with
/// only the valid flag, to fresh frames that were free in `fa` and not
/// among the table's frames `frames`; the leaf entry becomes `leaf`; no
/// other word changes.
pub open spec fn map_writes(m0: PhysMem, m1: PhysMem, fa: FrameAllocView, frames: Set<usize>, root: usize, k: (int, int, int), leaf: usize) -> bool {
    let t1 = pte_target(m1.word(root as int, k.0));
    let t2 = pte_target(m1.word(t1 as int, k.1));
    &&& installed(m0.word(root as int, k.0), m1.word(root as int, k.0))
    &&& installed(m0.word(t1 as int, k.1), m1.word(t1 as int, k.1))
    &&& !pte_valid(m0.word(root as int, k.0)) ==> fa.is_free(t1 as int) && !frames.contains(t1)
    &&& !pte_valid(m0.word(t1 as int, k.1)) ==> fa.is_free(t2 as int) && !frames.contains(t2)
    &&& m1.word(t2 as int, k.2) == leaf
    &&& forall|q: int, j: int|
        #![trigger m1.word(q, j)]
        m1.holds(q) && 0 <= j < 512 && !(q == root && j == k.0) && !(q == t1 && j == k.1) && !(q
            == t2 && j == k.2) ==> m1.word(q, j) == m0.word(q, j)
}

/// The indexes of the valid root entries of the table with root `root`.
pub open spec fn l0_present(mem: PhysMem, root: usize) -> Set<int> {
    Set::new(|i: int| 0 <= i < 512 && pte_valid(mem.word(root as int, i)))
}

/// The index pairs of the valid level-1 entries below valid root entries.
pub open spec fn l1_present(mem: PhysMem, root: usize) -> Set<(int, int)> {
    Set::new(
        |x: (int, int)|
            0 <= x.0 < 512 && 0 <= x.1 < 512 && pte_valid(mem.word(root as int, x.0)) && pte_valid(
                mem.word(pte_target(mem.word(root as int, x.0)) as int, x.1),
            ),
    )
}

/// `m1` equals `m0` outside the frames of `frames`.
pub open spec fn same_outside(m0: PhysMem, m1: PhysMem, frames: Set<usize>) -> bool {
    &&& m1.base() == m0.base()
    &&& m1.count() == m0.count()
    &&& forall|p: int, j: int|
        #![trigger m1.word(p, j)]
        m1.holds(p) && 0 <= p && !frames.contains(p as usize) && 0 <= j < 512 ==> m1.word(p, j)
            == m0.word(p, j)
}

/// Writing only into frames that are in use keeps the free frames cleared.
pub proof fn lemma_backed_after_write(m0: PhysMem, m1: PhysMem, fa: FrameAllocView, frames: Set<usize>)
    requires
        frames_backed(m0, fa),
        forall|p: usize| #[trigger] frames.contains(p) ==> !fa.is_free(p as int),
        same_outside(m0, m1, frames),
    ensures
        frames_backed(m1, fa),
{
    assert forall|p: int| #[trigger] fa.is_free(p) implies m1.holds(p) && m1.zeroed(p) by {
        assert(m0.holds(p) && m0.zeroed(p));
        assert(0 <= p <= usize::MAX);
        if frames.contains(p as usize) {
            assert(!fa.is_free(p as usize as int));
        }
        assert forall|i: int| 0 <= i < 512 implies #[trigger] m1.word(p, i) == 0 by {
            assert(m0.word(p, i) == 0);
        }
    }
}

/// A three-level SV39 page table: the root frame and every frame of the
/// tree, which the table owns.
pub struct PageTable {
    root_ppn: PhysPageNum,
    frames: Vec<FrameTracker>,
    /// For each frame of the tree: its level (0 for the root) and the frame
    /// and index of the entry pointing to it.
    nodes: Ghost<Map<usize, (int, usize, int)>>,
}

impl PageTable {
    /// The root frame.
    pub closed spec fn root(&self) -> usize {
        self.root_ppn.0
    }

    /// The frames of the tree.
    pub closed spec fn table_frames(&self) -> Set<usize> {
        self.nodes@.dom()
    }

    /// The valid leaf entries, by index triple.
    pub open spec fn mapping(&self, mem: PhysMem) -> Map<(int, int, int), usize> {
        mapping_of(mem, self.root())
    }

    /// The leaf entry for `vpn`, if the walk reaches the leaf level.
    pub open spec fn lookup(&self, mem: PhysMem, vpn: VirtPageNum) -> Option<usize> {
        walk(mem, self.root(), vpn_key(vpn))
    }

    /// None of the table's frames can be handed out by `fa`.
    pub open spec fn separate(&self, fa: FrameAllocView) -> bool {
        forall|p: usize| #[trigger] self.table_frames().contains(p) ==> !fa.is_free(p as int)
    }

    /// The table, its memory and the allocator it takes frames from are
    /// consistent.
    pub open spec fn inv(&self, mem: PhysMem, fa: FrameAllocView) -> bool {
        &&& self.wf(mem)
        &&& self.separate(fa)
        &&& frames_backed(mem, fa)
    }

    /// The frames form a tree: the root at level 0, every valid entry of a
    /// level-0 or level-1 frame points to a frame one level down whose
    /// recorded parent is that entry, and every recorded parent entry is
    /// valid and points back.
    pub closed spec fn wf(&self, mem: PhysMem) -> bool {
        let n = self.nodes@;
        let root = self.root_ppn.0;
        &&& mem.wf()
        &&& n.contains_key(root)
        &&& n[root].0 == 0
        &&& forall|p: usize|
            #![trigger n.contains_key(p)]
            n.contains_key(p) ==> mem.holds(p as int) && 0 <= n[p].0 <= 2 && (n[p].0 == 0
                <==> p == root)
        &&& forall|p: usize, i: int|
            #![trigger n.contains_key(p), mem.word(p as int, i)]
            n.contains_key(p) && n[p].0 < 2 && 0 <= i < 512 && pte_valid(mem.word(p as int, i))
                ==> n.contains_key(pte_target(mem.word(p as int, i))) && n[pte_target(
                mem.word(p as int, i),
            )] == (n[p].0 + 1, p, i)
        &&& forall|p: usize|
            #![trigger n[p]]
            n.contains_key(p) && n[p].0 > 0 ==> {
                let q = n[p].1;
                let i = n[p].2;
                &&& n.contains_key(q)
                &&& n[q].0 == n[p].0 - 1
                &&& 0 <= i < 512
                &&& pte_valid(mem.word(q as int, i))
                &&& pte_target(mem.word(q as int, i)) == p
            }
        &&& forall|k: int|
            0 <= k < self.frames@.len() ==> #[trigger] n.contains_key(self.frames@[k].ppn.0)
        &&& forall|p: usize|
            #![trigger n.contains_key(p)]
            n.contains_key(p) ==> self.frames@.contains(FrameTracker { ppn: PhysPageNum(p) })
    }

    /// The index triple the leaf entry at index `i` of level-2 frame `p`
    /// stands for.
    closed spec fn key_of(&self, p: usize, i: int) -> (int, int, int) {
        let n = self.nodes@;
        (n[n[p].1].2, n[p].2, i)
    }

    proof fn lemma_walk_nodes(&self, mem: PhysMem, k: (int, int, int))
        requires
            self.wf(mem),
            key_ok(k),
        ensures
            ({
                let n = self.nodes@;
                let e0 = mem.word(self.root() as int, k.0);
                let t0 = pte_target(e0);
                let e1 = mem.word(t0 as int, k.1);
                let t1 = pte_target(e1);
                &&& pte_valid(e0) ==> n.contains_key(t0) && n[t0] == (1int, self.root(), k.0)
                &&& pte_valid(e0) && pte_valid(e1) ==> n.contains_key(t1) && n[t1] == (
                    2int,
                    t0,
                    k.1,
                )
            }),
    {
        let n = self.nodes@;
        let root = self.root();
        assert(n.contains_key(root));
        let e0 = mem.word(root as int, k.0);
        if pte_valid(e0) {
            let t0 = pte_target(e0);
            assert(n.contains_key(t0));
            assert(n[t0].0 == 1);
        }
    }

    /// A well-formed table can be walked without leaving `mem`.
    pub proof fn lemma_wf_readable(&self, mem: PhysMem)
        requires
            self.wf(mem),
        ensures
            readable(mem, self.root()),
    {
        let n = self.nodes@;
        let root = self.root();
        assert(n.contains_key(root));
        assert forall|i: int|
            #![trigger mem.word(root as int, i)]
            0 <= i < 512 && pte_valid(mem.word(root as int, i)) implies {
            let t = pte_target(mem.word(root as int, i));
            &&& mem.holds(t as int)
            &&& forall|j: int|
                #![trigger mem.word(t as int, j)]
                0 <= j < 512 && pte_valid(mem.word(t as int, j)) ==> mem.holds(
                    pte_target(mem.word(t as int, j)) as int,
                )
        } by {
            let t = pte_target(mem.word(root as int, i));
            assert(n.contains_key(t));
            assert forall|j: int|
                #![trigger mem.word(t as int, j)]
                0 <= j < 512 && pte_valid(mem.word(t as int, j)) implies mem.holds(
                pte_target(mem.word(t as int, j)) as int,
            ) by {
                assert(n.contains_key(t));
                assert(n.contains_key(pte_target(mem.word(t as int, j))));
            }
        }
    }

    /// Writing `v` into index `i2` of level-2 frame `p2` keeps the tree and
    /// changes the walk of exactly one index triple.
    proof fn lemma_write_leaf(&self, m0: PhysMem, m1: PhysMem, p2: usize, i2: int, v: usize)
        requires
            self.wf(m0),
            self.nodes@.contains_key(p2),
            self.nodes@[p2].0 == 2,
            0 <= i2 < 512,
            m1.base() == m0.base(),
            m1.count() == m0.count(),
            forall|p: int, j: int|
                #![trigger m1.word(p, j)]
                m1.holds(p) && 0 <= j < 512 ==> m1.word(p, j) == if p == p2 && j == i2 {
                    v
                } else {
                    m0.word(p, j)
                },
        ensures
            self.wf(m1),
            key_ok(self.key_of(p2, i2)),
            walk(m1, self.root(), self.key_of(p2, i2)) == Some(v),
            forall|k: (int, int, int)|
                key_ok(k) && k != self.key_of(p2, i2) ==> #[trigger] walk(m1, self.root(), k)
                    == walk(m0, self.root(), k),
    {
        let n = self.nodes@;
        let root = self.root();
        assert(n.contains_key(root));
        let p1 = n[p2].1;
        let i1 = n[p2].2;
        assert(n.contains_key(p1) && n[p1].0 == 1);
        let i0 = n[p1].2;
        assert(n[root].0 == 0);
        assert(n[p1].1 == root) by {
            assert(n.contains_key(n[p1].1));
            assert(n[n[p1].1].0 == 0);
        }
        assert(m0.holds(root as int));
        assert(m0.holds(p1 as int));
        assert(m0.holds(p2 as int));
        // the tree is unchanged: no level-0 or level-1 frame was written
        assert forall|p: usize, i: int|
            #![trigger n.contains_key(p), m1.word(p as int, i)]
            n.contains_key(p) && n[p].0 < 2 && 0 <= i < 512 && pte_valid(m1.word(p as int, i))
                implies n.contains_key(pte_target(m1.word(p as int, i))) && n[pte_target(
            m1.word(p as int, i),
        )] == (n[p].0 + 1, p, i) by {
            assert(m0.holds(p as int));
            assert(m1.word(p as int, i) == m0.word(p as int, i));
        }
        assert forall|p: usize|
            #![trigger n[p]]
            n.contains_key(p) && n[p].0 > 0 implies {
            let q = n[p].1;
            let i = n[p].2;
            &&& n.contains_key(q)
            &&& n[q].0 == n[p].0 - 1
            &&& 0 <= i < 512
            &&& pte_valid(m1.word(q as int, i))
            &&& pte_target(m1.word(q as int, i)) == p
        } by {
            let q = n[p].1;
            assert(n.contains_key(q));
            assert(m0.holds(q as int));
            assert(m1.word(q as int, n[p].2) == m0.word(q as int, n[p].2));
        }
        assert(self.wf(m1));
        // the walk to the written slot
        assert(m1.word(root as int, i0) == m0.word(root as int, i0));
        assert(m1.word(p1 as int, i1) == m0.word(p1 as int, i1));
        assert forall|k: (int, int, int)|
            key_ok(k) && k != self.key_of(p2, i2) implies #[trigger] walk(m1, root, k) == walk(
            m0,
            root,
            k,
        ) by {
            self.lemma_walk_nodes(m0, k);
            let e0 = m0.word(root as int, k.0);
            assert(m1.word(root as int, k.0) == e0);
            if pte_valid(e0) {
                let t0 = pte_target(e0);
                assert(m0.holds(t0 as int));
                let e1 = m0.word(t0 as int, k.1);
                assert(m1.word(t0 as int, k.1) == e1);
                if pte_valid(e1) {
                    let t1 = pte_target(e1);
                    assert(m0.holds(t1 as int));
                    if t1 == p2 && k.2 == i2 {
                        assert(n[t1] == (2int, t0, k.1));
                        assert(t0 == p1 && k.1 == i1);
                        assert(n[t0] == (1int, root, k.0));
                        assert(k.0 == i0);
                        assert(false);
                    }
                    assert(m1.word(t1 as int, k.2) == m0.word(t1 as int, k.2));
                }
            }
        }
    }

    /// Installing cleared frame `f` under the invalid entry `i` of frame `p`
    /// (level 0 or 1) keeps the tree and the valid leaf entries.
    proof fn lemma_install(
        pt0: PageTable,
        pt1: PageTable,
        m0: PhysMem,
        m1: PhysMem,
        fa0: FrameAllocView,
        fa1: FrameAllocView,
        p: usize,
        i: int,
        f: usize,
    )
        requires
            pt0.inv(m0, fa0),
            pt0.nodes@.contains_key(p),
            pt0.nodes@[p].0 < 2,
            0 <= i < 512,
            !pte_valid(m0.word(p as int, i)),
            fa0.is_free(f as int),
            !fa1.is_free(f as int),
            fa1.wf(),
            forall|q: int| q != f ==> #[trigger] fa1.is_free(q) == fa0.is_free(q),
            m1.base() == m0.base(),
            m1.count() == m0.count(),
            forall|x: int, j: int|
                #![trigger m1.word(x, j)]
                m1.holds(x) && 0 <= j < 512 ==> m1.word(x, j) == if x == p && j == i {
                    pte_encode(f, 1u8)
                } else {
                    m0.word(x, j)
                },
            pt1.root_ppn == pt0.root_ppn,
            pt1.nodes@ == pt0.nodes@.insert(f, (pt0.nodes@[p].0 + 1, p, i)),
            pt1.frames@ == pt0.frames@.push(FrameTracker { ppn: PhysPageNum(f) }),
        ensures
            pt1.inv(m1, fa1),
            pt1.mapping(m1) == pt0.mapping(m0),
            forall|k: (int, int, int)|
                key_ok(k) ==> #[trigger] walk(m1, pt0.root(), k) == walk(m0, pt0.root(), k) || (
                walk(m0, pt0.root(), k) is None && walk(m1, pt0.root(), k) == Some(0usize)),
    {
        let n0 = pt0.nodes@;
        let n1 = pt1.nodes@;
        let root = pt0.root();
        let l = n0[p].0;
        assert(m0.holds(f as int) && m0.zeroed(f as int));
        assert(!n0.contains_key(f)) by {
            if n0.contains_key(f) {
                assert(pt0.table_frames().contains(f));
            }
        }
        assert(m0.holds(p as int));
        assert(f != p);
        assert(f < m0.base() + m0.count());
        assert(f * 1024 + 1024 <= usize::MAX) by (nonlinear_arith)
            requires
                f < m0.base() + m0.count(),
                (m0.base() + m0.count()) * 1024 <= usize::MAX,
        ;
        lemma_pte_roundtrip(f, 1u8);
        assert(1u8 & 1u8 == 1u8) by (bit_vector);
        lemma_zero_invalid();
        // frames_backed
        assert forall|q: int| #[trigger] fa1.is_free(q) implies m1.holds(q) && m1.zeroed(q) by {
            assert(fa0.is_free(q));
            assert(m0.holds(q) && m0.zeroed(q));
            assert(q != p) by {
                assert(pt0.table_frames().contains(p));
            }
            assert forall|j: int| 0 <= j < 512 implies #[trigger] m1.word(q, j) == 0 by {
                assert(m0.word(q, j) == 0);
            }
        }
        // separate
        assert forall|x: usize| #[trigger] pt1.table_frames().contains(x) implies !fa1.is_free(
            x as int,
        ) by {
            if x != f {
                assert(pt0.table_frames().contains(x));
            }
        }
        // wf
        assert(n1.contains_key(root) && n1[root].0 == 0);
        assert forall|x: usize|
            #![trigger n1.contains_key(x)]
            n1.contains_key(x) implies m1.holds(x as int) && 0 <= n1[x].0 <= 2 && (n1[x].0 == 0
            <==> x == pt1.root()) by {
            if x != f {
                assert(n0.contains_key(x));
            }
        }
        assert forall|x: usize, j: int|
            #![trigger n1.contains_key(x), m1.word(x as int, j)]
            n1.contains_key(x) && n1[x].0 < 2 && 0 <= j < 512 && pte_valid(m1.word(x as int, j))
                implies n1.contains_key(pte_target(m1.word(x as int, j))) && n1[pte_target(
            m1.word(x as int, j),
        )] == (n1[x].0 + 1, x, j) by {
            if x == f {
                assert(m1.word(x as int, j) == m0.word(f as int, j));
                assert(m0.word(f as int, j) == 0);
            } else if x == p && j == i {
            } else {
                assert(n0.contains_key(x));
                assert(m0.holds(x as int));
                assert(m1.word(x as int, j) == m0.word(x as int, j));
                assert(n0.contains_key(pte_target(m0.word(x as int, j))));
            }
        }
        assert forall|x: usize|
            #![trigger n1[x]]
            n1.contains_key(x) && n1[x].0 > 0 implies {
            let q = n1[x].1;
            let j = n1[x].2;
            &&& n1.contains_key(q)
            &&& n1[q].0 == n1[x].0 - 1
            &&& 0 <= j < 512
            &&& pte_valid(m1.word(q as int, j))
            &&& pte_target(m1.word(q as int, j)) == x
        } by {
            if x != f {
                assert(n0.contains_key(x));
                assert(n0[x] == n1[x]);
                let q = n0[x].1;
                let j = n0[x].2;
                assert(n0.contains_key(q));
                assert(m0.holds(q as int));
                assert(q != f);
                if q == p && j == i {
                    assert(pte_valid(m0.word(p as int, i)));
                }
                assert(m1.word(q as int, j) == m0.word(q as int, j));
            }
        }
        assert forall|k: int| 0 <= k < pt1.frames@.len() implies #[trigger] n1.contains_key(
            pt1.frames@[k].ppn.0,
        ) by {
            if k < pt0.frames@.len() {
                assert(pt1.frames@[k] == pt0.frames@[k]);
                assert(n0.contains_key(pt0.frames@[k].ppn.0));
            }
        }
        assert forall|x: usize|
            #![trigger n1.contains_key(x)]
            n1.contains_key(x) implies pt1.frames@.contains(FrameTracker { ppn: PhysPageNum(x) }) by {
            if x == f {
                assert(pt1.frames@[pt0.frames@.len() as int] == FrameTracker { ppn: PhysPageNum(f) });
            } else {
                assert(n0.contains_key(x));
                assert(pt0.frames@.contains(FrameTracker { ppn: PhysPageNum(x) }));
                let k = choose|k: int|
                    0 <= k < pt0.frames@.len() && pt0.frames@[k] == FrameTracker {
                        ppn: PhysPageNum(x),
                    };
                assert(pt1.frames@[k] == pt0.frames@[k]);
            }
        }
        assert(pt1.wf(m1));
        // walks
        assert forall|k: (int, int, int)|
            key_ok(k) implies #[trigger] walk(m1, root, k) == walk(m0, root, k) || (walk(
            m0,
            root,
            k,
        ) is None && walk(m1, root, k) == Some(0usize)) by {
            pt0.lemma_walk_nodes(m0, k);
            assert(n0.contains_key(root));
            assert(m0.holds(root as int));
            let e0 = m0.word(root as int, k.0);
            if p == root && k.0 == i {
                assert(m1.word(root as int, k.0) == pte_encode(f, 1u8));
                assert(m1.word(f as int, k.1) == m0.word(f as int, k.1));
                assert(m0.word(f as int, k.1) == 0);
            } else {
                assert(m1.word(root as int, k.0) == e0);
                if pte_valid(e0) {
                    let t0 = pte_target(e0);
                    assert(n0.contains_key(t0));
                    assert(m0.holds(t0 as int));
                    let e1 = m0.word(t0 as int, k.1);
                    if t0 == p && k.1 == i {
                        assert(m1.word(t0 as int, k.1) == pte_encode(f, 1u8));
                        assert(m1.word(f as int, k.2) == m0.word(f as int, k.2));
                        assert(m0.word(f as int, k.2) == 0);
                    } else {
                        assert(m1.word(t0 as int, k.1) == e1);
                        if pte_valid(e1) {
                            let t1 = pte_target(e1);
                            assert(n0.contains_key(t1));
                            assert(n0[t1].0 == 2);
                            assert(m0.holds(t1 as int));
                            assert(t1 != p);
                            assert(m1.word(t1 as int, k.2) == m0.word(t1 as int, k.2));
                        }
                    }
                }
            }
        }
        assert(pt1.mapping(m1) =~= pt0.mapping(m0)) by {
            assert forall|k: (int, int, int)| #[trigger] pt1.mapping(m1).contains_key(k)
                == pt0.mapping(m0).contains_key(k) by {
                if key_ok(k) {
                    assert(walk(m1, root, k) == walk(m0, root, k) || (walk(m0, root, k) is None
                        && walk(m1, root, k) == Some(0usize)));
                }
            }
            assert forall|k: (int, int, int)| #[trigger] pt1.mapping(m1).contains_key(k)
                implies pt1.mapping(m1)[k] == pt0.mapping(m0)[k] by {
                assert(walk(m1, root, k) == walk(m0, root, k) || (walk(m0, root, k) is None
                    && walk(m1, root, k) == Some(0usize)));
            }
        }
    }
}

} // verus!

verus! {

impl PageTable {
    /// A table with a fresh, empty root frame taken from `fa`.
    pub fn new(mem: &PhysMem, fa: &mut StackFrameAllocator) -> (r: Self)
        requires
            frames_backed(*mem, old(fa)@),
            old(fa)@.free_count() >= 1,
        ensures
            r.inv(*mem, final(fa)@),
            r.mapping(*mem) == Map::<(int, int, int), usize>::empty(),
            final(fa)@ == old(fa)@.after_alloc(),
            old(fa)@.alloc_result() == Some(r.root()),
    {
        let frame = fa.allocate().unwrap();
        let ghost f = frame.0;
        let mut frames: Vec<FrameTracker> = Vec::new();
        frames.push(FrameTracker::new(frame));
        let pt = PageTable {
            root_ppn: frame,
            frames,
            nodes: Ghost(Map::<usize, (int, usize, int)>::empty().insert(frame.0, (0int, 0usize, 0int))),
        };
        proof {
            let n = pt.nodes@;
            assert(mem.holds(f as int) && mem.zeroed(f as int));
            lemma_zero_invalid();
            assert forall|p: usize, i: int|
                #![trigger n.contains_key(p), mem.word(p as int, i)]
                n.contains_key(p) && n[p].0 < 2 && 0 <= i < 512 && pte_valid(mem.word(p as int, i))
                    implies n.contains_key(pte_target(mem.word(p as int, i))) && n[pte_target(
                mem.word(p as int, i),
            )] == (n[p].0 + 1, p, i) by {
                assert(p == f);
                assert(mem.word(p as int, i) == 0);
            }
            assert forall|p: usize|
                #![trigger n.contains_key(p)]
                n.contains_key(p) implies pt.frames@.contains(FrameTracker { ppn: PhysPageNum(p) }) by {
                assert(pt.frames@[0] == FrameTracker { ppn: PhysPageNum(f) });
            }
            assert(pt.wf(*mem));
            assert forall|p: usize| #[trigger] pt.table_frames().contains(p) implies !fa@.is_free(
                p as int,
            ) by {
                assert(p == f);
            }
            assert(pt.mapping(*mem) =~= Map::<(int, int, int), usize>::empty()) by {
                assert forall|k: (int, int, int)| !#[trigger] pt.mapping(*mem).contains_key(k) by {
                    if key_ok(k) {
                        assert(mem.word(f as int, k.0) == 0);
                    }
                }
            }
        }
        pt
    }

    /// Follows entry `i` of table frame `p` (level 0 or 1) down one level,
    /// installing a fresh cleared frame from `fa` when the entry is invalid.
    fn ensure_child(&mut self, mem: &mut PhysMem, fa: &mut StackFrameAllocator, p: usize, i: usize) -> (r: usize)
        requires
            old(self).inv(*old(mem), old(fa)@),
            old(self).nodes@.contains_key(p),
            old(self).nodes@[p].0 < 2,
            i < 512,
            !pte_valid(old(mem).word(p as int, i as int)) ==> old(fa)@.free_count() >= 1,
        ensures
            final(self).inv(*final(mem), final(fa)@),
            final(self).root_ppn == old(self).root_ppn,
            final(self).mapping(*final(mem)) == old(self).mapping(*old(mem)),
            final(self).nodes@.contains_key(r),
            final(self).nodes@[r] == (old(self).nodes@[p].0 + 1, p, i as int),
            installed(old(mem).word(p as int, i as int), final(mem).word(p as int, i as int)),
            pte_target(final(mem).word(p as int, i as int)) == r,
            !pte_valid(old(mem).word(p as int, i as int)) ==> old(fa)@.is_free(r as int)
                && !old(self).table_frames().contains(r),
            forall|q: int| #[trigger] final(fa)@.is_free(q) ==> old(fa)@.is_free(q),
            forall|q: int, j: int|
                #![trigger final(mem).word(q, j)]
                final(mem).holds(q) && 0 <= j < 512 && !(q == p && j == i) ==> final(mem).word(q, j)
                    == old(mem).word(q, j),
            forall|x: usize|
                #[trigger] old(self).nodes@.contains_key(x) ==> final(self).nodes@.contains_key(x)
                    && final(self).nodes@[x] == old(self).nodes@[x],
            forall|x: usize|
                #[trigger] final(self).nodes@.contains_key(x) && !old(self).nodes@.contains_key(x)
                    ==> old(fa)@.is_free(x as int),
            same_outside(*old(mem), *final(mem), old(self).table_frames()),
            pte_valid(old(mem).word(p as int, i as int)) ==> *final(mem) == *old(mem)
                && final(fa)@ == old(fa)@ && r == pte_target(old(mem).word(p as int, i as int)),
            !pte_valid(old(mem).word(p as int, i as int)) ==> final(fa)@ == old(fa)@.after_alloc()
                && final(mem).zeroed(r as int) && final(fa)@.free_count() == old(fa)@.free_count()
                - 1,
            forall|k: (int, int, int)|
                key_ok(k) ==> #[trigger] walk(*final(mem), old(self).root(), k) == walk(
                    *old(mem),
                    old(self).root(),
                    k,
                ) || (walk(*old(mem), old(self).root(), k) is None && walk(
                    *final(mem),
                    old(self).root(),
                    k,
                ) == Some(0usize)),
    {
        proof {
            assert(self.nodes@.contains_key(p));
        }
        let pte = PageTableEntry { bits: mem.read(p, i) };
        if !pte.is_valid() {
            let ghost pt0 = *self;
            let ghost m0 = *mem;
            let ghost fa0 = fa@;
            let frame = fa.allocate().unwrap();
            let e = PageTableEntry::new(frame, PTEFlags::V());
            mem.write(p, i, e.bits);
            self.frames.push(FrameTracker::new(frame));
            self.nodes = Ghost(self.nodes@.insert(frame.0, (self.nodes@[p].0 + 1, p, i as int)));
            proof {
                assert(m0.holds(frame.0 as int) && m0.zeroed(frame.0 as int));
                PageTable::lemma_install(pt0, *self, m0, *mem, fa0, fa@, p, i as int, frame.0);
                assert forall|j: int| 0 <= j < 512 implies #[trigger] mem.word(frame.0 as int, j) == 0 by {
                    assert(m0.holds(p as int));
                    assert(frame.0 != p) by {
                        assert(pt0.table_frames().contains(p));
                    }
                    assert(m0.word(frame.0 as int, j) == 0);
                }
                assert(m0.base() + m0.count() <= ppn_limit());
                assert(frame.0 * 1024 + 1024 <= usize::MAX) by (nonlinear_arith)
                    requires
                        frame.0 < m0.base() + m0.count(),
                        (m0.base() + m0.count()) * 1024 <= usize::MAX,
                ;
                lemma_pte_roundtrip(frame.0, 1u8);
                assert(!pt0.nodes@.contains_key(frame.0)) by {
                    if pt0.nodes@.contains_key(frame.0) {
                        assert(pt0.table_frames().contains(frame.0));
                    }
                }
            }
        }
        let pte = PageTableEntry { bits: mem.read(p, i) };
        proof {
            if pte_valid(old(mem).word(p as int, i as int)) {
                let n = self.nodes@;
                assert(n.contains_key(p));
                assert(n.contains_key(pte_target(mem.word(p as int, i as int))));
            }
        }
        pte.ppn().0
    }

    /// The frame and index of the leaf entry for `vpn`, creating the missing
    /// intermediate tables with frames from `fa`.
    fn find_pte_create(&mut self, mem: &mut PhysMem, fa: &mut StackFrameAllocator, vpn: VirtPageNum) -> (r: (PhysPageNum, usize))
        requires
            old(self).inv(*old(mem), old(fa)@),
            old(fa)@.free_count() >= frames_needed(*old(mem), old(self).root(), vpn_key(vpn)),
        ensures
            final(self).inv(*final(mem), final(fa)@),
            final(self).root_ppn == old(self).root_ppn,
            final(self).mapping(*final(mem)) == old(self).mapping(*old(mem)),
            final(self).nodes@.contains_key(r.0.0),
            final(self).nodes@[r.0.0].0 == 2,
            final(self).key_of(r.0.0, r.1 as int) == vpn_key(vpn),
            ({
                let root = old(self).root() as int;
                let k = vpn_key(vpn);
                let t1 = pte_target(final(mem).word(root, k.0));
                &&& installed(old(mem).word(root, k.0), final(mem).word(root, k.0))
                &&& installed(old(mem).word(t1 as int, k.1), final(mem).word(t1 as int, k.1))
                &&& pte_target(final(mem).word(t1 as int, k.1)) == r.0.0
                &&& r.1 == k.2
                &&& final(self).nodes@.contains_key(t1)
                &&& final(self).nodes@[t1].0 == 1
                &&& !pte_valid(old(mem).word(root, k.0)) ==> old(fa)@.is_free(t1 as int)
                    && !old(self).table_frames().contains(t1)
                &&& !pte_valid(old(mem).word(t1 as int, k.1)) ==> old(fa)@.is_free(r.0.0 as int)
                    && !old(self).table_frames().contains(r.0.0)
                &&& forall|q: int, j: int|
                    #![trigger final(mem).word(q, j)]
                    final(mem).holds(q) && 0 <= j < 512 && !(q == root && j == k.0) && !(q == t1
                        && j == k.1) ==> final(mem).word(q, j) == old(mem).word(q, j)
            }),
            old(self).table_frames().subset_of(final(self).table_frames()),
            forall|x: usize|
                #[trigger] final(self).table_frames().contains(x) && !old(self).table_frames().contains(x)
                    ==> old(fa)@.is_free(x as int),
            same_outside(*old(mem), *final(mem), final(self).table_frames()),
            forall|q: int| #[trigger] final(fa)@.is_free(q) ==> old(fa)@.is_free(q),
            final(fa)@.free_count() == old(fa)@.free_count() - frames_needed(
                *old(mem),
                old(self).root(),
                vpn_key(vpn),
            ),
    {
        let idxs = vpn.indexes();
        let ghost k = vpn_key(vpn);
        let ghost m0 = *mem;
        let root = self.root_ppn.0;
        proof {
            assert(self.nodes@.contains_key(root));
        }
        let p1 = self.ensure_child(mem, fa, root, idxs[0]);
        let ghost m1 = *mem;
        proof {
            if !pte_valid(m0.word(root as int, k.0)) {
                lemma_zero_invalid();
                assert(m1.word(p1 as int, k.1) == 0);
            } else {
                assert(m1 == m0);
            }
        }
        let ghost fa1 = fa@;
        let ghost pt1 = *self;
        let p2 = self.ensure_child(mem, fa, p1, idxs[1]);
        proof {
            let m2 = *mem;
            assert(pt1.nodes@[p1].0 == 1);
            assert(pt1.nodes@[root].0 == 0);
            assert(p1 != root);
            assert(m2.word(root as int, k.0) == m1.word(root as int, k.0)) by {
                assert(m1.holds(root as int));
            }
            if !pte_valid(m0.word(root as int, k.0)) {
                assert(m0.holds(p1 as int) && m0.zeroed(p1 as int));
                assert(m0.word(p1 as int, k.1) == 0);
                lemma_zero_invalid();
                assert(m1.word(p1 as int, k.1) == 0);
            } else {
                assert(m1 == m0);
            }
            assert forall|q: int, j: int|
                #![trigger m2.word(q, j)]
                m2.holds(q) && 0 <= j < 512 && !(q == root && j == k.0) && !(q == p1 && j == k.1)
                    implies m2.word(q, j) == m0.word(q, j) by {
                assert(m1.word(q, j) == m0.word(q, j));
            }
        }
        (PhysPageNum(p2), idxs[2])
    }

    /// The frame and index of the leaf entry for `vpn`, or `None` when the
    /// walk meets an invalid entry first.
    fn find_pte(&self, mem: &PhysMem, vpn: VirtPageNum) -> (r: Option<(PhysPageNum, usize)>)
        requires
            readable(*mem, self.root()),
        ensures
            r is None <==> self.lookup(*mem, vpn) is None,
            r matches Some(s) ==> mem.holds(s.0.0 as int) && s.1 == vpn_key(vpn).2 && self.lookup(
                *mem,
                vpn,
            ) == Some(mem.word(s.0.0 as int, s.1 as int)) && s.0.0 == pte_target(
                mem.word(pte_target(mem.word(self.root() as int, vpn_key(vpn).0)) as int, vpn_key(vpn).1),
            ),
    {
        let idxs = vpn.indexes();
        let root = self.root_ppn.0;
        let e0 = PageTableEntry { bits: mem.read(root, idxs[0]) };
        if !e0.is_valid() {
            return None;
        }
        let p1 = e0.ppn().0;
        let e1 = PageTableEntry { bits: mem.read(p1, idxs[1]) };
        if !e1.is_valid() {
            return None;
        }
        Some((e1.ppn(), idxs[2]))
    }

    /// After `map` has written the words `map_writes` describes, the valid
    /// root and level-1 entries are those from before plus the ones on the
    /// walk to `k`.
    proof fn lemma_map_presence(&self, m0: PhysMem, m1: PhysMem, fa: FrameAllocView, frames: Set<usize>, k: (int, int, int), leaf: usize)
        requires
            self.wf(m1),
            frames_backed(m0, fa),
            key_ok(k),
            map_writes(m0, m1, fa, frames, self.root(), k, leaf),
        ensures
            l0_present(m1, self.root()) == l0_present(m0, self.root()).insert(k.0),
            l1_present(m1, self.root()) == l1_present(m0, self.root()).insert((k.0, k.1)),
    {
        let n = self.nodes@;
        let root = self.root();
        let t1 = pte_target(m1.word(root as int, k.0));
        let t2 = pte_target(m1.word(t1 as int, k.1));
        assert(1u8 & 1u8 == 1u8) by (bit_vector);
        lemma_encode_valid(t1, 1u8);
        lemma_encode_valid(t2, 1u8);
        assert(pte_valid(m1.word(root as int, k.0)));
        assert(n.contains_key(root));
        assert(n.contains_key(t1) && n[t1] == (1int, root, k.0));
        assert(pte_valid(m1.word(t1 as int, k.1)));
        assert(n.contains_key(t2) && n[t2] == (2int, t1, k.1));
        assert(m1.holds(root as int));
        assert(t1 != root && t2 != root && t2 != t1);
        assert(l0_present(m1, root) =~= l0_present(m0, root).insert(k.0)) by {
            assert forall|i: int| 0 <= i < 512 && i != k.0 implies m1.word(root as int, i) == m0.word(
                root as int,
                i,
            ) by {}
        }
        assert forall|x: (int, int)| #[trigger] l1_present(m1, root).contains(x) == l1_present(m0, root).insert(
            (k.0, k.1),
        ).contains(x) by {
            if 0 <= x.0 < 512 && 0 <= x.1 < 512 {
                if x.0 == k.0 {
                    if x.1 != k.1 {
                        assert(m1.holds(t1 as int));
                        assert(m1.word(t1 as int, x.1) == m0.word(t1 as int, x.1));
                        if !pte_valid(m0.word(root as int, k.0)) {
                            assert(fa.is_free(t1 as int));
                            assert(m0.zeroed(t1 as int));
                            assert(m0.word(t1 as int, x.1) == 0);
                            lemma_zero_invalid();
                        }
                    }
                } else {
                    assert(m1.word(root as int, x.0) == m0.word(root as int, x.0));
                    let e = m1.word(root as int, x.0);
                    if pte_valid(e) {
                        let t = pte_target(e);
                        assert(n.contains_key(t) && n[t] == (1int, root, x.0));
                        assert(m1.holds(t as int));
                        assert(t != t1 && t != t2);
                        assert(m1.word(t as int, x.1) == m0.word(t as int, x.1));
                    }
                }
            }
        }
        assert(l1_present(m1, root) =~= l1_present(m0, root).insert((k.0, k.1)));
    }

    /// Maps `vpn` to frame `ppn` with `flags` (and the valid flag); `vpn`
    /// must not be mapped yet. Missing intermediate tables are created with
    /// frames from `fa`.
    pub fn map(&mut self, mem: &mut PhysMem, fa: &mut StackFrameAllocator, vpn: VirtPageNum, ppn: PhysPageNum, flags: PTEFlags)
        requires
            old(self).inv(*old(mem), old(fa)@),
            old(fa)@.free_count() >= frames_needed(*old(mem), old(self).root(), vpn_key(vpn)),
            !old(self).mapping(*old(mem)).contains_key(vpn_key(vpn)),
        ensures
            final(self).inv(*final(mem), final(fa)@),
            final(self).root() == old(self).root(),
            final(self).mapping(*final(mem)) == old(self).mapping(*old(mem)).insert(
                vpn_key(vpn),
                pte_encode(ppn.0, flags@ | 1u8),
            ),
            map_writes(*old(mem), *final(mem), old(fa)@, old(self).table_frames(), old(self).root(), vpn_key(vpn), pte_encode(ppn.0, flags@ | 1u8)),
            l0_present(*final(mem), final(self).root()) == l0_present(*old(mem), old(self).root()).insert(vpn_key(vpn).0),
            l1_present(*final(mem), final(self).root()) == l1_present(*old(mem), old(self).root()).insert((vpn_key(vpn).0, vpn_key(vpn).1)),
            old(self).table_frames().subset_of(final(self).table_frames()),
            forall|x: usize|
                #[trigger] final(self).table_frames().contains(x) && !old(self).table_frames().contains(x)
                    ==> old(fa)@.is_free(x as int),
            same_outside(*old(mem), *final(mem), final(self).table_frames()),
            forall|q: int| #[trigger] final(fa)@.is_free(q) ==> old(fa)@.is_free(q),
            final(fa)@.free_count() == old(fa)@.free_count() - frames_needed(
                *old(mem),
                old(self).root(),
                vpn_key(vpn),
            ),
    {
        let (p2, i2) = self.find_pte_create(mem, fa, vpn);
        let ghost m0 = *mem;
        let ghost k = vpn_key(vpn);
        let pte = PageTableEntry::new(ppn, flags.union(PTEFlags::V()));
        proof {
            assert(self.nodes@.contains_key(p2.0));
            assert(m0.holds(p2.0 as int));
            let fb: u8 = flags@;
            assert((fb | 1u8) & 1u8 == 1u8) by (bit_vector);
            lemma_encode_valid(ppn.0, flags@ | 1u8);
        }
        mem.write(p2.0, i2, pte.bits);
        proof {
            let m1 = *mem;
            let root = self.root();
            let t1 = pte_target(m0.word(root as int, k.0));
            assert(self.nodes@[t1].0 == 1);
            assert(self.nodes@[root].0 == 0);
            assert(p2.0 != root && p2.0 != t1);
            assert(m1.word(root as int, k.0) == m0.word(root as int, k.0)) by {
                assert(m0.holds(root as int));
            }
            assert(m1.word(t1 as int, k.1) == m0.word(t1 as int, k.1)) by {
                assert(m0.holds(t1 as int));
            }
            self.lemma_write_leaf(m0, *mem, p2.0, i2 as int, pte.bits);
            lemma_backed_after_write(m0, *mem, fa@, self.table_frames());
            let m1 = *mem;
            let root = self.root();
            assert(self.mapping(m1) =~= self.mapping(m0).insert(k, pte.bits)) by {
                assert forall|kk: (int, int, int)| #[trigger] self.mapping(m1).contains_key(kk)
                    == self.mapping(m0).insert(k, pte.bits).contains_key(kk) by {
                    if key_ok(kk) && kk != k {
                        assert(walk(m1, root, kk) == walk(m0, root, kk));
                    }
                }
                assert forall|kk: (int, int, int)| #[trigger] self.mapping(m1).contains_key(kk)
                    implies self.mapping(m1)[kk] == self.mapping(m0).insert(k, pte.bits)[kk] by {
                    if kk != k {
                        assert(walk(m1, root, kk) == walk(m0, root, kk));
                    }
                }
            }
            lemma_lookup_mapping(self, m1, vpn);
            assert(map_writes(*old(mem), m1, old(fa)@, old(self).table_frames(), root, k, pte.bits));
            self.lemma_map_presence(*old(mem), m1, old(fa)@, old(self).table_frames(), k, pte.bits);
        }
    }

    /// A table reads only its own frames: memory that agrees with `m1` on
    /// them gives the same well-formed table and the same mapping.
    pub proof fn lemma_tables_unchanged(&self, m1: PhysMem, m2: PhysMem)
        requires
            self.wf(m1),
            m2.base() == m1.base(),
            m2.count() == m1.count(),
            forall|p: usize, j: int|
                #![trigger m2.word(p as int, j)]
                self.table_frames().contains(p) && m2.holds(p as int) && 0 <= j < 512 ==> m2.word(p as int, j)
                    == m1.word(p as int, j),
        ensures
            self.wf(m2),
            self.mapping(m2) == self.mapping(m1),
    {
        let n = self.nodes@;
        let root = self.root();
        assert forall|p: usize, i: int|
            #![trigger n.contains_key(p), m2.word(p as int, i)]
            n.contains_key(p) && n[p].0 < 2 && 0 <= i < 512 && pte_valid(m2.word(p as int, i))
                implies n.contains_key(pte_target(m2.word(p as int, i))) && n[pte_target(
                m2.word(p as int, i),
            )] == (n[p].0 + 1, p, i) by {
            assert(m2.word(p as int, i) == m1.word(p as int, i));
            assert(n.contains_key(pte_target(m1.word(p as int, i))));
        }
        assert forall|p: usize| #![trigger n[p]] n.contains_key(p) && n[p].0 > 0 implies {
            let q = n[p].1;
            let i = n[p].2;
            &&& n.contains_key(q)
            &&& n[q].0 == n[p].0 - 1
            &&& 0 <= i < 512
            &&& pte_valid(m2.word(q as int, i))
            &&& pte_target(m2.word(q as int, i)) == p
        } by {
            let q = n[p].1;
            let i = n[p].2;
            assert(n.contains_key(q) && 0 <= i < 512);
            assert(m2.word(q as int, i) == m1.word(q as int, i));
        }
        assert(self.wf(m2));
        assert forall|k: (int, int, int)| key_ok(k) implies #[trigger] walk(m2, root, k) == walk(m1, root, k) by {
            assert(n.contains_key(root));
            assert(m2.word(root as int, k.0) == m1.word(root as int, k.0));
            let e0 = m1.word(root as int, k.0);
            if pte_valid(e0) {
                let t1 = pte_target(e0);
                assert(n.contains_key(t1) && n[t1].0 == 1);
                assert(m2.word(t1 as int, k.1) == m1.word(t1 as int, k.1));
                let e1 = m1.word(t1 as int, k.1);
                if pte_valid(e1) {
                    let t2 = pte_target(e1);
                    assert(n.contains_key(t2));
                    assert(m2.word(t2 as int, k.2) == m1.word(t2 as int, k.2));
                }
            }
        }
        assert(self.mapping(m2) =~= self.mapping(m1));
    }

    /// The root frame.
    pub fn root_frame(&self) -> (r: usize)
        ensures
            r == self.root(),
    {
        self.root_ppn.0
    }

    /// Whether frame `p` is one of the table's own frames.
    pub fn owns_frame(&self, mem: &PhysMem, p: usize) -> (r: bool)
        requires
            self.wf(*mem),
        ensures
            r == self.table_frames().contains(p),
    {
        let mut k: usize = 0;
        while k < self.frames.len()
            invariant
                self.wf(*mem),
                k <= self.frames@.len(),
                forall|j: int| 0 <= j < k ==> self.frames@[j].ppn.0 != p,
            decreases self.frames@.len() - k,
        {
            if self.frames[k].ppn.0 == p {
                proof {
                    assert(self.nodes@.contains_key(self.frames@[k as int].ppn.0));
                }
                return true;
            }
            k = k + 1;
        }
        proof {
            if self.nodes@.contains_key(p) {
                assert(self.frames@.contains(FrameTracker { ppn: PhysPageNum(p) }));
                let j = choose|j: int| 0 <= j < self.frames@.len() && self.frames@[j] == FrameTracker { ppn: PhysPageNum(p) };
                assert(self.frames@[j].ppn.0 == p);
            }
        }
        false
    }

    /// Clears the entry of `vpn`, which must be mapped.
    pub fn unmap(&mut self, mem: &mut PhysMem, vpn: VirtPageNum)
        requires
            old(self).wf(*old(mem)),
            old(self).mapping(*old(mem)).contains_key(vpn_key(vpn)),
        ensures
            final(self).wf(*final(mem)),
            final(self).root() == old(self).root(),
            final(self).table_frames() == old(self).table_frames(),
            same_outside(*old(mem), *final(mem), old(self).table_frames()),
            final(self).mapping(*final(mem)) == old(self).mapping(*old(mem)).remove(vpn_key(vpn)),
    {
        proof {
            self.lemma_wf_readable(*mem);
        }
        let ghost m0 = *mem;
        let ghost k = vpn_key(vpn);
        let (p2, i2) = self.find_pte(mem, vpn).unwrap();
        proof {
            self.lemma_walk_nodes(m0, k);
            assert(self.nodes@.contains_key(p2.0));
            lemma_zero_invalid();
        }
        mem.write(p2.0, i2, PageTableEntry::empty().bits);
        proof {
            let n = self.nodes@;
            let t0 = pte_target(m0.word(self.root() as int, k.0));
            assert(n[p2.0] == (2int, t0, k.1));
            assert(n[t0] == (1int, self.root(), k.0));
            assert(self.key_of(p2.0, i2 as int) == k);
            self.lemma_write_leaf(m0, *mem, p2.0, i2 as int, 0);
            let m1 = *mem;
            let root = self.root();
            assert(self.mapping(m1) =~= self.mapping(m0).remove(k)) by {
                assert forall|kk: (int, int, int)| #[trigger] self.mapping(m1).contains_key(kk)
                    == self.mapping(m0).remove(k).contains_key(kk) by {
                    if key_ok(kk) && kk != k {
                        assert(walk(m1, root, kk) == walk(m0, root, kk));
                    }
                }
                assert forall|kk: (int, int, int)| #[trigger] self.mapping(m1).contains_key(kk)
                    implies self.mapping(m1)[kk] == self.mapping(m0).remove(k)[kk] by {
                    assert(walk(m1, root, kk) == walk(m0, root, kk));
                }
            }
            assert forall|p: int, j: int|
                #![trigger m1.word(p, j)]
                m1.holds(p) && 0 <= p && !self.table_frames().contains(p as usize) && 0 <= j < 512
                    implies m1.word(p, j) == m0.word(p, j) by {
                assert(self.table_frames().contains(p2.0));
            }
        }
    }

    /// The leaf entry for `vpn`, or `None` when the walk meets an invalid
    /// entry before the leaf level.
    pub fn translate(&self, mem: &PhysMem, vpn: VirtPageNum) -> (r: Option<PageTableEntry>)
        requires
            readable(*mem, self.root()),
        ensures
            r == match self.lookup(*mem, vpn) {
                Some(b) => Some(PageTableEntry { bits: b }),
                None => None::<PageTableEntry>,
            },
    {
        match self.find_pte(mem, vpn) {
            Some((p, i)) => Some(PageTableEntry { bits: mem.read(p.0, i) }),
            None => None,
        }
    }

    /// A view of the table whose root frame is named in the `satp` value
    /// `satp` (its lower 44 bits); it owns no frames.
    pub fn from_token(satp: usize) -> (r: Self)
        ensures
            r.root() == satp as int % ppn_limit(),
            r.table_frames() == Set::<usize>::empty(),
    {
        let root = ((satp as u64) & 0xfff_ffff_ffffu64) as usize;
        proof {
            let s = satp as u64;
            assert(s & 0xfff_ffff_ffffu64 == s % 0x1000_0000_0000) by (bit_vector);
        }
        PageTable {
            root_ppn: PhysPageNum(root),
            frames: Vec::new(),
            nodes: Ghost(Map::empty()),
        }
    }

    /// The `satp` value selecting this table in SV39 mode: mode 8 in bits
    /// 63..60 and the root frame in the lower bits.
    pub fn token(&self) -> (r: usize)
        ensures
            r == (#[verifier::truncate] ((0x8000_0000_0000_0000u64 | (self.root() as u64)) as usize)),
    {
        proof {
            assert(8u64 << 60u64 == 0x8000_0000_0000_0000u64) by (bit_vector);
        }
        #[verifier::truncate]
        ((((8u64) << 60u64) | (self.root_ppn.0 as u64)) as usize)
    }
}

/// Reading the root frame back out of a table's `satp` value gives the
/// table's root, for every root frame below 2^44.
pub proof fn lemma_token_roundtrip(root: usize)
    requires
        root < ppn_limit(),
    ensures
        (#[verifier::truncate] ((0x8000_0000_0000_0000u64 | (root as u64)) as usize)) as int
            % ppn_limit() == root,
{
    let r = root as u64;
    assert(((0x8000_0000_0000_0000u64 | r) as usize) as u64 % 0x1000_0000_0000u64 == r)
        by (bit_vector)
        requires
            r == root as u64,
            root < 0x1000_0000_0000u64,
    ;
}

} // verus!

verus! {

/// The walk for `vpn` ends at a valid leaf exactly when `vpn` is in the
/// table's mapping, and the leaf is then the mapped entry: what `translate`
/// returns for a mapped page is what `map` stored.
pub proof fn lemma_lookup_mapping(pt: &PageTable, mem: PhysMem, vpn: VirtPageNum)
    ensures
        key_ok(vpn_key(vpn)),
        pt.mapping(mem).contains_key(vpn_key(vpn)) <==> (pt.lookup(mem, vpn) matches Some(b)
            && pte_valid(b)),
        pt.mapping(mem).contains_key(vpn_key(vpn)) ==> pt.lookup(mem, vpn) == Some(
            pt.mapping(mem)[vpn_key(vpn)],
        ),
{
}

/// A table stays consistent with an allocator that can hand out fewer
/// frames than before (for instance after an allocation).
pub proof fn lemma_inv_fewer_free(pt: &PageTable, mem: PhysMem, fa0: FrameAllocView, fa1: FrameAllocView)
    requires
        pt.inv(mem, fa0),
        fa1.wf(),
        forall|p: int| #[trigger] fa1.is_free(p) ==> fa0.is_free(p),
    ensures
        pt.inv(mem, fa1),
{
    assert forall|p: usize| #[trigger] pt.table_frames().contains(p) implies !fa1.is_free(p as int) by {
        assert(!fa0.is_free(p as int));
    }
    assert forall|p: int| #[trigger] fa1.is_free(p) implies mem.holds(p) && mem.zeroed(p) by {
        assert(fa0.is_free(p));
    }
}

/// Distinct page numbers below 2^27 have distinct index triples.
pub proof fn lemma_vpn_key_injective(a: usize, b: usize)
    requires
        a < 0x800_0000,
        b < 0x800_0000,
        vpn_key(VirtPageNum(a)) == vpn_key(VirtPageNum(b)),
    ensures
        a == b,
{
    let x = a as u64;
    let y = b as u64;
    assert(x < 0x800_0000 ==> x == ((x / 0x40000) % 512) * 0x40000 + ((x / 512) % 512) * 512 + x
        % 512) by (bit_vector);
    assert(y < 0x800_0000 ==> y == ((y / 0x40000) % 512) * 0x40000 + ((y / 512) % 512) * 512 + y
        % 512) by (bit_vector);
}

/// The first virtual address of piece `k` of the buffer `[start, end)`
/// cut at page boundaries.
pub open spec fn piece_start(start: int, k: int) -> int {
    if k == 0 {
        start
    } else {
        (start / 4096 + k) * 4096
    }
}

/// One past the last virtual address of piece `k` of the buffer
/// `[start, end)` cut at page boundaries.
pub open spec fn piece_end(start: int, end: int, k: int) -> int {
    if (start / 4096 + k + 1) * 4096 < end {
        (start / 4096 + k + 1) * 4096
    } else {
        end
    }
}

/// The pieces, one per page, that the `len` bytes at virtual address `ptr`
/// of the address space with `satp` value `token` occupy in physical
/// memory: for each page, in order, its frame and the byte range inside
/// the frame (the end 4096 standing for the end of the frame). Every page
/// of the buffer must be reachable in the table.
pub fn translated_byte_buffer(mem: &PhysMem, token: usize, ptr: usize, len: usize) -> (r: Vec<(PhysPageNum, usize, usize)>)
    requires
        ptr + len <= va_half(),
        ptr + len + 4096 <= usize::MAX,
        readable(*mem, (token as int % ppn_limit()) as usize),
        forall|v: int|
            ptr / 4096 <= v < crate::mm::address::page_ceil(ptr + len) ==> #[trigger] walk(
                *mem,
                (token as int % ppn_limit()) as usize,
                vpn_key(VirtPageNum(v as usize)),
            ) is Some,
    ensures
        len == 0 ==> r@.len() == 0,
        len > 0 ==> r@.len() == crate::mm::address::page_ceil(ptr + len) - ptr / 4096,
        forall|k: int|
            0 <= k < r@.len() ==> {
                let lo = piece_start(ptr as int, k);
                let hi = piece_end(ptr as int, ptr + len, k);
                &&& (#[trigger] r@[k]).0.0 == pte_target(
                    walk(
                        *mem,
                        (token as int % ppn_limit()) as usize,
                        vpn_key(VirtPageNum((ptr / 4096 + k) as usize)),
                    ).unwrap(),
                )
                &&& r@[k].1 == lo % 4096
                &&& r@[k].2 == if hi % 4096 == 0 { 4096 } else { hi % 4096 }
                &&& lo < hi
            },
{
    let page_table = PageTable::from_token(token);
    let mut start = ptr;
    let end = ptr + len;
    let mut v: Vec<(PhysPageNum, usize, usize)> = Vec::new();
    let ghost s = ptr as int / 4096;
    while start < end
        invariant
            end == ptr + len,
            end <= va_half(),
            end + 4096 <= usize::MAX,
            v@.len() > 0 ==> len > 0 && (s + v@.len() - 1) * 4096 < end,
            page_table.root() == (token as int % ppn_limit()) as usize,
            readable(*mem, page_table.root()),
            forall|u: int|
                ptr / 4096 <= u < crate::mm::address::page_ceil(ptr + len) ==> #[trigger] walk(
                    *mem,
                    (token as int % ppn_limit()) as usize,
                    vpn_key(VirtPageNum(u as usize)),
                ) is Some,
            start == if v@.len() == 0 { ptr as int } else { piece_end(ptr as int, end as int, v@.len() - 1) },
            v@.len() > 0 ==> start == end || start == (s + v@.len()) * 4096,
            start <= end,
            start / 4096 == s + v@.len() || start == end,
            forall|k: int|
                0 <= k < v@.len() ==> {
                    let lo = piece_start(ptr as int, k);
                    let hi = piece_end(ptr as int, ptr + len, k);
                    &&& (#[trigger] v@[k]).0.0 == pte_target(
                        walk(
                            *mem,
                            (token as int % ppn_limit()) as usize,
                            vpn_key(VirtPageNum((ptr / 4096 + k) as usize)),
                        ).unwrap(),
                    )
                    &&& v@[k].1 == lo % 4096
                    &&& v@[k].2 == if hi % 4096 == 0 { 4096 } else { hi % 4096 }
                    &&& lo < hi
                },
        decreases end - start,
    {
        let start_va = VirtAddr::from(start);
        let mut vpn = start_va.floor();
        proof {
            assert(start as int % 0x80_0000_0000 == start);
            assert(vpn.0 == s + v@.len());
            assert(vpn.0 < crate::mm::address::page_ceil(ptr + len));
            assert(walk(*mem, page_table.root(), vpn_key(VirtPageNum((vpn.0 as int) as usize))) is Some);
        }
        let ppn = page_table.translate(mem, vpn).unwrap().ppn();
        vpn.step();
        proof {
            assert(vpn.0 * 4096 <= end + 4096);
            crate::mm::address::lemma_page_start(vpn.0);
        }
        let mut end_va: VirtAddr = VirtAddr::from(vpn);
        let limit = VirtAddr::from(end);
        proof {
            assert(end as int % 0x80_0000_0000 == end);
        }
        if limit.0 < end_va.0 {
            end_va = limit;
        }
        let lo = start_va.page_offset();
        let hi = if end_va.page_offset() == 0 { 4096 } else { end_va.page_offset() };
        v.push((ppn, lo, hi));
        if end_va.0 >= end {
            // The last piece: the walk is over.
            start = end;
        } else {
            proof {
                crate::mm::address::lemma_virt_addr_to_usize_small(end_va);
            }
            start = usize::from(end_va);
        }
    }
    proof {
        if v@.len() > 0 {
            let n = v@.len() as int;
            assert((s + n) * 4096 >= end);
            assert(crate::mm::address::page_ceil(ptr + len) == s + n);
        }
    }
    v
}

/// Unmapping a page that `map` has just mapped gives back the mapping as
/// it was before.
pub proof fn lemma_unmap_undoes_map(m: Map<(int, int, int), usize>, k: (int, int, int), b: usize)
    requires
        !m.contains_key(k),
    ensures
        m.insert(k, b).remove(k) == m,
{
    assert(m.insert(k, b).remove(k) =~= m);
}

/// Whether an entry word points to a next-level table (readable,
/// writable and executable flags all clear).
pub open spec fn points_to_table(b: usize) -> bool {
    pte_flag_bits(b) & 2u8 == 0u8 && pte_flag_bits(b) & 4u8 == 0u8 && pte_flag_bits(b) & 8u8 == 0u8
}

/// The lines a dump of table frame `p` at `level` prints from entry `i`
/// on: for each valid entry its (level, index, entry word), followed by
/// the dump of the next-level table it points to (levels 0 and 1 only).
pub open spec fn dump_lines(mem: PhysMem, p: usize, level: int, i: int) -> Seq<(usize, usize, usize)>
    decreases 2 - level, 512 - i,
{
    if i < 0 || i >= 512 || level < 0 || level > 2 {
        Seq::empty()
    } else {
        let e = mem.word(p as int, i);
        let here = if pte_valid(e) {
            seq![(level as usize, i as usize, e)] + if level < 2 && points_to_table(e) {
                dump_lines(mem, pte_target(e), level + 1, 0)
            } else {
                Seq::empty()
            }
        } else {
            Seq::empty()
        };
        here + dump_lines(mem, p, level, i + 1)
    }
}

/// Every frame a dump of table frame `p` at `level` reads is held.
pub open spec fn dump_readable(mem: PhysMem, p: usize, level: int) -> bool {
    if level == 0 {
        readable(mem, p)
    } else if level == 1 {
        &&& mem.holds(p as int)
        &&& forall|j: int|
            #![trigger mem.word(p as int, j)]
            0 <= j < 512 && pte_valid(mem.word(p as int, j)) ==> mem.holds(
                pte_target(mem.word(p as int, j)) as int,
            )
    } else {
        level == 2 && mem.holds(p as int)
    }
}

/// Appends the dump of table frame `ppn` at `level` to `out`.
fn vmprint_frame(mem: &PhysMem, ppn: usize, level: usize, out: &mut Vec<(usize, usize, usize)>)
    requires
        level <= 2,
        dump_readable(*mem, ppn, level as int),
    ensures
        final(out)@ == old(out)@ + dump_lines(*mem, ppn, level as int, 0),
    decreases 2 - level,
{
    let mut i: usize = 0;
    while i < 512
        invariant
            level <= 2,
            dump_readable(*mem, ppn, level as int),
            i <= 512,
            old(out)@ + dump_lines(*mem, ppn, level as int, 0) == out@ + dump_lines(
                *mem,
                ppn,
                level as int,
                i as int,
            ),
        decreases 512 - i,
    {
        let ghost before = out@;
        let e = PageTableEntry { bits: mem.read(ppn, i) };
        if e.is_valid() {
            out.push((level, i, e.bits));
            if level < 2 && !e.writable() && !e.readable() && !e.executable() {
                proof {
                    let t = pte_target(e.bits);
                    assert(mem.holds(t as int));
                }
                vmprint_frame(mem, e.ppn().0, level + 1, out);
            }
        }
        proof {
            assert(out@ + dump_lines(*mem, ppn, level as int, i + 1) =~= before + dump_lines(
                *mem,
                ppn,
                level as int,
                i as int,
            ));
        }
        i = i + 1;
    }
}

proof fn lemma_contains_concat<A>(a: Seq<A>, b: Seq<A>, x: A)
    ensures
        a.contains(x) ==> (a + b).contains(x),
        b.contains(x) ==> (a + b).contains(x),
{
    if a.contains(x) {
        let k = choose|k: int| 0 <= k < a.len() && a[k] == x;
        assert((a + b)[k] == x);
    }
    if b.contains(x) {
        let k = choose|k: int| 0 <= k < b.len() && b[k] == x;
        assert((a + b)[a.len() + k] == x);
    }
}

proof fn lemma_dump_suffix(mem: PhysMem, p: usize, level: int, i: int, j: int, x: (usize, usize, usize))
    requires
        0 <= i <= j,
        dump_lines(mem, p, level, j).contains(x),
    ensures
        dump_lines(mem, p, level, i).contains(x),
    decreases j - i,
{
    if i < j {
        lemma_dump_suffix(mem, p, level, i + 1, j, x);
        if 0 <= level <= 2 && i < 512 {
            let e = mem.word(p as int, i);
            let here = if pte_valid(e) {
                seq![(level as usize, i as usize, e)] + if level < 2 && points_to_table(e) {
                    dump_lines(mem, pte_target(e), level + 1, 0)
                } else {
                    Seq::empty()
                }
            } else {
                Seq::empty()
            };
            lemma_contains_concat(here, dump_lines(mem, p, level, i + 1), x);
        } else {
            assert(dump_lines(mem, p, level, i + 1) =~= Seq::<(usize, usize, usize)>::empty());
        }
    }
}

proof fn lemma_dump_entry(mem: PhysMem, p: usize, level: int, j: int, x: (usize, usize, usize))
    requires
        0 <= level <= 2,
        0 <= j < 512,
        pte_valid(mem.word(p as int, j)),
        x == (level as usize, j as usize, mem.word(p as int, j)) || (level < 2 && points_to_table(
            mem.word(p as int, j),
        ) && dump_lines(mem, pte_target(mem.word(p as int, j)), level + 1, 0).contains(x)),
    ensures
        dump_lines(mem, p, level, 0).contains(x),
{
    let e = mem.word(p as int, j);
    let head = seq![(level as usize, j as usize, e)];
    let sub = if level < 2 && points_to_table(e) {
        dump_lines(mem, pte_target(e), level + 1, 0)
    } else {
        Seq::empty()
    };
    if x == (level as usize, j as usize, e) {
        assert(head[0] == x);
        lemma_contains_concat(head, sub, x);
    } else {
        lemma_contains_concat(head, sub, x);
    }
    lemma_contains_concat(head + sub, dump_lines(mem, p, level, j + 1), x);
    lemma_dump_suffix(mem, p, level, 0, j, x);
}

/// The dump lists nothing but valid entries: every line of the dump of
/// frame `p` at `level` from index `i` on holds a valid entry word, at a
/// level from `level` to 2 and an index below 512.
pub proof fn lemma_dump_only_valid(mem: PhysMem, p: usize, level: int, i: int)
    ensures
        forall|k: int|
            0 <= k < dump_lines(mem, p, level, i).len() ==> {
                let x = #[trigger] dump_lines(mem, p, level, i)[k];
                &&& pte_valid(x.2)
                &&& level <= x.0 <= 2
                &&& x.1 < 512
            },
    decreases 2 - level, 512 - i,
{
    if !(i < 0 || i >= 512 || level < 0 || level > 2) {
        let e = mem.word(p as int, i);
        let sub = if level < 2 && points_to_table(e) {
            dump_lines(mem, pte_target(e), level + 1, 0)
        } else {
            Seq::empty()
        };
        if level < 2 && points_to_table(e) {
            lemma_dump_only_valid(mem, pte_target(e), level + 1, 0);
        }
        lemma_dump_only_valid(mem, p, level, i + 1);
        let here = if pte_valid(e) { seq![(level as usize, i as usize, e)] + sub } else { Seq::empty() };
        let rest = dump_lines(mem, p, level, i + 1);
        assert(dump_lines(mem, p, level, i) == here + rest);
        assert forall|k: int| 0 <= k < (here + rest).len() implies {
            let x = #[trigger] (here + rest)[k];
            &&& pte_valid(x.2)
            &&& level <= x.0 <= 2
            &&& x.1 < 512
        } by {
            if k >= here.len() {
                assert((here + rest)[k] == rest[k - here.len()]);
            } else if k >= 1 {
                assert(here[k] == sub[k - 1]);
            }
        }
    }
}

/// The dump of a table lists every valid entry reachable from its root
/// through table entries: every valid root entry, every valid entry of a
/// level-1 table a root entry points to, and every valid leaf entry of a
/// level-2 table a level-1 entry points to, each as (level, index, entry).
pub proof fn lemma_dump_lists_every_entry(mem: PhysMem, root: usize, i0: int, i1: int, i2: int)
    requires
        0 <= i0 < 512,
        0 <= i1 < 512,
        0 <= i2 < 512,
    ensures
        ({
            let e0 = mem.word(root as int, i0);
            let t1 = pte_target(e0);
            let e1 = mem.word(t1 as int, i1);
            let t2 = pte_target(e1);
            let e2 = mem.word(t2 as int, i2);
            let d = dump_lines(mem, root, 0, 0);
            &&& pte_valid(e0) ==> d.contains((0usize, i0 as usize, e0))
            &&& pte_valid(e0) && points_to_table(e0) && pte_valid(e1) ==> d.contains((1usize, i1 as usize, e1))
            &&& pte_valid(e0) && points_to_table(e0) && pte_valid(e1) && points_to_table(e1)
                && pte_valid(e2) ==> d.contains((2usize, i2 as usize, e2))
        }),
{
    let e0 = mem.word(root as int, i0);
    let t1 = pte_target(e0);
    let e1 = mem.word(t1 as int, i1);
    let t2 = pte_target(e1);
    let e2 = mem.word(t2 as int, i2);
    if pte_valid(e0) {
        lemma_dump_entry(mem, root, 0, i0, (0usize, i0 as usize, e0));
        if points_to_table(e0) && pte_valid(e1) {
            lemma_dump_entry(mem, t1, 1, i1, (1usize, i1 as usize, e1));
            lemma_dump_entry(mem, root, 0, i0, (1usize, i1 as usize, e1));
            if points_to_table(e1) && pte_valid(e2) {
                lemma_dump_entry(mem, t2, 2, i2, (2usize, i2 as usize, e2));
                lemma_dump_entry(mem, t1, 1, i1, (2usize, i2 as usize, e2));
                lemma_dump_entry(mem, root, 0, i0, (2usize, i2 as usize, e2));
            }
        }
    }
}

/// The dump of a page table: the physical address of its root frame, and
/// for every valid entry, in depth-first order, its level, index and entry
/// word.
pub fn vmprint(pagetable: &PageTable, mem: &PhysMem) -> (r: (usize, Vec<(usize, usize, usize)>))
    requires
        readable(*mem, pagetable.root()),
    ensures
        r.0 == pagetable.root() << 12usize,
        r.1@ == dump_lines(*mem, pagetable.root(), 0, 0),
{
    let mut out: Vec<(usize, usize, usize)> = Vec::new();
    vmprint_frame(mem, pagetable.root_ppn.0, 0, &mut out);
    proof {
        assert(out@ =~= dump_lines(*mem, pagetable.root(), 0, 0));
    }
    (pagetable.root_ppn.0 << 12, out)
}

} // verus!
