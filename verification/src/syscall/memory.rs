//! Memory-mapping system calls on the caller's page table.
use vstd::prelude::*;
use crate::mm::address::{VirtAddr, VirtPageNum, page_ceil, va_half, va_limit};
use crate::mm::phys_mem::{PhysMem, ppn_limit};
use crate::mm::address::PhysPageNum;
use crate::mm::frame_allocator::{StackFrameAllocator, FrameAllocView, lemma_dealloc_keeps_frames_clean};
use crate::mm::page_table::{
    PageTable, PageTableEntry, PTEFlags, pte_encode, pte_valid, pte_target, lemma_backed_after_write,
    pte_flag_bits, lemma_pte_roundtrip, vpn_key, same_outside, lemma_lookup_mapping,
    lemma_inv_fewer_free, lemma_vpn_key_injective, l0_present, l1_present, frames_needed,
};

verus! {

/// The mapping `m` with pages `s`, `s + 1`, ... mapped to the frames
/// `frames`, in order, with flag byte `fb`.
pub open spec fn framed_mapping(m: Map<(int, int, int), usize>, s: int, frames: Seq<usize>, fb: u8) -> Map<(int, int, int), usize>
    decreases frames.len(),
{
    if frames.len() == 0 {
        m
    } else {
        framed_mapping(m, s, frames.drop_last(), fb).insert(
            vpn_key(VirtPageNum((s + frames.len() - 1) as usize)),
            pte_encode(frames.last(), fb),
        )
    }
}

/// The mapping `m` without the pages `s .. s + n`.
pub open spec fn unmapped_range(m: Map<(int, int, int), usize>, s: int, n: int) -> Map<(int, int, int), usize>
    decreases n,
{
    if n <= 0 {
        m
    } else {
        unmapped_range(m, s, n - 1).remove(vpn_key(VirtPageNum((s + n - 1) as usize)))
    }
}

/// No page in `s .. e` has a valid leaf entry.
pub open spec fn none_mapped(pt: &PageTable, mem: PhysMem, s: int, e: int) -> bool {
    forall|v: int| s <= v < e ==> !#[trigger] pt.mapping(mem).contains_key(vpn_key(VirtPageNum(v as usize)))
}

/// Every page in `s .. e` can be walked to a leaf entry.
pub open spec fn all_reachable(pt: &PageTable, mem: PhysMem, s: int, e: int) -> bool {
    forall|v: int| s <= v < e ==> #[trigger] pt.lookup(mem, VirtPageNum(v as usize)) is Some
}

/// The flag byte of pages mapped with protection `prot` (bit 0 read, bit 1
/// write, bit 2 execute): user-accessible and valid, with the matching
/// read, write and execute flags.
pub open spec fn mmap_flag_bits(prot: int) -> u8 {
    (17 + 2 * prot) as u8
}

proof fn lemma_flag_byte(b: u8, p: u8)
    by (bit_vector)
    requires
        1 <= p <= 7,
        b == 17u8 + 2u8 * p,
    ensures
        b & 1u8 == 1u8,
        b & 16u8 == 16u8,
        (b & 2u8 == 2u8) == (p & 1u8 == 1u8),
        (b & 4u8 == 4u8) == (p & 2u8 == 2u8),
        (b & 8u8 == 8u8) == (p & 4u8 == 4u8),
        b & 0xe0u8 == 0u8,
{
}

/// The page `mmap` maps with protection `prot` (1 to 7) is valid and
/// reachable from user mode; it is readable exactly when bit 0 of `prot`
/// is set, writable exactly when bit 1 is and executable exactly when bit
/// 2 is, and it carries no other flag. The entry stored for a frame `f`
/// points to `f` and carries those flags.
pub proof fn lemma_mmap_flags(prot: int, f: usize)
    requires
        0 < prot <= 7,
        f < ppn_limit(),
        f * 1024 + 1024 <= usize::MAX,
    ensures
        ({
            let b = pte_flag_bits(pte_encode(f, mmap_flag_bits(prot)));
            let p = prot as u8;
            &&& pte_target(pte_encode(f, mmap_flag_bits(prot))) == f
            &&& pte_valid(pte_encode(f, mmap_flag_bits(prot)))
            &&& b & 16u8 == 16u8
            &&& (b & 2u8 == 2u8) == (p & 1u8 == 1u8)
            &&& (b & 4u8 == 4u8) == (p & 2u8 == 2u8)
            &&& (b & 8u8 == 8u8) == (p & 4u8 == 4u8)
            &&& b & 0xe0u8 == 0u8
        }),
{
    let p = prot as u8;
    assert(mmap_flag_bits(prot) == 17u8 + 2u8 * p);
    lemma_flag_byte(mmap_flag_bits(prot), p);
    lemma_pte_roundtrip(f, mmap_flag_bits(prot));
}

proof fn lemma_mmap_need_nonneg(l0: Set<int>, l1: Set<(int, int)>, s: int, n: int)
    ensures
        mmap_need(l0, l1, s, n) >= 0,
    decreases n,
{
    if n > 0 {
        let k = vpn_key(VirtPageNum(s as usize));
        lemma_mmap_need_nonneg(l0.insert(k.0), l1.insert((k.0, k.1)), s + 1, n - 1);
    }
}

proof fn lemma_framed_lacks(m: Map<(int, int, int), usize>, s: int, frames: Seq<usize>, fb: u8, v: int)
    requires
        0 <= s,
        s + frames.len() <= v < 0x800_0000,
        !m.contains_key(vpn_key(VirtPageNum(v as usize))),
    ensures
        !framed_mapping(m, s, frames, fb).contains_key(vpn_key(VirtPageNum(v as usize))),
    decreases frames.len(),
{
    if frames.len() > 0 {
        lemma_framed_lacks(m, s, frames.drop_last(), fb, v);
        let u = s + frames.len() - 1;
        if vpn_key(VirtPageNum(u as usize)) == vpn_key(VirtPageNum(v as usize)) {
            lemma_vpn_key_injective(u as usize, v as usize);
        }
    }
}

/// The page of address `a`, read as a virtual address (its lower 39 bits).
pub open spec fn va_page(a: int) -> int {
    (a % va_limit()) / 4096
}

/// The first page at or after address `a`, read as a virtual address.
pub open spec fn va_page_end(a: int) -> int {
    page_ceil(a % va_limit())
}

/// The frames mapping the `n` pages from page `s` on takes, one after the
/// other: one frame per page, plus a level-1 and a level-2 table for a
/// root index not in `l0`, or a level-2 table for an index pair not in
/// `l1`; the tables made for a page serve the pages after it.
pub open spec fn mmap_need(l0: Set<int>, l1: Set<(int, int)>, s: int, n: int) -> int
    decreases n,
{
    if n <= 0 {
        0
    } else {
        let k = vpn_key(VirtPageNum(s as usize));
        1 + (if !l0.contains(k.0) { 2int } else if !l1.contains((k.0, k.1)) { 1int } else { 0int })
            + mmap_need(l0.insert(k.0), l1.insert((k.0, k.1)), s + 1, n - 1)
    }
}

fn contains_index(v: &Vec<usize>, x: usize) -> (r: bool)
    ensures
        r == v@.contains(x),
{
    let mut i: usize = 0;
    while i < v.len()
        invariant
            i <= v@.len(),
            forall|j: int| 0 <= j < i ==> v@[j] != x,
        decreases v@.len() - i,
    {
        if v[i] == x {
            return true;
        }
        i = i + 1;
    }
    false
}

fn contains_pair(v: &Vec<(usize, usize)>, x: (usize, usize)) -> (r: bool)
    ensures
        r == v@.contains(x),
{
    let mut i: usize = 0;
    while i < v.len()
        invariant
            i <= v@.len(),
            forall|j: int| 0 <= j < i ==> v@[j] != x,
        decreases v@.len() - i,
    {
        if v[i].0 == x.0 && v[i].1 == x.1 {
            return true;
        }
        i = i + 1;
    }
    false
}

/// The number of frames `sys_mmap` takes to map the `len` bytes at
/// `start`: one per page and one per page table it has to create.
pub fn mmap_frames_needed(pt: &PageTable, mem: &PhysMem, start: usize, len: usize) -> (r: usize)
    requires
        pt.wf(*mem),
        start + len <= usize::MAX,
    ensures
        r == mmap_need(
            l0_present(*mem, pt.root()),
            l1_present(*mem, pt.root()),
            va_page(start as int),
            va_page_end(start + len) - va_page(start as int),
        ),
{
    proof {
        pt.lemma_wf_readable(*mem);
    }
    let root = pt.root_frame();
    let s = VirtPageNum::from(start).0;
    let end_va = VirtAddr::from(start + len);
    let end_page = end_va.floor().0;
    let last = if end_va.page_offset() != 0 { end_page + 1 } else { end_page };
    let ghost l0 = l0_present(*mem, root);
    let ghost l1 = l1_present(*mem, root);
    if last <= s {
        return 0;
    }
    let mut count: usize = 0;
    let mut seen0: Vec<usize> = Vec::new();
    let mut seen1: Vec<(usize, usize)> = Vec::new();
    let ghost mut c0 = l0;
    let ghost mut c1 = l1;
    let mut vpn = s;
    while vpn < last
        invariant
            s <= vpn <= last,
            last <= 0x800_0000,
            s == va_page(start as int),
            last == va_page_end(start + len),
            root == pt.root(),
            crate::mm::page_table::readable(*mem, root),
            l0 == l0_present(*mem, root),
            l1 == l1_present(*mem, root),
            count <= 3 * (vpn - s),
            forall|i: int| #[trigger] c0.contains(i) == (l0.contains(i) || (0 <= i < 512
                && seen0@.contains(i as usize))),
            forall|x: (int, int)| #[trigger] c1.contains(x) == (l1.contains(x) || (0 <= x.0 < 512
                && 0 <= x.1 < 512 && seen1@.contains((x.0 as usize, x.1 as usize)))),
            count + mmap_need(c0, c1, vpn as int, last - vpn) == mmap_need(l0, l1, s as int, last - s),
        decreases last - vpn,
    {
        let idx = VirtPageNum(vpn).indexes();
        let k0 = idx[0];
        let k1 = idx[1];
        let ghost k = vpn_key(VirtPageNum(vpn));
        proof {
            assert(VirtPageNum((vpn as int) as usize) == VirtPageNum(vpn));
            assert(k.0 == k0 && k.1 == k1);
            assert(k0 < 512 && k1 < 512);
        }
        let e0 = mem.read(root, k0);
        let root_valid = e0 & 1 == 1;
        proof {
            assert(root_valid == pte_valid(e0)) by {
                assert((e0 & 1 == 1) == ((e0 as u64) & 1u64 == 1u64)) by (bit_vector);
            }
        }
        let mid_valid = if root_valid {
            let t = PageTableEntry { bits: e0 }.ppn().0;
            let e1 = mem.read(t, k1);
            proof {
                assert((e1 & 1 == 1) == ((e1 as u64) & 1u64 == 1u64)) by (bit_vector);
            }
            e1 & 1 == 1
        } else {
            false
        };
        let in0 = root_valid || contains_index(&seen0, k0);
        let in1 = mid_valid || contains_pair(&seen1, (k0, k1));
        proof {
            assert(in0 == c0.contains(k.0));
            assert(in1 == c1.contains((k.0, k.1)));
        }
        let c: usize = if !in0 { 2 } else if !in1 { 1 } else { 0 };
        count = count + 1 + c;
        let ghost s0 = seen0@;
        let ghost s1 = seen1@;
        seen0.push(k0);
        seen1.push((k0, k1));
        proof {
            c0 = c0.insert(k.0);
            c1 = c1.insert((k.0, k.1));
            assert forall|i: int| #[trigger] c0.contains(i) == (l0.contains(i) || (0 <= i < 512
                && seen0@.contains(i as usize))) by {
                if 0 <= i < 512 {
                    assert(seen0@.contains(i as usize) == (s0.contains(i as usize) || i as usize == k0)) by {
                        if seen0@.contains(i as usize) && i as usize != k0 {
                            let j = choose|j: int| 0 <= j < seen0@.len() && seen0@[j] == i as usize;
                            assert(s0[j] == i as usize);
                        }
                        if s0.contains(i as usize) {
                            let j = choose|j: int| 0 <= j < s0.len() && s0[j] == i as usize;
                            assert(seen0@[j] == i as usize);
                        }
                        assert(seen0@[s0.len() as int] == k0);
                    }
                }
            }
            assert forall|x: (int, int)| #[trigger] c1.contains(x) == (l1.contains(x) || (0 <= x.0 < 512
                && 0 <= x.1 < 512 && seen1@.contains((x.0 as usize, x.1 as usize)))) by {
                if 0 <= x.0 < 512 && 0 <= x.1 < 512 {
                    let y = (x.0 as usize, x.1 as usize);
                    assert(seen1@.contains(y) == (s1.contains(y) || y == (k0, k1))) by {
                        if seen1@.contains(y) && y != (k0, k1) {
                            let j = choose|j: int| 0 <= j < seen1@.len() && seen1@[j] == y;
                            assert(s1[j] == y);
                        }
                        if s1.contains(y) {
                            let j = choose|j: int| 0 <= j < s1.len() && s1[j] == y;
                            assert(seen1@[j] == y);
                        }
                        assert(seen1@[s1.len() as int] == (k0, k1));
                    }
                }
            }
        }
        vpn = vpn + 1;
    }
    count
}

/// Maps the `len` bytes from the page-aligned address `start` (that is,
/// the pages from `start`'s page up to the one holding the last byte;
/// addresses are read by their lower 39 bits) to fresh frames from `fa`,
/// readable, writable and executable as the bits 0, 1 and 2 of `prot` say
/// and reachable from user mode. Returns -1, changing nothing, when a page
/// from `start`'s page up to (not including) the page of `start + len` is
/// already mapped (has a valid leaf entry).
pub fn sys_mmap(
    pt: &mut PageTable,
    mem: &mut PhysMem,
    fa: &mut StackFrameAllocator,
    start: usize,
    len: usize,
    prot: usize,
) -> (r: isize)
    requires
        0 < prot <= 7,
        start % 4096 == 0,
        len > 0,
        start + len <= usize::MAX,
        old(pt).inv(*old(mem), old(fa)@),
        none_mapped(old(pt), *old(mem), va_page(start as int), va_page(start + len)) ==> {
            &&& (start + len) % va_limit() != 0
            &&& (start + len) % va_limit() <= usize::MAX - 4095
            &&& va_page(start as int) <= va_page_end(start + len)
            &&& old(fa)@.free_count() >= mmap_need(
                l0_present(*old(mem), old(pt).root()),
                l1_present(*old(mem), old(pt).root()),
                va_page(start as int),
                va_page_end(start + len) - va_page(start as int),
            )
            &&& forall|v: int|
                va_page(start as int) <= v < va_page_end(start + len) ==> !#[trigger] old(pt).mapping(
                    *old(mem),
                ).contains_key(vpn_key(VirtPageNum(v as usize)))
        },
    ensures
        final(pt).inv(*final(mem), final(fa)@),
        final(pt).root() == old(pt).root(),
        old(pt).table_frames().subset_of(final(pt).table_frames()),
        same_outside(*old(mem), *final(mem), final(pt).table_frames()),
        !none_mapped(old(pt), *old(mem), va_page(start as int), va_page(start + len)) ==> r == -1
            && *final(pt) == *old(pt) && *final(mem) == *old(mem) && final(fa)@ == old(fa)@,
        none_mapped(old(pt), *old(mem), va_page(start as int), va_page(start + len)) ==> r == 0
            && exists|frames: Seq<usize>|
            {
                &&& frames.len() == va_page_end(start + len) - va_page(start as int)
                &&& final(pt).mapping(*final(mem)) == framed_mapping(
                    old(pt).mapping(*old(mem)),
                    va_page(start as int),
                    frames,
                    mmap_flag_bits(prot as int),
                )
                &&& forall|i: int|
                    0 <= i < frames.len() ==> old(fa)@.is_free(#[trigger] frames[i] as int)
                        && !final(fa)@.is_free(frames[i] as int)
                &&& forall|i: int, j: int|
                    0 <= i < j < frames.len() ==> #[trigger] frames[i] != #[trigger] frames[j]
            },
{
    let mut perm = PTEFlags::U();
    if (prot & 1) == 1 {
        perm = perm.union(PTEFlags::R());
    }
    if (prot & 2) == 2 {
        perm = perm.union(PTEFlags::W());
    }
    if (prot & 4) == 4 {
        perm = perm.union(PTEFlags::X());
    }
    proof {
        let b: u8 = perm@;
        assert(b | 1u8 == (17 + 2 * prot) as u8) by (bit_vector)
            requires
                0 < prot <= 7,
                b == (if (prot & 4) == 4 {
                    (if (prot & 2) == 2 {
                        (if (prot & 1) == 1 { 16u8 | 2u8 } else { 16u8 }) | 4u8
                    } else {
                        (if (prot & 1) == 1 { 16u8 | 2u8 } else { 16u8 })
                    }) | 8u8
                } else {
                    (if (prot & 2) == 2 {
                        (if (prot & 1) == 1 { 16u8 | 2u8 } else { 16u8 }) | 4u8
                    } else {
                        (if (prot & 1) == 1 { 16u8 | 2u8 } else { 16u8 })
                    })
                }),
        ;
        pt.lemma_wf_readable(*mem);
    }
    let start_vpn = VirtPageNum::from(start).0;
    let end_vpn = VirtPageNum::from(start + len).0;
    let mut vpn = start_vpn;
    while vpn < end_vpn
        invariant
            *pt == *old(pt),
            *mem == *old(mem),
            fa@ == old(fa)@,
            start_vpn == va_page(start as int),
            end_vpn == va_page(start + len),
            start_vpn <= vpn,
            vpn <= end_vpn || vpn == start_vpn,
            pt.inv(*mem, fa@),
            crate::mm::page_table::readable(*mem, pt.root()),
            none_mapped(pt, *mem, start_vpn as int, vpn as int),
        decreases end_vpn - vpn,
    {
        proof {
            lemma_lookup_mapping(pt, *mem, VirtPageNum(vpn));
            assert(VirtPageNum((vpn as int) as usize) == VirtPageNum(vpn));
        }
        if let Some(pte) = pt.translate(mem, VirtPageNum(vpn)) {
            if pte.is_valid() {
                return -1;
            }
        }
        vpn = vpn + 1;
    }
    proof {
        assert(none_mapped(old(pt), *old(mem), va_page(start as int), va_page(start + len)));
        assert((start + len) as int % va_limit() < va_limit());
    }
    let last_vpn = VirtAddr::from(start + len).ceil().0;
    proof {
        assert(last_vpn <= 0x800_0000);
    }
    let ghost m0 = pt.mapping(*mem);
    let ghost fa0 = fa@;
    let ghost mem0 = *mem;
    let ghost t0 = pt.table_frames();
    let ghost mut frames: Seq<usize> = Seq::empty();
    let mut vpn = start_vpn;
    while vpn < last_vpn
        invariant
            start_vpn == va_page(start as int),
            last_vpn == va_page_end(start + len),
            last_vpn <= 0x800_0000,
            start_vpn <= vpn <= last_vpn,
            frames.len() == vpn - start_vpn,
            pt.inv(*mem, fa@),
            pt.root() == old(pt).root(),
            mem0 == *old(mem),
            t0 == old(pt).table_frames(),
            t0.subset_of(pt.table_frames()),
            same_outside(mem0, *mem, pt.table_frames()),
            fa@.free_count() >= mmap_need(
                l0_present(*mem, pt.root()),
                l1_present(*mem, pt.root()),
                vpn as int,
                last_vpn - vpn,
            ),
            pt.mapping(*mem) == framed_mapping(m0, start_vpn as int, frames, (perm@ | 1u8)),
            forall|v: int| start_vpn <= v < last_vpn ==> !#[trigger] m0.contains_key(
                vpn_key(VirtPageNum(v as usize)),
            ),
            forall|i: int|
                0 <= i < frames.len() ==> fa0.is_free(#[trigger] frames[i] as int) && !fa@.is_free(
                    frames[i] as int,
                ),
            forall|p: int| #[trigger] fa@.is_free(p) ==> fa0.is_free(p),
            forall|i: int, j: int|
                0 <= i < j < frames.len() ==> #[trigger] frames[i] != #[trigger] frames[j],
        decreases last_vpn - vpn,
    {
        let ghost fa_before = fa@;
        let ghost k = vpn_key(VirtPageNum(vpn));
        let ghost l0 = l0_present(*mem, pt.root());
        let ghost l1 = l1_present(*mem, pt.root());
        let ghost rest = mmap_need(l0.insert(k.0), l1.insert((k.0, k.1)), vpn + 1, last_vpn - vpn - 1);
        proof {
            lemma_lookup_mapping(pt, *mem, VirtPageNum(vpn));
            assert(VirtPageNum((vpn as int) as usize) == VirtPageNum(vpn));
            lemma_mmap_need_nonneg(l0.insert(k.0), l1.insert((k.0, k.1)), vpn + 1, last_vpn - vpn - 1);
            assert(mmap_need(l0, l1, vpn as int, last_vpn - vpn) == 1 + frames_needed(*mem, pt.root(), k) + rest);
        }
        let frame = fa.allocate().unwrap();
        proof {
            lemma_inv_fewer_free(pt, *mem, fa_before, fa@);
            lemma_framed_lacks(m0, start_vpn as int, frames, (perm@ | 1u8), vpn as int);
        }
        let ghost fa_mid = fa@;
        let ghost mem_mid = *mem;
        let ghost t_mid = pt.table_frames();
        pt.map(mem, fa, VirtPageNum(vpn), frame, perm);
        proof {
            assert forall|p: int, j: int|
                #![trigger mem.word(p, j)]
                mem.holds(p) && 0 <= p && !pt.table_frames().contains(p as usize) && 0 <= j < 512 implies mem.word(p, j)
                    == mem0.word(p, j) by {
                assert(!t_mid.contains(p as usize));
                assert(mem_mid.word(p, j) == mem0.word(p, j));
            }
            assert(fa@.free_count() >= rest);
            let nf = frames.push(frame.0);
            assert(nf.drop_last() =~= frames);
            assert(forall|i: int| 0 <= i < frames.len() ==> nf[i] == frames[i]);
            assert forall|p: int| #[trigger] fa@.is_free(p) implies fa0.is_free(p) by {
                assert(fa_mid.is_free(p));
            }
            frames = nf;
        }
        vpn = vpn + 1;
    }
    0
}

/// Whether unmapping may give frame `q` back to `fa`: `fa` handed it out,
/// `mem` holds it and it is not one of the table's frames `frames`.
pub open spec fn releasable(fa: FrameAllocView, mem: PhysMem, frames: Set<usize>, q: int) -> bool {
    &&& fa.can_free(q)
    &&& mem.holds(q)
    &&& !frames.contains(q as usize)
}

/// Whether `m` maps one of the pages `s .. e` to frame `q`.
pub open spec fn maps_frame(m: Map<(int, int, int), usize>, s: int, e: int, q: int) -> bool {
    exists|v: int|
        s <= v < e && #[trigger] m.contains_key(vpn_key(VirtPageNum(v as usize))) && pte_target(
            m[vpn_key(VirtPageNum(v as usize))],
        ) == q
}

/// Whether unmapping the pages `s .. e` of mapping `m` gives frame `q`
/// back: a page maps to it and it is releasable.
pub open spec fn released(m: Map<(int, int, int), usize>, fa: FrameAllocView, mem: PhysMem, frames: Set<usize>, s: int, e: int, q: int) -> bool {
    maps_frame(m, s, e, q) && releasable(fa, mem, frames, q)
}

proof fn lemma_unmapped_range_beyond(m: Map<(int, int, int), usize>, s: int, n: int, v: int)
    requires
        0 <= s,
        0 <= n,
        s + n <= v < 0x800_0000,
    ensures
        unmapped_range(m, s, n).contains_key(vpn_key(VirtPageNum(v as usize))) == m.contains_key(
            vpn_key(VirtPageNum(v as usize)),
        ),
        m.contains_key(vpn_key(VirtPageNum(v as usize))) ==> unmapped_range(m, s, n)[vpn_key(
            VirtPageNum(v as usize),
        )] == m[vpn_key(VirtPageNum(v as usize))],
    decreases n,
{
    if n > 0 {
        lemma_unmapped_range_beyond(m, s, n - 1, v);
        let u = s + n - 1;
        if vpn_key(VirtPageNum(u as usize)) == vpn_key(VirtPageNum(v as usize)) {
            lemma_vpn_key_injective(u as usize, v as usize);
        }
    }
}

/// Unmaps the pages from the page of `start` up to the page holding the
/// last byte before `start + len` (addresses read by their lower 39 bits;
/// pages already unmapped are skipped) and gives the frames of the
/// unmapped pages back to `fa`, cleared, when `fa` handed them out and
/// they are not frames of the table. Returns -1, changing nothing, when
/// some page from `start`'s page up to (not including) the page of
/// `start + len` cannot be walked to a leaf entry, and 0, changing nothing,
/// when `len` is 0.
pub fn sys_munmap(pt: &mut PageTable, mem: &mut PhysMem, fa: &mut StackFrameAllocator, start: usize, len: usize) -> (r: isize)
    requires
        old(pt).inv(*old(mem), old(fa)@),
        start + len <= usize::MAX,
    ensures
        final(pt).inv(*final(mem), final(fa)@),
        final(pt).root() == old(pt).root(),
        final(pt).table_frames() == old(pt).table_frames(),
        final(mem).base() == old(mem).base(),
        final(mem).count() == old(mem).count(),
        len == 0 ==> r == 0 && *final(pt) == *old(pt) && *final(mem) == *old(mem) && final(fa)@ == old(fa)@,
        len > 0 && !all_reachable(old(pt), *old(mem), va_page(start as int), va_page(start + len)) ==> r == -1
            && *final(pt) == *old(pt) && *final(mem) == *old(mem) && final(fa)@ == old(fa)@,
        len > 0 && all_reachable(old(pt), *old(mem), va_page(start as int), va_page(start + len)) ==> {
            let s = va_page(start as int);
            let e = va_page_end(start + len);
            let m = old(pt).mapping(*old(mem));
            &&& r == 0
            &&& final(pt).mapping(*final(mem)) == unmapped_range(m, s, e - s)
            &&& final(fa)@.current == old(fa)@.current
            &&& final(fa)@.end == old(fa)@.end
            &&& forall|q: int| #[trigger] final(fa)@.is_free(q) == (old(fa)@.is_free(q) || released(
                m,
                old(fa)@,
                *old(mem),
                old(pt).table_frames(),
                s,
                e,
                q,
            ))
            &&& forall|q: int| released(m, old(fa)@, *old(mem), old(pt).table_frames(), s, e, q) ==> #[trigger] final(mem).zeroed(q)
            &&& forall|p: int, j: int|
                #![trigger final(mem).word(p, j)]
                final(mem).holds(p) && 0 <= p && !old(pt).table_frames().contains(p as usize)
                    && !released(m, old(fa)@, *old(mem), old(pt).table_frames(), s, e, p) && 0 <= j < 512
                    ==> final(mem).word(p, j) == old(mem).word(p, j)
        },
{
    if len == 0 {
        return 0;
    }
    proof {
        pt.lemma_wf_readable(*mem);
    }
    let start_vpn = VirtPageNum::from(start).0;
    let end_vpn = VirtPageNum::from(start + len).0;
    let mut vpn = start_vpn;
    while vpn < end_vpn
        invariant
            *pt == *old(pt),
            *mem == *old(mem),
            fa@ == old(fa)@,
            old(pt).inv(*old(mem), old(fa)@),
            start_vpn == va_page(start as int),
            end_vpn == va_page(start + len),
            start_vpn <= vpn,
            vpn <= end_vpn || vpn == start_vpn,
            pt.wf(*mem),
            crate::mm::page_table::readable(*mem, pt.root()),
            all_reachable(pt, *mem, start_vpn as int, vpn as int),
        decreases end_vpn - vpn,
    {
        if pt.translate(mem, VirtPageNum(vpn)).is_none() {
            proof {
                assert(VirtPageNum((vpn as int) as usize) == VirtPageNum(vpn));
                assert(pt.lookup(*mem, VirtPageNum((vpn as int) as usize)) is None);
            }
            return -1;
        }
        vpn = vpn + 1;
    }
    let end_va = VirtAddr::from(start + len);
    let end_page = end_va.floor().0;
    let last_vpn = if end_va.page_offset() != 0 { end_page + 1 } else { end_page };
    proof {
        assert(last_vpn == va_page_end(start + len));
        assert(last_vpn <= 0x800_0000);
    }
    let ghost m0 = pt.mapping(*mem);
    let ghost mem0 = *mem;
    let ghost frames0 = pt.table_frames();
    let ghost fa0 = fa@;
    let mut vpn = start_vpn;
    while vpn < last_vpn
        invariant
            start_vpn == va_page(start as int),
            last_vpn == va_page_end(start + len),
            last_vpn <= 0x800_0000,
            start_vpn <= vpn,
            vpn <= last_vpn || vpn == start_vpn,
            pt.inv(*mem, fa@),
            pt.root() == old(pt).root(),
            pt.table_frames() == frames0,
            frames0 == old(pt).table_frames(),
            m0 == old(pt).mapping(*old(mem)),
            mem0 == *old(mem),
            fa0 == old(fa)@,
            mem.base() == mem0.base(),
            mem.count() == mem0.count(),
            fa@.current == fa0.current,
            fa@.end == fa0.end,
            pt.mapping(*mem) == unmapped_range(m0, start_vpn as int, vpn - start_vpn),
            forall|q: int| #[trigger] fa@.is_free(q) == (fa0.is_free(q) || released(
                m0,
                fa0,
                mem0,
                frames0,
                start_vpn as int,
                vpn as int,
                q,
            )),
            forall|q: int| released(m0, fa0, mem0, frames0, start_vpn as int, vpn as int, q) ==> #[trigger] mem.zeroed(q),
            forall|p: int, j: int|
                #![trigger mem.word(p, j)]
                mem.holds(p) && 0 <= p && !frames0.contains(p as usize) && !released(
                    m0,
                    fa0,
                    mem0,
                    frames0,
                    start_vpn as int,
                    vpn as int,
                    p,
                ) && 0 <= j < 512 ==> mem.word(p, j) == mem0.word(p, j),
        decreases last_vpn - vpn,
    {
        let ghost key = vpn_key(VirtPageNum(vpn));
        proof {
            pt.lemma_wf_readable(*mem);
            lemma_lookup_mapping(pt, *mem, VirtPageNum(vpn));
            lemma_unmapped_range_beyond(m0, start_vpn as int, vpn - start_vpn, vpn as int);
            assert(VirtPageNum((vpn as int) as usize) == VirtPageNum(vpn));
        }
        let e = pt.translate(mem, VirtPageNum(vpn));
        let ghost mem_b = *mem;
        let ghost fa_b = fa@;
        let ghost before = pt.mapping(*mem);
        let mut freed = false;
        let mut target: usize = 0;
        match e {
            Some(pte) => {
                if pte.is_valid() {
                    pt.unmap(mem, VirtPageNum(vpn));
                    proof {
                        lemma_backed_after_write(mem_b, *mem, fa@, frames0);
                    }
                    target = pte.ppn().0;
                    if fa.can_dealloc(PhysPageNum(target)) && mem.contains(target) && !pt.owns_frame(mem, target) {
                        let ghost mem_c = *mem;
                        let ghost fa_c = fa@;
                        fa.dealloc(PhysPageNum(target), mem);
                        proof {
                            lemma_dealloc_keeps_frames_clean(mem_c, *mem, fa_c, target);
                            pt.lemma_tables_unchanged(mem_c, *mem);
                        }
                        freed = true;
                    }
                } else {
                    proof {
                        assert(before.remove(key) =~= before);
                    }
                }
            },
            None => {
                proof {
                    assert(before.remove(key) =~= before);
                }
            },
        }
        proof {
            let s = start_vpn as int;
            let v = vpn as int;
            let contains = m0.contains_key(key);
            assert(contains == before.contains_key(key));
            assert(contains ==> target == pte_target(m0[key]));
            assert(contains == (e matches Some(pte) && pte_valid(pte.bits)));
            assert forall|q: int| #[trigger] maps_frame(m0, s, v + 1, q) == (maps_frame(m0, s, v, q) || (
            contains && q == target)) by {
                if maps_frame(m0, s, v + 1, q) {
                    let w = choose|w: int|
                        s <= w < v + 1 && #[trigger] m0.contains_key(vpn_key(VirtPageNum(w as usize))) && pte_target(
                            m0[vpn_key(VirtPageNum(w as usize))],
                        ) == q;
                    if w < v {
                        assert(maps_frame(m0, s, v, q));
                    }
                }
                if maps_frame(m0, s, v, q) {
                    let w = choose|w: int|
                        s <= w < v && #[trigger] m0.contains_key(vpn_key(VirtPageNum(w as usize))) && pte_target(
                            m0[vpn_key(VirtPageNum(w as usize))],
                        ) == q;
                    assert(s <= w < v + 1);
                }
                if contains && q == target {
                    assert(m0.contains_key(vpn_key(VirtPageNum(v as usize))));
                }
            }
            assert(freed ==> contains && releasable(fa0, mem0, frames0, target as int)) by {
                if freed {
                    assert(!fa_b.is_free(target as int));
                }
            }
            assert(contains && releasable(fa0, mem0, frames0, target as int) && !fa_b.is_free(target as int) ==> freed);
            assert forall|q: int| #[trigger] fa@.is_free(q) == (fa0.is_free(q) || released(m0, fa0, mem0, frames0, s, v + 1, q)) by {
                if q != target as int {
                    assert(fa@.is_free(q) == fa_b.is_free(q));
                } else {
                    if releasable(fa0, mem0, frames0, q) {
                        assert(!fa0.is_free(q));
                    }
                }
            }
            assert forall|q: int| released(m0, fa0, mem0, frames0, s, v + 1, q) implies #[trigger] mem.zeroed(q) by {
                if released(m0, fa0, mem0, frames0, s, v, q) {
                    assert forall|j: int| 0 <= j < 512 implies #[trigger] mem.word(q, j) == 0 by {
                        assert(mem_b.zeroed(q));
                        assert(mem_b.word(q, j) == 0);
                        assert(!frames0.contains(q as usize));
                    }
                } else {
                    assert(q == target as int);
                    assert(!fa_b.is_free(q));
                    assert(freed);
                }
            }
            assert forall|p: int, j: int|
                #![trigger mem.word(p, j)]
                mem.holds(p) && 0 <= p && !frames0.contains(p as usize) && !released(m0, fa0, mem0, frames0, s, v + 1, p)
                    && 0 <= j < 512 implies mem.word(p, j) == mem0.word(p, j) by {
                assert(!released(m0, fa0, mem0, frames0, s, v, p));
                assert(mem_b.word(p, j) == mem0.word(p, j));
            }
        }
        vpn = vpn + 1;
    }
    0
}

proof fn lemma_unmapped_range_insert(m: Map<(int, int, int), usize>, s: int, n: int, k: (int, int, int), x: usize)
    requires
        0 <= n,
        forall|v: int| s <= v < s + n ==> #[trigger] vpn_key(VirtPageNum(v as usize)) != k,
    ensures
        unmapped_range(m.insert(k, x), s, n) == unmapped_range(m, s, n).insert(k, x),
    decreases n,
{
    if n > 0 {
        lemma_unmapped_range_insert(m, s, n - 1, k, x);
        let kv = vpn_key(VirtPageNum((s + n - 1) as usize));
        assert(kv != k);
        assert(unmapped_range(m, s, n - 1).insert(k, x).remove(kv) =~= unmapped_range(m, s, n - 1).remove(kv).insert(k, x));
    }
}

/// `munmap` undoes `mmap`: removing the pages `s .. s + n` from a mapping
/// in which `mmap` put them (and that held none of them before) gives back
/// the mapping from before the `mmap`.
pub proof fn lemma_munmap_undoes_mmap(m: Map<(int, int, int), usize>, s: int, frames: Seq<usize>, fb: u8)
    requires
        0 <= s,
        s + frames.len() <= 0x800_0000,
        forall|v: int| s <= v < s + frames.len() ==> !#[trigger] m.contains_key(
            vpn_key(VirtPageNum(v as usize)),
        ),
    ensures
        unmapped_range(framed_mapping(m, s, frames, fb), s, frames.len() as int) == m,
    decreases frames.len(),
{
    if frames.len() > 0 {
        let n = frames.len() as int;
        let f0 = frames.drop_last();
        let k = vpn_key(VirtPageNum((s + n - 1) as usize));
        let x = pte_encode(frames.last(), fb);
        let small = framed_mapping(m, s, f0, fb);
        assert forall|v: int| s <= v < s + n - 1 implies #[trigger] vpn_key(VirtPageNum(v as usize)) != k by {
            if vpn_key(VirtPageNum(v as usize)) == k {
                lemma_vpn_key_injective(v as usize, (s + n - 1) as usize);
            }
        }
        lemma_munmap_undoes_mmap(m, s, f0, fb);
        lemma_unmapped_range_insert(small, s, n - 1, k, x);
        assert(!m.contains_key(k));
        assert(m.insert(k, x).remove(k) =~= m);
    }
}

} // verus!
