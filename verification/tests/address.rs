use rcore_kernel::mm::address::{PhysAddr, PhysPageNum, VirtAddr, VirtPageNum};
use rcore_kernel::mm::range::{walk_pages, SimpleRange, SimpleRangeIterator, StepByOne};

#[test]
fn virt_addr_floor_and_ceil() {
    let va = VirtAddr(0x100_001);
    assert_eq!(va.floor().0, 0x100);
    assert_eq!(va.ceil().0, 0x101);
    let aligned = VirtAddr(0x100_000);
    assert_eq!(aligned.floor().0, 0x100);
    assert_eq!(aligned.ceil().0, 0x100);
}

#[test]
fn phys_addr_floor_and_ceil() {
    let pa = PhysAddr(0x10_001);
    assert_eq!(pa.floor().0, 0x10);
    assert_eq!(pa.ceil().0, 0x11);
}

#[test]
fn page_offset_and_aligned() {
    assert_eq!(VirtAddr(0x1234).page_offset(), 0x234);
    assert!(!VirtAddr(0x1234).aligned());
    assert!(VirtAddr(0x5000).aligned());
    assert_eq!(PhysAddr(0x8000_0fff).page_offset(), 0xfff);
    assert!(PhysAddr(0x8000_0000).aligned());
    assert!(!PhysAddr(0x8000_0001).aligned());
}

#[test]
fn conversions_keep_the_low_bits() {
    assert_eq!(PhysAddr::from(usize::MAX).0, 0xff_ffff_ffff_ffff);
    assert_eq!(VirtAddr::from(usize::MAX).0, 0x7f_ffff_ffff);
    assert_eq!(VirtPageNum::from(0x1000usize).0, 0x1);
    assert_eq!(VirtPageNum::from(0x80_0000_1000usize).0, 0x1);
    assert_eq!(usize::from(PhysAddr(0x1234)), 0x1234);
    assert_eq!(usize::from(PhysPageNum(0x80400)), 0x80400);
    assert_eq!(usize::from(VirtPageNum(7)), 7);
}

#[test]
fn virt_addr_to_usize_sign_extends() {
    assert_eq!(usize::from(VirtAddr(0x1000)), 0x1000);
    assert_eq!(usize::from(VirtAddr(0x40_0000_0000)), 0xffff_ffc0_0000_0000);
    assert_eq!(usize::from(VirtAddr(0x7f_ffff_f000)), 0xffff_ffff_ffff_f000);
}

#[test]
fn canonical_addresses_round_trip() {
    for v in [0usize, 0x3f_ffff_ffff, 0xffff_ffc0_0000_0000, usize::MAX - 4095] {
        assert_eq!(usize::from(VirtAddr::from(v)), v);
    }
    let a = VirtAddr(0x45_0000_1234);
    assert_eq!(VirtAddr::from(usize::from(a)), a);
}

#[test]
fn page_numbers_to_addresses() {
    assert_eq!(VirtAddr::from(VirtPageNum(0x10)).0, 0x10000);
    assert_eq!(PhysAddr::from(PhysPageNum(0x80400)).0, 0x8040_0000);
}

#[test]
fn phys_page_num_from_usize() {
    let ekernel = 0x8020_0000;
    // below the kernel's end: already a page number
    assert_eq!(PhysPageNum::from_usize(0x80400, ekernel).0, 0x80400);
    // at or above it: an address
    assert_eq!(PhysPageNum::from_usize(0x8040_0123, ekernel).0, 0x80400);
}

#[test]
fn vpn_indexes() {
    let vpn = VirtPageNum((3 << 18) | (5 << 9) | 7);
    assert_eq!(vpn.indexes(), [3, 5, 7]);
    assert_eq!(VirtPageNum(0x514).indexes(), [0, 2, 0x114]);
    // only the lower 27 bits count
    assert_eq!(VirtPageNum(1 << 27).indexes(), [0, 0, 0]);
}

#[test]
fn step_moves_to_next_page() {
    let mut v = VirtPageNum(9);
    v.step();
    assert_eq!(v.0, 10);
}

#[test]
fn simple_range_bounds_and_contain() {
    let r = SimpleRange::new(VirtPageNum(3), VirtPageNum(6));
    assert_eq!(r.get_start().0, 3);
    assert_eq!(r.get_end().0, 6);
    assert!(r.contain(VirtPageNum(3)));
    assert!(r.contain(VirtPageNum(5)));
    assert!(!r.contain(VirtPageNum(6)));
    assert!(!r.contain(VirtPageNum(2)));
}

#[test]
fn simple_range_iterates_in_order() {
    let r = SimpleRange::new(VirtPageNum(3), VirtPageNum(6));
    let mut it = r.into_iter();
    let mut seen = Vec::new();
    while let Some(v) = it.next() {
        seen.push(v.0);
    }
    assert_eq!(seen, vec![3, 4, 5]);
    let mut empty = SimpleRangeIterator::new(VirtPageNum(4), VirtPageNum(4));
    assert!(empty.next().is_none());
}

#[test]
fn walking_a_page_range_hands_out_every_page_once() {
    let mut it = SimpleRange::new(VirtPageNum(5), VirtPageNum(8)).into_iter();
    assert_eq!(walk_pages(&mut it), vec![VirtPageNum(5), VirtPageNum(6), VirtPageNum(7)]);
    assert_eq!(it.next(), None);
    assert_eq!(it.next(), None);
}
