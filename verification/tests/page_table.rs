use rcore_kernel::mm::address::{PhysPageNum, VirtPageNum};
use rcore_kernel::mm::frame_allocator::StackFrameAllocator;
use rcore_kernel::mm::page_table::{translated_byte_buffer, vmprint, PTEFlags, PageTable, PageTableEntry};
use rcore_kernel::mm::phys_mem::PhysMem;

fn system() -> (PhysMem, StackFrameAllocator) {
    let mut fa = StackFrameAllocator::new();
    fa.init(PhysPageNum(0x80000), PhysPageNum(0x80020));
    (PhysMem::new(0x80000, 0x20), fa)
}

#[test]
fn pte_packs_frame_and_flags() {
    let e = PageTableEntry::new(PhysPageNum(0x80123), PTEFlags::V().union(PTEFlags::R()).union(PTEFlags::W()));
    assert_eq!(e.bits, (0x80123 << 10) | 0b111);
    assert_eq!(e.ppn(), PhysPageNum(0x80123));
    assert_eq!(e.flags().bits(), 0b111);
    assert!(e.is_valid());
    assert!(e.readable());
    assert!(e.writable());
    assert!(!e.executable());
    let z = PageTableEntry::empty();
    assert!(!z.is_valid());
    assert_eq!(z.ppn(), PhysPageNum(0));
}

#[test]
fn pte_flags_values() {
    assert_eq!(PTEFlags::V().bits(), 1);
    assert_eq!(PTEFlags::R().bits(), 2);
    assert_eq!(PTEFlags::W().bits(), 4);
    assert_eq!(PTEFlags::X().bits(), 8);
    assert_eq!(PTEFlags::U().bits(), 16);
    assert_eq!(PTEFlags::G().bits(), 32);
    assert_eq!(PTEFlags::A().bits(), 64);
    assert_eq!(PTEFlags::D().bits(), 128);
    assert_eq!(PTEFlags::empty().bits(), 0);
    assert_eq!(PTEFlags::from_bits(0xff).unwrap().bits(), 0xff);
    let rw = PTEFlags::R().union(PTEFlags::W());
    assert!(rw.contains(PTEFlags::R()));
    assert!(!rw.contains(PTEFlags::X()));
    assert_eq!(rw.intersection(PTEFlags::W()).bits(), 4);
}

#[test]
fn map_then_translate_gives_the_entry_back() {
    let (mut mem, mut fa) = system();
    let mut pt = PageTable::new(&mem, &mut fa);
    let vpn = VirtPageNum(0x10);
    assert!(pt.translate(&mem, vpn).is_none());
    pt.map(&mut mem, &mut fa, vpn, PhysPageNum(0x1234), PTEFlags::R());
    let e = pt.translate(&mem, vpn).unwrap();
    assert!(e.is_valid());
    assert_eq!(e.ppn(), PhysPageNum(0x1234));
    assert_eq!(e.flags().bits(), 0b11);
    // the root and two intermediate tables were taken from the allocator
    assert_eq!(fa.allocate(), Some(PhysPageNum(0x80003)));
}

#[test]
fn map_keeps_other_pages() {
    let (mut mem, mut fa) = system();
    let mut pt = PageTable::new(&mem, &mut fa);
    pt.map(&mut mem, &mut fa, VirtPageNum(0x10), PhysPageNum(0x111), PTEFlags::R());
    pt.map(&mut mem, &mut fa, VirtPageNum(0x11), PhysPageNum(0x222), PTEFlags::W());
    pt.map(&mut mem, &mut fa, VirtPageNum(0x40000), PhysPageNum(0x333), PTEFlags::X());
    assert_eq!(pt.translate(&mem, VirtPageNum(0x10)).unwrap().ppn(), PhysPageNum(0x111));
    assert_eq!(pt.translate(&mem, VirtPageNum(0x11)).unwrap().ppn(), PhysPageNum(0x222));
    assert_eq!(pt.translate(&mem, VirtPageNum(0x40000)).unwrap().ppn(), PhysPageNum(0x333));
    // a page next to a mapped one: the walk reaches an invalid leaf
    let e = pt.translate(&mem, VirtPageNum(0x12)).unwrap();
    assert!(!e.is_valid());
}

#[test]
fn unmap_clears_only_that_page() {
    let (mut mem, mut fa) = system();
    let mut pt = PageTable::new(&mem, &mut fa);
    pt.map(&mut mem, &mut fa, VirtPageNum(0x10), PhysPageNum(0x111), PTEFlags::R());
    pt.map(&mut mem, &mut fa, VirtPageNum(0x11), PhysPageNum(0x222), PTEFlags::R());
    pt.unmap(&mut mem, VirtPageNum(0x10));
    assert!(!pt.translate(&mem, VirtPageNum(0x10)).unwrap().is_valid());
    assert!(pt.translate(&mem, VirtPageNum(0x11)).unwrap().is_valid());
    // mapping again after unmapping works
    pt.map(&mut mem, &mut fa, VirtPageNum(0x10), PhysPageNum(0x444), PTEFlags::R());
    assert_eq!(pt.translate(&mem, VirtPageNum(0x10)).unwrap().ppn(), PhysPageNum(0x444));
}

#[test]
fn token_names_the_root() {
    let (mem, mut fa) = system();
    let pt = PageTable::new(&mem, &mut fa);
    assert_eq!(pt.token(), (8usize << 60) | 0x80000);
    let view = PageTable::from_token(pt.token());
    assert_eq!(view.token(), pt.token());
}

#[test]
fn from_token_reads_the_same_table() {
    let (mut mem, mut fa) = system();
    let mut pt = PageTable::new(&mem, &mut fa);
    pt.map(&mut mem, &mut fa, VirtPageNum(0x10), PhysPageNum(0x80010), PTEFlags::R());
    let view = PageTable::from_token(pt.token());
    assert_eq!(view.translate(&mem, VirtPageNum(0x10)).unwrap().ppn(), PhysPageNum(0x80010));
}

#[test]
fn buffer_split_at_page_boundaries() {
    let (mut mem, mut fa) = system();
    let mut pt = PageTable::new(&mem, &mut fa);
    pt.map(&mut mem, &mut fa, VirtPageNum(0x10), PhysPageNum(0x80010), PTEFlags::R());
    pt.map(&mut mem, &mut fa, VirtPageNum(0x11), PhysPageNum(0x80011), PTEFlags::R());
    pt.map(&mut mem, &mut fa, VirtPageNum(0x12), PhysPageNum(0x80012), PTEFlags::R());
    let pieces = translated_byte_buffer(&mem, pt.token(), 0x10f00, 0x1200);
    assert_eq!(
        pieces,
        vec![
            (PhysPageNum(0x80010), 0xf00, 4096),
            (PhysPageNum(0x80011), 0, 4096),
            (PhysPageNum(0x80012), 0, 0x100),
        ]
    );
    let whole = translated_byte_buffer(&mem, pt.token(), 0x10000, 0x2000);
    assert_eq!(whole, vec![(PhysPageNum(0x80010), 0, 4096), (PhysPageNum(0x80011), 0, 4096)]);
    assert!(translated_byte_buffer(&mem, pt.token(), 0x10000, 0).is_empty());
}

#[test]
fn vmprint_lists_valid_entries_depth_first() {
    let (mut mem, mut fa) = system();
    let mut pt = PageTable::new(&mem, &mut fa);
    pt.map(&mut mem, &mut fa, VirtPageNum(0x10), PhysPageNum(0x80010), PTEFlags::R());
    let (root_pa, lines) = vmprint(&pt, &mem);
    assert_eq!(root_pa, 0x8000_0000);
    assert_eq!(lines.len(), 3);
    assert_eq!((lines[0].0, lines[0].1), (0, 0));
    assert_eq!((lines[1].0, lines[1].1), (1, 0));
    assert_eq!(lines[2], (2, 0x10, (0x80010 << 10) | 0b11));
}
