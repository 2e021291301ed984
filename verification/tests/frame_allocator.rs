use rcore_kernel::mm::address::PhysPageNum;
use rcore_kernel::mm::frame_allocator::{
    frame_alloc, frame_dealloc, init_frame_allocator, FrameTracker, StackFrameAllocator,
};
use rcore_kernel::mm::phys_mem::PhysMem;

fn setup(l: usize, r: usize) -> (StackFrameAllocator, PhysMem) {
    let mut fa = StackFrameAllocator::new();
    fa.init(PhysPageNum(l), PhysPageNum(r));
    (fa, PhysMem::new(l, r - l))
}

#[test]
fn new_allocator_hands_out_nothing() {
    let mut fa = StackFrameAllocator::new();
    assert!(fa.allocate().is_none());
}

#[test]
fn allocates_fresh_frames_in_order_then_runs_out() {
    let (mut fa, _mem) = setup(0x80000, 0x80003);
    assert_eq!(fa.allocate(), Some(PhysPageNum(0x80000)));
    assert_eq!(fa.allocate(), Some(PhysPageNum(0x80001)));
    assert_eq!(fa.allocate(), Some(PhysPageNum(0x80002)));
    assert_eq!(fa.allocate(), None);
}

#[test]
fn freed_frame_is_handed_out_first() {
    let (mut fa, mut mem) = setup(0x80000, 0x80010);
    let a = fa.allocate().unwrap();
    let b = fa.allocate().unwrap();
    fa.dealloc(a, &mut mem);
    assert_eq!(fa.allocate(), Some(a));
    assert_eq!(fa.allocate(), Some(PhysPageNum(0x80002)));
    assert_ne!(a, b);
}

#[test]
fn frames_come_back_last_in_first_out() {
    // five frames, all given back in order, are handed out again in reverse
    let (mut fa, mut mem) = setup(0x80000, 0x80010);
    let mut v: Vec<FrameTracker> = Vec::new();
    for _ in 0..5 {
        v.push(frame_alloc(&mut fa).unwrap());
    }
    let firsts: Vec<usize> = v.iter().map(|f| f.ppn.0).collect();
    assert_eq!(firsts, vec![0x80000, 0x80001, 0x80002, 0x80003, 0x80004]);
    for f in v.drain(..) {
        frame_dealloc(&mut fa, &mut mem, f.ppn);
    }
    for _ in 0..5 {
        v.push(frame_alloc(&mut fa).unwrap());
    }
    let seconds: Vec<usize> = v.iter().map(|f| f.ppn.0).collect();
    assert_eq!(seconds, vec![0x80004, 0x80003, 0x80002, 0x80001, 0x80000]);
}

#[test]
fn dealloc_clears_the_frame() {
    let (mut fa, mut mem) = setup(0x80000, 0x80004);
    let a = fa.allocate().unwrap();
    mem.write(a.0, 3, 0xdead);
    mem.write(0x80003, 0, 7);
    assert_eq!(mem.read(a.0, 3), 0xdead);
    fa.dealloc(a, &mut mem);
    assert_eq!(mem.read(a.0, 3), 0);
    assert_eq!(mem.read(0x80003, 0), 7);
}

#[test]
fn only_frames_in_use_may_be_given_back() {
    let (mut fa, mut mem) = setup(0x80000, 0x80010);
    let a = fa.allocate().unwrap();
    assert!(fa.can_dealloc(a));
    assert!(!fa.can_dealloc(PhysPageNum(0x80001)));
    fa.dealloc(a, &mut mem);
    assert!(!fa.can_dealloc(a));
}

#[test]
fn init_from_kernel_end() {
    let mut fa = StackFrameAllocator::new();
    let n = init_frame_allocator(&mut fa, 0x8020_1234);
    assert_eq!(n, 0x88000 - 0x80202);
    assert_eq!(fa.allocate(), Some(PhysPageNum(0x80202)));
}

#[test]
fn free_frames_counts_fresh_and_recycled() {
    let (mut fa, mut mem) = setup(0x80000, 0x80004);
    assert_eq!(fa.free_frames(), 4);
    let a = fa.allocate().unwrap();
    let _b = fa.allocate().unwrap();
    assert_eq!(fa.free_frames(), 2);
    fa.dealloc(a, &mut mem);
    assert_eq!(fa.free_frames(), 3);
    let mut empty = StackFrameAllocator::new();
    assert_eq!(empty.free_frames(), 0);
    empty.init(PhysPageNum(5), PhysPageNum(2));
    assert_eq!(empty.free_frames(), 0);
}

#[test]
fn phys_mem_holds_its_frames() {
    let mem = PhysMem::new(0x80000, 4);
    assert!(mem.contains(0x80000));
    assert!(mem.contains(0x80003));
    assert!(!mem.contains(0x80004));
    assert!(!mem.contains(0x7ffff));
    assert_eq!(mem.read(0x80002, 511), 0);
}
