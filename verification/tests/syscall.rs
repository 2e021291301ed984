use rcore_kernel::fs::bitmap::{Bitmap, BitmapBlock};
use rcore_kernel::fs::dir::{create, Directory, InodeTable};
use rcore_kernel::mm::address::{PhysPageNum, VirtPageNum};
use rcore_kernel::mm::frame_allocator::StackFrameAllocator;
use rcore_kernel::mm::page_table::PageTable;
use rcore_kernel::mm::phys_mem::PhysMem;
use rcore_kernel::syscall::decode_syscall;
use rcore_kernel::syscall::fs::{sys_close, sys_fstat, sys_open, sys_read, sys_write, FdTable, InodeStat, OpenFile, Stat, StatMode};
use rcore_kernel::syscall::memory::{mmap_frames_needed, sys_mmap, sys_munmap};
use rcore_kernel::syscall::{SyscallCall, SyscallClock};
use rcore_kernel::task::task::TaskControlBlock;
use rcore_kernel::user_syscall;

fn stdio() -> FdTable {
    let stdin = OpenFile { readable: true, writable: false, inode_id: 0 };
    let stdout = OpenFile { readable: false, writable: true, inode_id: 1 };
    FdTable::new(vec![Some(stdin), Some(stdout), Some(stdout)])
}

#[test]
fn decode_known_numbers() {
    assert_eq!(
        decode_syscall(64, [1, 0x1000, 5]),
        Some(SyscallCall::Write { fd: 1, buf: 0x1000, len: 5 })
    );
    assert_eq!(
        decode_syscall(63, [0, 0x2000, 7]),
        Some(SyscallCall::Read { fd: 0, buf: 0x2000, len: 7 })
    );
    assert_eq!(decode_syscall(124, [9, 9, 9]), Some(SyscallCall::Yield));
    assert_eq!(decode_syscall(169, [0, 0, 0]), Some(SyscallCall::GetTime));
    assert_eq!(
        decode_syscall(222, [0x514000, 100, 3]),
        Some(SyscallCall::Mmap { start: 0x514000, len: 100, prot: 3 })
    );
    assert_eq!(
        decode_syscall(215, [0x514000, 100, 0]),
        Some(SyscallCall::Munmap { start: 0x514000, len: 100 })
    );
    assert_eq!(decode_syscall(410, [0x3000, 0, 0]), Some(SyscallCall::TaskInfo { info: 0x3000 }));
    assert_eq!(decode_syscall(94, [0, 0, 0]), Some(SyscallCall::Trace));
}

#[test]
fn decode_unknown_number() {
    assert_eq!(decode_syscall(999, [0, 0, 0]), None);
    assert_eq!(decode_syscall(0, [1, 2, 3]), None);
}

#[test]
fn decode_signed_arguments() {
    assert_eq!(decode_syscall(93, [usize::MAX, 0, 0]), Some(SyscallCall::Exit { exit_code: -1 }));
    assert_eq!(
        decode_syscall(260, [usize::MAX, 0x4000, 0]),
        Some(SyscallCall::Waitpid { pid: -1, exit_code_ptr: 0x4000 })
    );
}

#[test]
fn user_requests_reach_the_kernel_unchanged() {
    let r = user_syscall::sys_exit(-3);
    assert_eq!(decode_syscall(r.id, r.args), Some(SyscallCall::Exit { exit_code: -3 }));
    let r = user_syscall::sys_waitpid(-1, 0x4000);
    assert_eq!(decode_syscall(r.id, r.args), Some(SyscallCall::Waitpid { pid: -1, exit_code_ptr: 0x4000 }));
    let r = user_syscall::sys_write(1, 0x1000, 12);
    assert_eq!(decode_syscall(r.id, r.args), Some(SyscallCall::Write { fd: 1, buf: 0x1000, len: 12 }));
    let r = user_syscall::sys_mmap(0x514000, 100, 3);
    assert_eq!(decode_syscall(r.id, r.args), Some(SyscallCall::Mmap { start: 0x514000, len: 100, prot: 3 }));
    let r = user_syscall::sys_munmap(0x514000, 100);
    assert_eq!(decode_syscall(r.id, r.args), Some(SyscallCall::Munmap { start: 0x514000, len: 100 }));
    let r = user_syscall::sys_spawn(0x7000);
    assert_eq!(decode_syscall(r.id, r.args), Some(SyscallCall::Spawn { path: 0x7000 }));
    let r = user_syscall::sys_fork();
    assert_eq!(decode_syscall(r.id, r.args), Some(SyscallCall::Fork));
    let r = user_syscall::sys_getpid();
    assert_eq!(decode_syscall(r.id, r.args), Some(SyscallCall::GetPid));
}

#[test]
fn user_request_numbers() {
    assert_eq!(user_syscall::sys_read(0, 0x10, 1).id, 63);
    assert_eq!(user_syscall::sys_read(0, 0x10, 1).args, [0, 0x10, 1]);
    assert_eq!(user_syscall::sys_yield().id, 124);
    assert_eq!(user_syscall::sys_get_time().id, 169);
    assert_eq!(user_syscall::sys_exec(0x99).args, [0x99, 0, 0]);
    assert_eq!(user_syscall::sys_exec(0x99).id, 221);
    assert_eq!(user_syscall::sys_ls().id, 216);
    assert_eq!(user_syscall::sys_trace().id, 94);
}

#[test]
fn write_needs_a_writable_descriptor() {
    let t = stdio();
    assert_eq!(sys_write(&t, 0), Err(-1));
    assert_eq!(sys_write(&t, 1).unwrap().inode_id, 1);
    assert_eq!(sys_write(&t, 3), Err(-1));
}

#[test]
fn read_needs_a_readable_descriptor() {
    let t = stdio();
    assert_eq!(sys_read(&t, 0).unwrap().inode_id, 0);
    assert_eq!(sys_read(&t, 1), Err(-1));
    assert_eq!(sys_read(&t, 7), Err(-1));
}

#[test]
fn open_takes_the_lowest_free_descriptor() {
    let mut t = stdio();
    let f = OpenFile { readable: true, writable: true, inode_id: 5 };
    assert_eq!(sys_open(&mut t, Some(f), b"filea".to_vec()), 3);
    assert_eq!(t.len(), 4);
    assert_eq!(sys_close(&mut t, 1), 0);
    let g = OpenFile { readable: true, writable: false, inode_id: 6 };
    assert_eq!(sys_open(&mut t, Some(g), b"fileb".to_vec()), 1);
    assert_eq!(t.len(), 4);
    assert_eq!(sys_read(&t, 1).unwrap().inode_id, 6);
    assert_eq!(sys_open(&mut t, None, b"none".to_vec()), -1);
    assert_eq!(t.len(), 4);
}

#[test]
fn close_twice_fails() {
    let mut t = stdio();
    assert_eq!(sys_close(&mut t, 2), 0);
    assert_eq!(sys_close(&mut t, 2), -1);
    assert_eq!(sys_close(&mut t, 40), -1);
    assert_eq!(sys_write(&t, 2), Err(-1));
}

#[test]
fn close_after_open_frees_the_slot() {
    let mut t = stdio();
    let f = OpenFile { readable: true, writable: true, inode_id: 8 };
    let fd = sys_open(&mut t, Some(f), b"filea".to_vec());
    assert_eq!(sys_close(&mut t, fd as usize), 0);
    assert_eq!(t.alloc_fd(), fd as usize);
}

#[test]
fn stat_of_file_and_directory() {
    let s = Stat::of_inode(InodeStat { ino: 7, nlink: 1, is_file: true });
    assert_eq!(s.dev, 0);
    assert_eq!(s.ino, 7);
    assert_eq!(s.mode, StatMode::FILE());
    assert_eq!(s.nlink, 1);
    assert_eq!(s.pad, [0; 7]);
    let d = Stat::of_inode(InodeStat { ino: 0, nlink: 2, is_file: false });
    assert_eq!(d.mode, StatMode::DIR());
    assert!(StatMode::NULL() != StatMode::FILE());
}

fn address_space() -> (PhysMem, StackFrameAllocator, PageTable) {
    let mem = PhysMem::new(0x80000, 0x40);
    let mut fa = StackFrameAllocator::new();
    fa.init(PhysPageNum(0x80000), PhysPageNum(0x80040));
    let pt = PageTable::new(&mem, &mut fa);
    (mem, fa, pt)
}

#[test]
fn mmap_then_munmap() {
    let (mut mem, mut fa, mut pt) = address_space();
    assert_eq!(sys_mmap(&mut pt, &mut mem, &mut fa, 0x514000, 100, 3), 0);
    let e = pt.translate(&mem, VirtPageNum(0x514)).unwrap();
    assert!(e.is_valid() && e.readable() && e.writable() && !e.executable());
    assert_eq!(e.flags().bits(), 0b10111);
    assert_eq!(sys_munmap(&mut pt, &mut mem, &mut fa, 0x514000, 100), 0);
    assert!(pt.translate(&mem, VirtPageNum(0x514)).map_or(true, |e| !e.is_valid()));
}

#[test]
fn mmap_over_a_mapped_page_fails() {
    let (mut mem, mut fa, mut pt) = address_space();
    assert_eq!(sys_mmap(&mut pt, &mut mem, &mut fa, 0x600000, 0x2000, 7), 0);
    assert_eq!(sys_mmap(&mut pt, &mut mem, &mut fa, 0x601000, 0x2000, 1), -1);
    let e = pt.translate(&mem, VirtPageNum(0x601)).unwrap();
    assert!(e.executable());
}

#[test]
fn munmap_of_an_unmapped_page_fails() {
    let (mut mem, mut fa, mut pt) = address_space();
    assert_eq!(sys_munmap(&mut pt, &mut mem, &mut fa, 0x700000, 0x2000), -1);
    assert_eq!(sys_mmap(&mut pt, &mut mem, &mut fa, 0x700000, 0x1000, 2), 0);
    assert_eq!(sys_munmap(&mut pt, &mut mem, &mut fa, 0x700000, 0x1000), 0);
    // The leaf entry stays in place, invalid: a second call finds it and
    // has nothing left to unmap.
    assert_eq!(sys_munmap(&mut pt, &mut mem, &mut fa, 0x700000, 0x1000), 0);
    assert!(!pt.translate(&mem, VirtPageNum(0x700)).unwrap().is_valid());
}

#[test]
fn fstat_reports_the_file_the_descriptor_names() {
    let mut dir = Directory::new();
    let bm = Bitmap::new(0, 1);
    let mut disk: Vec<BitmapBlock> = vec![[0u64; 64]; 1];
    let mut inodes = InodeTable::new(4096);
    create(&mut dir, &bm, &mut disk, &mut inodes, b"filea");
    create(&mut dir, &bm, &mut disk, &mut inodes, b"fileb");
    let mut t = stdio();
    let f = OpenFile { readable: true, writable: false, inode_id: 1 };
    let fd = sys_open(&mut t, Some(f), b"fileb".to_vec()) as usize;
    let st = sys_fstat(&t, fd, &dir, &inodes).unwrap();
    assert_eq!(st.dev, 0);
    assert_eq!(st.ino, 1);
    assert_eq!(st.nlink, 1);
    assert_eq!(st.mode, StatMode::FILE());
    assert_eq!(sys_close(&mut t, fd), 0);
    assert_eq!(sys_fstat(&t, fd, &dir, &inodes).err(), Some(-1));
}

#[test]
fn syscall_clock_charges_user_and_kernel_time() {
    let mut task = TaskControlBlock::new(0, 0x1000, 0, 0x2000, PhysPageNum(1));
    let mut clock = SyscallClock::new();
    clock.enter(&mut task.inner, 30);
    assert_eq!(task.inner.runtime_in_user, 30);
    clock.leave(&mut task.inner, 30, 35);
    assert_eq!(task.inner.runtime_in_kernel, 5);
    clock.enter(&mut task.inner, 50);
    assert_eq!(task.inner.runtime_in_user, 50);
    assert_eq!(task.inner.runtime_in_kernel, 5);
}

#[test]
fn open_records_the_name_and_close_forgets_it() {
    let mut t = stdio();
    assert_eq!(t.name(0), &None);
    let f = OpenFile { readable: true, writable: false, inode_id: 9 };
    let fd = sys_open(&mut t, Some(f), b"114514".to_vec()) as usize;
    assert_eq!(t.name(fd), &Some(b"114514".to_vec()));
    assert_eq!(sys_close(&mut t, fd), 0);
    assert_eq!(t.name(fd), &None);
}

#[test]
fn munmap_gives_the_frames_back() {
    let (mut mem, mut fa, mut pt) = address_space();
    let before = fa.free_frames();
    assert_eq!(sys_mmap(&mut pt, &mut mem, &mut fa, 0x514000, 0x2000, 3), 0);
    let frame = pt.translate(&mem, VirtPageNum(0x515)).unwrap().ppn();
    assert_eq!(before - fa.free_frames(), 4);
    assert_eq!(sys_munmap(&mut pt, &mut mem, &mut fa, 0x514000, 0x2000), 0);
    assert_eq!(before - fa.free_frames(), 2);
    assert_eq!(fa.allocate(), Some(frame));
}

#[test]
fn munmap_of_nothing_changes_nothing() {
    let (mut mem, mut fa, mut pt) = address_space();
    assert_eq!(sys_mmap(&mut pt, &mut mem, &mut fa, 0x514000, 100, 3), 0);
    assert_eq!(sys_munmap(&mut pt, &mut mem, &mut fa, 0x514010, 0), 0);
    assert!(pt.translate(&mem, VirtPageNum(0x514)).unwrap().is_valid());
}

#[test]
fn mmap_in_the_upper_half_is_read_by_its_low_bits() {
    let (mut mem, mut fa, mut pt) = address_space();
    let high = 0xffff_ffc0_0010_0000usize;
    assert_eq!(sys_mmap(&mut pt, &mut mem, &mut fa, high, 0x1000, 1), 0);
    assert!(pt.translate(&mem, VirtPageNum(0x400_0100)).unwrap().is_valid());
    assert_eq!(sys_munmap(&mut pt, &mut mem, &mut fa, high, 0x1000), 0);
    assert!(!pt.translate(&mem, VirtPageNum(0x400_0100)).unwrap().is_valid());
}

#[test]
fn mmap_needs_a_frame_per_page_and_per_missing_table() {
    let (mut mem, mut fa, mut pt) = address_space();
    assert_eq!(mmap_frames_needed(&pt, &mem, 0x514000, 100), 3);
    assert_eq!(mmap_frames_needed(&pt, &mem, 0x514000, 0x2000), 4);
    assert_eq!(sys_mmap(&mut pt, &mut mem, &mut fa, 0x514000, 100, 3), 0);
    assert_eq!(mmap_frames_needed(&pt, &mem, 0x515000, 0x1000), 1);
    assert_eq!(mmap_frames_needed(&pt, &mem, 0x4000_0000, 0x1000), 3);
}

#[test]
fn mmap_next_to_a_mapped_page_maps() {
    let (mut mem, mut fa, mut pt) = address_space();
    assert_eq!(sys_mmap(&mut pt, &mut mem, &mut fa, 0x514000, 0x1000, 3), 0);
    assert_eq!(sys_munmap(&mut pt, &mut mem, &mut fa, 0x514000, 0x1000), 0);
    // The leaf entry of page 0x514 is present but invalid: the page is free.
    assert_eq!(sys_mmap(&mut pt, &mut mem, &mut fa, 0x514000, 0x1000, 3), 0);
    assert!(pt.translate(&mem, VirtPageNum(0x514)).unwrap().is_valid());
}
