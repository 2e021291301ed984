//! Platform constants shared by the kernel modules.
use vstd::prelude::*;

verus! {

/// Size of a page in bytes.
pub const PAGE_SIZE: usize = 0x1000;
/// Number of bits of the offset inside a page.
pub const PAGE_SIZE_BITS: usize = 0xc;
/// Frequency of the `time` counter on the QEMU virt board.
pub const CLOCK_FREQ: usize = 12500000;
/// Physical address where usable memory ends.
pub const MEMORY_END: usize = 0x88000000;
/// Maximal number of applications handled by the task bookkeeping.
pub const MAX_APP_NUM: usize = 16;
/// Size of a disk block of easy-fs in bytes.
pub const BLOCK_SZ: usize = 512;

} // verus!
