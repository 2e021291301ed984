//! Memory management: addresses, physical memory, frames and page tables.

pub mod address;
pub mod range;
pub mod phys_mem;
pub mod frame_allocator;
pub mod page_table;
