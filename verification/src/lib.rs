//! Core logic of a small RISC-V teaching kernel (SV39 address arithmetic,
//! a stack-style frame allocator, three-level page tables, the easy-fs
//! allocation bitmap, round-robin task scheduling and the system-call
//! argument handling), with its behaviour stated and proved.

pub mod config;
pub mod mm;
pub mod fs;
pub mod task;
pub mod timer;
pub mod user_syscall;
pub mod syscall;
pub mod hanoi;
pub mod batch;
