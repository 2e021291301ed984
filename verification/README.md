# rcore_kernel

The bookkeeping of a small RISC-V teaching kernel (SV39 paging, a frame
allocator, round-robin tasks, system calls) and of its file system's block
bitmap, written in Verus and proved against its contracts.

- `src/` is the verified library:
  - `mm`: addresses and page numbers, physical memory as frames of words,
    the stack-style frame allocator, and the three-level page table with
    `map`, `unmap`, `translate`, user-buffer translation and dumps;
  - `task`: task control blocks and the task manager's scheduling;
  - `syscall`: decoding system calls, the file-descriptor table, `mmap` and
    `munmap`, and the process calls;
  - `fs`: the block bitmap of the file system, its root directory and its
    inodes (looking up, creating, linking, listing and unlinking files);
  - `batch`, `timer`, `hanoi`, `user_syscall`: the batch loader's
    bookkeeping, time conversions, the Tower of Hanoi program and the user
    side of the system-call interface.
- `tests/` runs the library on concrete values.
- `app/` is the unverified part: the kernel's entry, console output, the
  global state in `UPSafeCell`s, the timer register, the system-call
  dispatcher and the user programs.
