//! The user-library side of system calls: each call is a system-call
//! number and three argument words, which `ecall` hands to the kernel.
use vstd::prelude::*;

verus! {

pub const SYS_READ: usize = 63;
pub const SYS_WRITE: usize = 64;
pub const SYS_EXIT: usize = 93;
pub const SYS_YIELD: usize = 124;
pub const SYS_GET_TIME: usize = 169;
pub const SYS_GETPID: usize = 172;
pub const SYS_FORK: usize = 220;
pub const SYS_EXEC: usize = 221;
pub const SYS_WAITPID: usize = 260;
pub const SYS_TRACE: usize = 94;
pub const SYS_MMAP: usize = 222;
pub const SYS_MUNMAP: usize = 215;
pub const SYS_SPAWN: usize = 400;
pub const SYS_LS: usize = 216;

/// A system call as passed to the kernel: its number (register a7) and
/// its argument words (registers a0, a1, a2).
#[derive(Clone, Copy, Debug, PartialEq, Eq)]
pub struct SyscallRequest {
    pub id: usize,
    pub args: [usize; 3],
}

fn make(id: usize, a0: usize, a1: usize, a2: usize) -> (r: SyscallRequest)
    ensures
        r.id == id,
        r.args@ == seq![a0, a1, a2],
{
    let r = SyscallRequest { id, args: [a0, a1, a2] };
    assert(r.args@ =~= seq![a0, a1, a2]);
    r
}

/// Reads up to `len` bytes from file `fd` into the buffer at `buf_addr`.
pub fn sys_read(fd: usize, buf_addr: usize, len: usize) -> (r: SyscallRequest)
    ensures
        r.id == SYS_READ,
        r.args@ == seq![fd, buf_addr, len],
{
    make(SYS_READ, fd, buf_addr, len)
}

/// Writes the `len` bytes at `buf_addr` to file `fd`.
pub fn sys_write(fd: usize, buf_addr: usize, len: usize) -> (r: SyscallRequest)
    ensures
        r.id == SYS_WRITE,
        r.args@ == seq![fd, buf_addr, len],
{
    make(SYS_WRITE, fd, buf_addr, len)
}

/// Ends the calling task with `exit_code`; the kernel never returns from it.
pub fn sys_exit(exit_code: i32) -> (r: SyscallRequest)
    ensures
        r.id == SYS_EXIT,
        r.args@ == seq![exit_code as usize, 0usize, 0usize],
{
    make(SYS_EXIT, exit_code as usize, 0, 0)
}

/// Gives up the processor.
pub fn sys_yield() -> (r: SyscallRequest)
    ensures
        r.id == SYS_YIELD,
        r.args@ == seq![0usize, 0usize, 0usize],
{
    make(SYS_YIELD, 0, 0, 0)
}

/// Asks for the time in milliseconds.
pub fn sys_get_time() -> (r: SyscallRequest)
    ensures
        r.id == SYS_GET_TIME,
        r.args@ == seq![0usize, 0usize, 0usize],
{
    make(SYS_GET_TIME, 0, 0, 0)
}

/// Asks for the caller's process id.
pub fn sys_getpid() -> (r: SyscallRequest)
    ensures
        r.id == SYS_GETPID,
        r.args@ == seq![0usize, 0usize, 0usize],
{
    make(SYS_GETPID, 0, 0, 0)
}

/// Creates a copy of the calling process.
pub fn sys_fork() -> (r: SyscallRequest)
    ensures
        r.id == SYS_FORK,
        r.args@ == seq![0usize, 0usize, 0usize],
{
    make(SYS_FORK, 0, 0, 0)
}

/// Replaces the caller's program by the one named by the string at
/// `path_addr`.
pub fn sys_exec(path_addr: usize) -> (r: SyscallRequest)
    ensures
        r.id == SYS_EXEC,
        r.args@ == seq![path_addr, 0usize, 0usize],
{
    make(SYS_EXEC, path_addr, 0, 0)
}

/// Waits for child `pid` (-1: any child) and stores its exit code at
/// `exit_code_addr`.
pub fn sys_waitpid(pid: isize, exit_code_addr: usize) -> (r: SyscallRequest)
    ensures
        r.id == SYS_WAITPID,
        r.args@ == seq![pid as usize, exit_code_addr, 0usize],
{
    make(SYS_WAITPID, pid as usize, exit_code_addr, 0)
}

/// Lists the applications.
pub fn sys_ls() -> (r: SyscallRequest)
    ensures
        r.id == SYS_LS,
        r.args@ == seq![0usize, 0usize, 0usize],
{
    make(SYS_LS, 0, 0, 0)
}

/// Prints the kernel's stack trace.
pub fn sys_trace() -> (r: SyscallRequest)
    ensures
        r.id == SYS_TRACE,
        r.args@ == seq![0usize, 0usize, 0usize],
{
    make(SYS_TRACE, 0, 0, 0)
}

/// Maps `len` bytes of fresh memory at `start` with permissions `perm`
/// (bit 0 read, bit 1 write, bit 2 execute).
pub fn sys_mmap(start: usize, len: usize, perm: usize) -> (r: SyscallRequest)
    ensures
        r.id == SYS_MMAP,
        r.args@ == seq![start, len, perm],
{
    make(SYS_MMAP, start, len, perm)
}

/// Unmaps the `len` bytes at `start`.
pub fn sys_munmap(start: usize, len: usize) -> (r: SyscallRequest)
    ensures
        r.id == SYS_MUNMAP,
        r.args@ == seq![start, len, 0usize],
{
    make(SYS_MUNMAP, start, len, 0)
}

/// Starts a child running the program named by the string at `file_addr`.
pub fn sys_spawn(file_addr: usize) -> (r: SyscallRequest)
    ensures
        r.id == SYS_SPAWN,
        r.args@ == seq![file_addr, 0usize, 0usize],
{
    make(SYS_SPAWN, file_addr, 0, 0)
}

} // verus!
