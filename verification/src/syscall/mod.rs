//! System calls: decoding a request, and the calls whose work is the
//! kernel's own bookkeeping.
use vstd::prelude::*;

pub mod fs;
pub mod process;
pub mod memory;

use crate::user_syscall as U;
use crate::task::task::TaskControlBlockInner;

verus! {

const SYS_READ: usize = 63;
const SYS_WRITE: usize = 64;
const SYS_EXIT: usize = 93;
const SYS_YIELD: usize = 124;
const SYS_GET_TIME: usize = 169;
const SYS_TRACE: usize = 94;
const SYS_TASKINFO: usize = 410;
const SYS_MMAP: usize = 222;
const SYS_MUNMAP: usize = 215;
const SYS_LS: usize = 216;
const SYS_SPAWN: usize = 400;
const SYS_GETPID: usize = 172;
const SYS_FORK: usize = 220;
const SYS_EXEC: usize = 221;
const SYS_WAITPID: usize = 260;

/// A decoded system call with its arguments.
#[derive(Clone, Copy, Debug, PartialEq, Eq, Structural)]
pub enum SyscallCall {
    Read { fd: usize, buf: usize, len: usize },
    Write { fd: usize, buf: usize, len: usize },
    Exit { exit_code: i32 },
    Yield,
    GetTime,
    GetPid,
    Fork,
    Exec { path: usize },
    Waitpid { pid: isize, exit_code_ptr: usize },
    TaskInfo { info: usize },
    Mmap { start: usize, len: usize, prot: usize },
    Munmap { start: usize, len: usize },
    Ls,
    Spawn { path: usize },
    Trace,
}

/// The call that number `id` with argument words `a` stands for, or `None`
/// for a number the kernel does not support.
pub open spec fn decoded(id: usize, a: Seq<usize>) -> Option<SyscallCall> {
    if id == 63 {
        Some(SyscallCall::Read { fd: a[0], buf: a[1], len: a[2] })
    } else if id == 64 {
        Some(SyscallCall::Write { fd: a[0], buf: a[1], len: a[2] })
    } else if id == 93 {
        Some(SyscallCall::Exit { exit_code: a[0] as i32 })
    } else if id == 124 {
        Some(SyscallCall::Yield)
    } else if id == 169 {
        Some(SyscallCall::GetTime)
    } else if id == 172 {
        Some(SyscallCall::GetPid)
    } else if id == 220 {
        Some(SyscallCall::Fork)
    } else if id == 221 {
        Some(SyscallCall::Exec { path: a[0] })
    } else if id == 260 {
        Some(SyscallCall::Waitpid { pid: a[0] as isize, exit_code_ptr: a[1] })
    } else if id == 410 {
        Some(SyscallCall::TaskInfo { info: a[0] })
    } else if id == 222 {
        Some(SyscallCall::Mmap { start: a[0], len: a[1], prot: a[2] })
    } else if id == 215 {
        Some(SyscallCall::Munmap { start: a[0], len: a[1] })
    } else if id == 216 {
        Some(SyscallCall::Ls)
    } else if id == 400 {
        Some(SyscallCall::Spawn { path: a[0] })
    } else if id == 94 {
        Some(SyscallCall::Trace)
    } else {
        None
    }
}

/// The call that number `id` with argument words `a0`, `a1`, `a2` stands for.
pub open spec fn decoded3(id: usize, a0: usize, a1: usize, a2: usize) -> Option<SyscallCall> {
    decoded(id, seq![a0, a1, a2])
}

/// Decodes the system call with number `syscall_id` and argument words
/// `args`; `None` for an unsupported number.
pub fn decode_syscall(syscall_id: usize, args: [usize; 3]) -> (r: Option<SyscallCall>)
    ensures
        r == decoded(syscall_id, args@),
{
    if syscall_id == SYS_READ {
        Some(SyscallCall::Read { fd: args[0], buf: args[1], len: args[2] })
    } else if syscall_id == SYS_WRITE {
        Some(SyscallCall::Write { fd: args[0], buf: args[1], len: args[2] })
    } else if syscall_id == SYS_EXIT {
        Some(SyscallCall::Exit { exit_code: args[0] as i32 })
    } else if syscall_id == SYS_YIELD {
        Some(SyscallCall::Yield)
    } else if syscall_id == SYS_GET_TIME {
        Some(SyscallCall::GetTime)
    } else if syscall_id == SYS_GETPID {
        Some(SyscallCall::GetPid)
    } else if syscall_id == SYS_FORK {
        Some(SyscallCall::Fork)
    } else if syscall_id == SYS_EXEC {
        Some(SyscallCall::Exec { path: args[0] })
    } else if syscall_id == SYS_WAITPID {
        Some(SyscallCall::Waitpid { pid: args[0] as isize, exit_code_ptr: args[1] })
    } else if syscall_id == SYS_TASKINFO {
        Some(SyscallCall::TaskInfo { info: args[0] })
    } else if syscall_id == SYS_MMAP {
        Some(SyscallCall::Mmap { start: args[0], len: args[1], prot: args[2] })
    } else if syscall_id == SYS_MUNMAP {
        Some(SyscallCall::Munmap { start: args[0], len: args[1] })
    } else if syscall_id == SYS_LS {
        Some(SyscallCall::Ls)
    } else if syscall_id == SYS_SPAWN {
        Some(SyscallCall::Spawn { path: args[0] })
    } else if syscall_id == SYS_TRACE {
        Some(SyscallCall::Trace)
    } else {
        None
    }
}

/// The time, in milliseconds, of the last system-call entry: the user time
/// of a task is measured from it to the next entry.
pub struct SyscallClock {
    last_entry: usize,
}

impl SyscallClock {
    /// The time of the last system-call entry.
    pub closed spec fn last(&self) -> int {
        self.last_entry as int
    }

    /// The time of the last entry is a `usize` value.
    pub proof fn lemma_bounds(&self)
        ensures
            0 <= self.last() <= usize::MAX,
    {
    }

    /// The time of the last system-call entry.
    pub fn last_entry(&self) -> (r: usize)
        ensures
            r == self.last(),
    {
        self.last_entry
    }

    /// A clock that has seen no system call yet.
    pub fn new() -> (r: Self)
        ensures
            r.last() == 0,
    {
        SyscallClock { last_entry: 0 }
    }

    /// On entry to a system call at `now`: charges the time since the last
    /// entry to `task` as user time and remembers `now`.
    pub fn enter(&mut self, task: &mut TaskControlBlockInner, now: usize)
        requires
            old(self).last() <= now,
            old(task).runtime_in_user + (now - old(self).last()) <= usize::MAX,
        ensures
            final(self).last() == now,
            final(task).runtime_in_user == old(task).runtime_in_user + (now - old(self).last()),
            final(task).runtime_in_kernel == old(task).runtime_in_kernel,
            final(task).task_status == old(task).task_status,
            final(task).user_token == old(task).user_token,
            final(task).base_size == old(task).base_size,
            final(task).children@ == old(task).children@,
            final(task).parent == old(task).parent,
            final(task).exit_code == old(task).exit_code,
            final(task).trap_cx_ppn == old(task).trap_cx_ppn,
    {
        task.increase_user_timer(now - self.last_entry);
        self.last_entry = now;
    }

    /// On return from a system call that began at `before` and ends at
    /// `after`: charges its duration to `task` as kernel time.
    pub fn leave(&self, task: &mut TaskControlBlockInner, before: usize, after: usize)
        requires
            before <= after,
            old(task).runtime_in_kernel + (after - before) <= usize::MAX,
        ensures
            final(task).runtime_in_kernel == old(task).runtime_in_kernel + (after - before),
            final(task).runtime_in_user == old(task).runtime_in_user,
            final(task).task_status == old(task).task_status,
            final(task).user_token == old(task).user_token,
            final(task).base_size == old(task).base_size,
            final(task).children@ == old(task).children@,
            final(task).parent == old(task).parent,
            final(task).exit_code == old(task).exit_code,
            final(task).trap_cx_ppn == old(task).trap_cx_ppn,
    {
        task.increase_kernel_timer(after - before);
    }
}

proof fn lemma_i32_roundtrip(c: i32)
    ensures
        (c as usize) as i32 == c,
{
    assert((c as usize) as i32 == c) by (bit_vector);
}

proof fn lemma_isize_roundtrip(p: isize)
    ensures
        (p as usize) as isize == p,
{
    assert((p as usize) as isize == p) by (bit_vector);
}

/// The user library and the kernel agree on the system-call interface:
/// every request the user library builds decodes, in the kernel, to the
/// call with the same arguments.
pub proof fn lemma_user_requests_decode()
    ensures
        forall|fd: usize, buf: usize, len: usize|
            #![trigger decoded3(U::SYS_READ, fd, buf, len)]
            decoded3(U::SYS_READ, fd, buf, len) == Some(SyscallCall::Read { fd, buf, len }),
        forall|fd: usize, buf: usize, len: usize|
            #![trigger decoded3(U::SYS_WRITE, fd, buf, len)]
            decoded3(U::SYS_WRITE, fd, buf, len) == Some(SyscallCall::Write { fd, buf, len }),
        forall|c: i32|
            #![trigger decoded3(U::SYS_EXIT, c as usize, 0usize, 0usize)]
            decoded3(U::SYS_EXIT, c as usize, 0usize, 0usize) == Some(
                SyscallCall::Exit { exit_code: c },
            ),
        decoded3(U::SYS_YIELD, 0usize, 0usize, 0usize) == Some(SyscallCall::Yield),
        decoded3(U::SYS_GET_TIME, 0usize, 0usize, 0usize) == Some(SyscallCall::GetTime),
        decoded3(U::SYS_GETPID, 0usize, 0usize, 0usize) == Some(SyscallCall::GetPid),
        decoded3(U::SYS_FORK, 0usize, 0usize, 0usize) == Some(SyscallCall::Fork),
        forall|path: usize|
            #![trigger decoded3(U::SYS_EXEC, path, 0usize, 0usize)]
            decoded3(U::SYS_EXEC, path, 0usize, 0usize) == Some(SyscallCall::Exec { path }),
        forall|pid: isize, e: usize|
            #![trigger decoded3(U::SYS_WAITPID, pid as usize, e, 0usize)]
            decoded3(U::SYS_WAITPID, pid as usize, e, 0usize) == Some(
                SyscallCall::Waitpid { pid, exit_code_ptr: e },
            ),
        decoded3(U::SYS_LS, 0usize, 0usize, 0usize) == Some(SyscallCall::Ls),
        decoded3(U::SYS_TRACE, 0usize, 0usize, 0usize) == Some(SyscallCall::Trace),
        forall|start: usize, len: usize, prot: usize|
            #![trigger decoded3(U::SYS_MMAP, start, len, prot)]
            decoded3(U::SYS_MMAP, start, len, prot) == Some(
                SyscallCall::Mmap { start, len, prot },
            ),
        forall|start: usize, len: usize|
            #![trigger decoded3(U::SYS_MUNMAP, start, len, 0usize)]
            decoded3(U::SYS_MUNMAP, start, len, 0usize) == Some(
                SyscallCall::Munmap { start, len },
            ),
        forall|path: usize|
            #![trigger decoded3(U::SYS_SPAWN, path, 0usize, 0usize)]
            decoded3(U::SYS_SPAWN, path, 0usize, 0usize) == Some(SyscallCall::Spawn { path }),
{
    assert forall|c: i32| #![trigger decoded3(U::SYS_EXIT, c as usize, 0usize, 0usize)]
        decoded3(U::SYS_EXIT, c as usize, 0usize, 0usize) == Some(
        SyscallCall::Exit { exit_code: c },
    ) by {
        lemma_i32_roundtrip(c);
    }
    assert forall|pid: isize, e: usize|
        #![trigger decoded3(U::SYS_WAITPID, pid as usize, e, 0usize)]
        decoded3(U::SYS_WAITPID, pid as usize, e, 0usize) == Some(
        SyscallCall::Waitpid { pid, exit_code_ptr: e },
    ) by {
        lemma_isize_roundtrip(pid);
    }
}

/// Decoding hands every argument word to the call unchanged: for each
/// number of the kernel's table the decoded call carries the argument
/// words as they came (the signed ones reinterpreted bit for bit), and
/// every other number decodes to nothing.
pub proof fn lemma_decode_keeps_arguments(id: usize, a0: usize, a1: usize, a2: usize)
    ensures
        id == 63 ==> decoded3(id, a0, a1, a2) == Some(SyscallCall::Read { fd: a0, buf: a1, len: a2 }),
        id == 64 ==> decoded3(id, a0, a1, a2) == Some(SyscallCall::Write { fd: a0, buf: a1, len: a2 }),
        id == 93 ==> decoded3(id, a0, a1, a2) == Some(SyscallCall::Exit { exit_code: a0 as i32 }),
        id == 124 ==> decoded3(id, a0, a1, a2) == Some(SyscallCall::Yield),
        id == 169 ==> decoded3(id, a0, a1, a2) == Some(SyscallCall::GetTime),
        id == 172 ==> decoded3(id, a0, a1, a2) == Some(SyscallCall::GetPid),
        id == 220 ==> decoded3(id, a0, a1, a2) == Some(SyscallCall::Fork),
        id == 221 ==> decoded3(id, a0, a1, a2) == Some(SyscallCall::Exec { path: a0 }),
        id == 260 ==> decoded3(id, a0, a1, a2) == Some(
            SyscallCall::Waitpid { pid: a0 as isize, exit_code_ptr: a1 },
        ),
        id == 410 ==> decoded3(id, a0, a1, a2) == Some(SyscallCall::TaskInfo { info: a0 }),
        id == 222 ==> decoded3(id, a0, a1, a2) == Some(SyscallCall::Mmap { start: a0, len: a1, prot: a2 }),
        id == 215 ==> decoded3(id, a0, a1, a2) == Some(SyscallCall::Munmap { start: a0, len: a1 }),
        id == 216 ==> decoded3(id, a0, a1, a2) == Some(SyscallCall::Ls),
        id == 400 ==> decoded3(id, a0, a1, a2) == Some(SyscallCall::Spawn { path: a0 }),
        id == 94 ==> decoded3(id, a0, a1, a2) == Some(SyscallCall::Trace),
        !(id == 63 || id == 64 || id == 93 || id == 124 || id == 169 || id == 172 || id == 220
            || id == 221 || id == 260 || id == 410 || id == 222 || id == 215 || id == 216 || id
            == 400 || id == 94) ==> decoded3(id, a0, a1, a2) is None,
{
}

} // verus!
