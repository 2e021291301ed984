//! Process-related system calls.
use vstd::prelude::*;
use crate::task::{TaskManager, next_ready, with_status};
use crate::task::task::TaskStatus;

verus! {

/// Ends the running task: marks it exited and picks the next task, giving
/// the (previous, next) task indexes to switch between, or `None` when no
/// task is left to run.
pub fn sys_exit(manager: &mut TaskManager, exit_code: i32) -> (r: Option<(usize, usize)>)
    requires
        old(manager).wf(),
        old(manager).count() > 0,
    ensures
        final(manager).wf(),
        ({
            let st = old(manager).task_states().update(old(manager).current(), TaskStatus::Zombie);
            let marked = with_status(old(manager).task_list(), old(manager).current(), TaskStatus::Zombie);
            &&& match next_ready(st, old(manager).current(), old(manager).count()) {
                Some(next) => final(manager).task_list() == with_status(marked, next, TaskStatus::Running),
                None => final(manager).task_list() == marked,
            }
            &&& match next_ready(st, old(manager).current(), old(manager).count()) {
                Some(next) => r == Some((old(manager).current() as usize, next as usize))
                    && final(manager).current() == next && final(manager).task_states()
                    == st.update(next, TaskStatus::Running),
                None => r is None && final(manager).task_states() == st,
            }
        }),
{
    manager.exit_current_and_run_next()
}

/// Gives up the processor: marks the running task ready and picks the next
/// one. The call returns 0 to the task once it runs again.
pub fn sys_yield(manager: &mut TaskManager) -> (r: Option<(usize, usize)>)
    requires
        old(manager).wf(),
        old(manager).count() > 0,
    ensures
        final(manager).wf(),
        ({
            let st = old(manager).task_states().update(old(manager).current(), TaskStatus::Ready);
            let marked = with_status(old(manager).task_list(), old(manager).current(), TaskStatus::Ready);
            &&& match next_ready(st, old(manager).current(), old(manager).count()) {
                Some(next) => final(manager).task_list() == with_status(marked, next, TaskStatus::Running),
                None => final(manager).task_list() == marked,
            }
            &&& match next_ready(st, old(manager).current(), old(manager).count()) {
                Some(next) => r == Some((old(manager).current() as usize, next as usize))
                    && final(manager).current() == next && final(manager).task_states()
                    == st.update(next, TaskStatus::Running),
                None => r is None,
            }
        }),
{
    manager.suspend_current_and_run_next()
}

/// The current time in microseconds, for `time` counter value `time`.
pub fn sys_get_time(time: usize) -> (r: isize)
    ensures
        r == time / 12,
{
    let ms = crate::timer::get_time_ms(time);
    ms as isize
}

/// What the running task reports about itself: its address-space token,
/// trap-context frame, data size and run times.
pub fn sys_taskinfo(manager: &TaskManager) -> (r: crate::task::task::TaskInfo)
    requires
        manager.wf(),
        manager.count() > 0,
    ensures
        ({
            let t = manager.task_list()[manager.current()].inner;
            &&& r.root_pagetable == t.user_token
            &&& r.base_size == t.base_size
            &&& r.runtime_in_kernel == t.runtime_in_kernel
            &&& r.runtime_in_user == t.runtime_in_user
            &&& r.trap_cx_ppn == t.trap_cx_ppn
        }),
{
    let current = manager.current_task().inner_ref();
    crate::task::task::TaskInfo {
        root_pagetable: manager.current_user_token(),
        base_size: current.base_size,
        runtime_in_kernel: current.runtime_in_kernel,
        runtime_in_user: current.runtime_in_user,
        trap_cx_ppn: current.trap_cx_ppn,
    }
}

} // verus!
