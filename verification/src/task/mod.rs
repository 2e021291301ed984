//! Task management: which task runs, and round-robin switching.
use vstd::prelude::*;

#[allow(clippy::module_inception)]
pub mod task;

use crate::task::task::{TaskControlBlock, TaskControlBlockInner, TaskStatus};

verus! {

/// The first task, in round-robin order after task `cur`, that is ready:
/// the tasks `cur + d` (modulo `n`) are looked at for `d` from `d` up to
/// `n`, so `cur` itself comes last.
pub open spec fn first_ready(st: Seq<TaskStatus>, cur: int, n: int, d: int) -> Option<int>
    decreases n + 1 - d,
{
    if d < 1 || d > n {
        None
    } else if st[(cur + d) % n] == TaskStatus::Ready {
        Some((cur + d) % n)
    } else {
        first_ready(st, cur, n, d + 1)
    }
}

/// The task to switch to after task `cur`, out of `n` tasks.
pub open spec fn next_ready(st: Seq<TaskStatus>, cur: int, n: int) -> Option<int> {
    first_ready(st, cur, n, 1)
}

/// The scheduling state of each task.
pub open spec fn statuses(tasks: Seq<TaskControlBlock>) -> Seq<TaskStatus> {
    tasks.map_values(|t: TaskControlBlock| t.inner.task_status)
}

/// `tasks` with task `i` put in state `s`, everything else unchanged.
pub open spec fn with_status(tasks: Seq<TaskControlBlock>, i: int, s: TaskStatus) -> Seq<TaskControlBlock> {
    tasks.update(
        i,
        TaskControlBlock { inner: TaskControlBlockInner { task_status: s, ..tasks[i].inner }, ..tasks[i] },
    )
}

/// What a task reports about itself: its id, its state and the time it
/// spent in user mode and in the kernel.
#[derive(Clone, Copy, Debug)]
pub struct TaskInfo {
    pub id: usize,
    pub status: TaskStatus,
    /// (kernel, user mode) run times.
    pub times: (usize, usize),
}

/// The tasks and which of them runs.
pub struct TaskManagerInner {
    /// The task list.
    pub tasks: Vec<TaskControlBlock>,
    current_task: usize,
}

/// All tasks of the system; switching between them is round robin.
pub struct TaskManager {
    num_app: usize,
    /// The changing part.
    pub inner: TaskManagerInner,
}

impl TaskManager {
    /// The number of tasks.
    pub closed spec fn count(&self) -> int {
        self.num_app as int
    }

    /// The index of the running task.
    pub closed spec fn current(&self) -> int {
        self.inner.current_task as int
    }

    /// The task count and the running task's index are `usize` values.
    pub proof fn lemma_bounds(&self)
        ensures
            0 <= self.count() <= usize::MAX,
            0 <= self.current() <= usize::MAX,
    {
    }

    /// The tasks.
    pub closed spec fn task_list(&self) -> Seq<TaskControlBlock> {
        self.inner.tasks@
    }

    /// The scheduling state of each task.
    pub open spec fn task_states(&self) -> Seq<TaskStatus> {
        statuses(self.task_list())
    }

    /// The task count matches the task list and the current task is one of
    /// them.
    pub open spec fn wf(&self) -> bool {
        &&& self.count() == self.task_list().len()
        &&& (self.current() < self.count() || (self.count() == 0 && self.current() == 0))
        &&& 2 * self.count() < usize::MAX
    }

    /// A manager of `tasks`, the first of them current.
    pub fn new(tasks: Vec<TaskControlBlock>) -> (r: Self)
        requires
            2 * tasks@.len() < usize::MAX,
        ensures
            r.wf(),
            r.task_list() == tasks@,
            r.current() == 0,
    {
        let num_app = tasks.len();
        TaskManager { num_app, inner: TaskManagerInner { tasks, current_task: 0 } }
    }

    /// The number of tasks.
    pub fn num_app(&self) -> (r: usize)
        ensures
            r == self.count(),
    {
        self.num_app
    }

    /// The index of the running task.
    pub fn get_current_taskid(&self) -> (r: usize)
        ensures
            r == self.current(),
    {
        self.inner.current_task
    }

    /// What task `id` reports: its state and its kernel and user-mode times
    /// (kernel first), read from the per-application counters `cnt`, which
    /// hold user time first.
    pub fn get_taskinfo(&self, id: usize, cnt: &[(usize, usize)]) -> (r: TaskInfo)
        requires
            id < self.task_list().len(),
            id < cnt@.len(),
        ensures
            r.id == id,
            r.status == self.task_states()[id as int],
            r.times == (cnt@[id as int].1, cnt@[id as int].0),
    {
        TaskInfo {
            id,
            status: self.inner.tasks[id].inner.task_status,
            times: (crate::timer::get_kcnt(cnt, id), crate::timer::get_ucnt(cnt, id)),
        }
    }

    /// Marks the first task running; it is the one the first switch goes to.
    pub fn run_first_task(&mut self)
        requires
            old(self).wf(),
            old(self).count() > 0,
        ensures
            final(self).wf(),
            final(self).count() == old(self).count(),
            final(self).current() == old(self).current(),
            final(self).task_list() == with_status(old(self).task_list(), 0, TaskStatus::Running),
            final(self).task_states() == old(self).task_states().update(0, TaskStatus::Running),
    {
        self.inner.tasks[0].inner.task_status = TaskStatus::Running;
        proof {
            assert(self.task_list() =~= with_status(old(self).task_list(), 0, TaskStatus::Running));
            assert(self.task_states() =~= old(self).task_states().update(0, TaskStatus::Running));
        }
    }

    /// Marks the running task ready again.
    pub fn mark_current_suspended(&mut self)
        requires
            old(self).wf(),
            old(self).count() > 0,
        ensures
            final(self).wf(),
            final(self).count() == old(self).count(),
            final(self).current() == old(self).current(),
            final(self).task_list() == with_status(
                old(self).task_list(),
                old(self).current(),
                TaskStatus::Ready,
            ),
            final(self).task_states() == old(self).task_states().update(
                old(self).current(),
                TaskStatus::Ready,
            ),
    {
        let cur = self.inner.current_task;
        self.inner.tasks[cur].inner.task_status = TaskStatus::Ready;
        proof {
            assert(self.task_list() =~= with_status(old(self).task_list(), cur as int, TaskStatus::Ready));
            assert(self.task_states() =~= old(self).task_states().update(cur as int, TaskStatus::Ready));
        }
    }

    /// Marks the running task as exited.
    pub fn mark_current_exited(&mut self)
        requires
            old(self).wf(),
            old(self).count() > 0,
        ensures
            final(self).wf(),
            final(self).count() == old(self).count(),
            final(self).current() == old(self).current(),
            final(self).task_list() == with_status(
                old(self).task_list(),
                old(self).current(),
                TaskStatus::Zombie,
            ),
            final(self).task_states() == old(self).task_states().update(
                old(self).current(),
                TaskStatus::Zombie,
            ),
    {
        let cur = self.inner.current_task;
        self.inner.tasks[cur].inner.task_status = TaskStatus::Zombie;
        proof {
            assert(self.task_list() =~= with_status(old(self).task_list(), cur as int, TaskStatus::Zombie));
            assert(self.task_states() =~= old(self).task_states().update(cur as int, TaskStatus::Zombie));
        }
    }

    /// The next ready task after the running one, in round-robin order
    /// (the running task itself last), or `None` when no task is ready.
    pub fn find_next_task(&self) -> (r: Option<usize>)
        requires
            self.wf(),
        ensures
            r == match next_ready(self.task_states(), self.current(), self.count()) {
                Some(i) => Some(i as usize),
                None => None::<usize>,
            },
    {
        let n = self.num_app;
        let current = self.inner.current_task;
        let ghost st = self.task_states();
        let mut id = current + 1;
        while id < current + n + 1
            invariant
                self.wf(),
                n == self.count(),
                current == self.current(),
                st == self.task_states(),
                current + 1 <= id <= current + n + 1,
                next_ready(st, current as int, n as int) == first_ready(
                    st,
                    current as int,
                    n as int,
                    id - current,
                ),
            decreases current + n + 1 - id,
        {
            let i = id % n;
            if self.inner.tasks[i].inner.task_status == TaskStatus::Ready {
                return Some(i);
            }
            id = id + 1;
        }
        None
    }

    /// The running task.
    pub fn current_task(&self) -> (r: &TaskControlBlock)
        requires
            self.wf(),
            self.count() > 0,
        ensures
            *r == self.task_list()[self.current()],
    {
        &self.inner.tasks[self.inner.current_task]
    }

    /// The `satp` token of the running task's address space.
    pub fn get_current_token(&self) -> (r: usize)
        requires
            self.wf(),
            self.count() > 0,
        ensures
            r == self.task_list()[self.current()].inner.user_token,
    {
        self.inner.tasks[self.inner.current_task].inner.get_user_token()
    }

    /// Picks the next ready task, marks it running and makes it current;
    /// gives the (previous, next) task indexes to switch between, or `None`
    /// when no task is ready and every application has completed.
    pub fn run_next_task(&mut self) -> (r: Option<(usize, usize)>)
        requires
            old(self).wf(),
        ensures
            final(self).wf(),
            final(self).count() == old(self).count(),
            match next_ready(old(self).task_states(), old(self).current(), old(self).count()) {
                Some(next) => {
                    &&& r == Some((old(self).current() as usize, next as usize))
                    &&& final(self).current() == next
                    &&& final(self).task_list() == with_status(old(self).task_list(), next, TaskStatus::Running)
                    &&& final(self).task_states() == old(self).task_states().update(
                        next,
                        TaskStatus::Running,
                    )
                },
                None => {
                    &&& r is None
                    &&& final(self).current() == old(self).current()
                    &&& final(self).task_list() == old(self).task_list()
                },
            },
    {
        proof {
            lemma_next_ready_in_range(self.task_states(), self.current(), self.count(), 1);
        }
        if let Some(next) = self.find_next_task() {
            let current = self.inner.current_task;
            self.inner.tasks[next].inner.task_status = TaskStatus::Running;
            self.inner.current_task = next;
            proof {
                assert(self.task_list() =~= with_status(old(self).task_list(), next as int, TaskStatus::Running));
                assert(self.task_states() =~= old(self).task_states().update(next as int, TaskStatus::Running));
            }
            Some((current, next))
        } else {
            None
        }
    }

    /// Marks the running task ready and picks the next one to run.
    pub fn suspend_current_and_run_next(&mut self) -> (r: Option<(usize, usize)>)
        requires
            old(self).wf(),
            old(self).count() > 0,
        ensures
            final(self).wf(),
            ({
                let st = old(self).task_states().update(old(self).current(), TaskStatus::Ready);
                let marked = with_status(old(self).task_list(), old(self).current(), TaskStatus::Ready);
                &&& match next_ready(st, old(self).current(), old(self).count()) {
                    Some(next) => final(self).task_list() == with_status(marked, next, TaskStatus::Running),
                    None => final(self).task_list() == marked && final(self).current() == old(self).current(),
                }
                &&& match next_ready(st, old(self).current(), old(self).count()) {
                    Some(next) => r == Some((old(self).current() as usize, next as usize))
                        && final(self).current() == next && final(self).task_states() == st.update(
                        next,
                        TaskStatus::Running,
                    ),
                    None => r is None,
                }
            }),
    {
        self.mark_current_suspended();
        self.run_next_task()
    }

    /// Marks the running task exited and picks the next one to run.
    pub fn exit_current_and_run_next(&mut self) -> (r: Option<(usize, usize)>)
        requires
            old(self).wf(),
            old(self).count() > 0,
        ensures
            final(self).wf(),
            ({
                let st = old(self).task_states().update(old(self).current(), TaskStatus::Zombie);
                let marked = with_status(old(self).task_list(), old(self).current(), TaskStatus::Zombie);
                &&& match next_ready(st, old(self).current(), old(self).count()) {
                    Some(next) => final(self).task_list() == with_status(marked, next, TaskStatus::Running),
                    None => final(self).task_list() == marked && final(self).current() == old(self).current(),
                }
                &&& match next_ready(st, old(self).current(), old(self).count()) {
                    Some(next) => r == Some((old(self).current() as usize, next as usize))
                        && final(self).current() == next && final(self).task_states() == st.update(
                        next,
                        TaskStatus::Running,
                    ),
                    None => r is None && final(self).task_states() == st,
                }
            }),
    {
        self.mark_current_exited();
        self.run_next_task()
    }

    /// The `satp` token of the running task's address space.
    pub fn current_user_token(&self) -> (r: usize)
        requires
            self.wf(),
            self.count() > 0,
        ensures
            r == self.task_list()[self.current()].inner.user_token,
    {
        self.get_current_token()
    }
}

/// The task `first_ready` picks is a ready task among the `n`.
pub proof fn lemma_next_ready_in_range(st: Seq<TaskStatus>, cur: int, n: int, d: int)
    requires
        st.len() == n,
    ensures
        first_ready(st, cur, n, d) matches Some(i) ==> 0 <= i < n && st[i] == TaskStatus::Ready,
    decreases n + 1 - d,
{
    if 1 <= d <= n {
        lemma_next_ready_in_range(st, cur, n, d + 1);
    }
}

proof fn lemma_first_ready_other(st: Seq<TaskStatus>, cur: int, n: int, d: int, e: int)
    requires
        st.len() == n,
        0 <= cur < n,
        1 <= d <= e < n,
        st[(cur + e) % n] == TaskStatus::Ready,
    ensures
        first_ready(st, cur, n, d) matches Some(i) && i != cur,
    decreases e - d,
{
    if st[(cur + d) % n] == TaskStatus::Ready {
        if cur + d < n {
            vstd::arithmetic::div_mod::lemma_small_mod((cur + d) as nat, n as nat);
        } else {
            vstd::arithmetic::div_mod::lemma_mod_sub_multiples_vanish(cur + d, n);
            vstd::arithmetic::div_mod::lemma_small_mod((cur + d - n) as nat, n as nat);
        }
    } else {
        if d == e {
            assert(false);
        } else {
            lemma_first_ready_other(st, cur, n, d + 1, e);
        }
    }
}

/// A task that gives up the processor runs again next only when no other
/// task is ready: if another task is ready, the round-robin choice after
/// the current task picks some task other than the current one.
pub proof fn lemma_yield_prefers_others(st: Seq<TaskStatus>, cur: int, n: int, j: int)
    requires
        st.len() == n,
        0 <= cur < n,
        0 <= j < n,
        j != cur,
        st[j] == TaskStatus::Ready,
    ensures
        next_ready(st, cur, n) matches Some(i) && i != cur,
{
    let e = if j > cur { j - cur } else { j - cur + n };
    assert((cur + e) % n == j) by {
        vstd::arithmetic::div_mod::lemma_small_mod(j as nat, n as nat);
        if j > cur {
            assert(cur + e == j);
        } else {
            assert(cur + e == j + n);
            vstd::arithmetic::div_mod::lemma_mod_add_multiples_vanish(j, n);
        }
    }
    lemma_first_ready_other(st, cur, n, 1, e);
}

/// Round-robin choice never picks a task that is not ready; in particular
/// a task that has exited (a zombie) is never scheduled again.
pub proof fn lemma_only_ready_scheduled(st: Seq<TaskStatus>, cur: int, n: int)
    requires
        st.len() == n,
    ensures
        next_ready(st, cur, n) matches Some(i) ==> 0 <= i < n && st[i] == TaskStatus::Ready,
{
    lemma_next_ready_in_range(st, cur, n, 1);
}

/// The task `d` places after task `cur` in round-robin order among `n`.
pub open spec fn rr_after(cur: int, d: int, n: int) -> int {
    (cur + d) % n
}

proof fn lemma_first_ready_scan(st: Seq<TaskStatus>, cur: int, n: int, d: int)
    requires
        st.len() == n,
        1 <= d,
    ensures
        first_ready(st, cur, n, d) matches Some(i) ==> exists|d0: int|
            d <= d0 <= n && i == rr_after(cur, d0, n) && st[i] == TaskStatus::Ready && forall|e: int|
                d <= e < d0 ==> st[#[trigger] rr_after(cur, e, n)] != TaskStatus::Ready,
        first_ready(st, cur, n, d) is None ==> forall|e: int|
            d <= e <= n ==> st[#[trigger] rr_after(cur, e, n)] != TaskStatus::Ready,
    decreases n + 1 - d,
{
    if d <= n {
        lemma_first_ready_scan(st, cur, n, d + 1);
        if st[rr_after(cur, d, n)] == TaskStatus::Ready {
            assert(first_ready(st, cur, n, d) == Some(rr_after(cur, d, n)));
            let i = rr_after(cur, d, n);
            assert(d <= d <= n && i == rr_after(cur, d, n) && st[i] == TaskStatus::Ready);
        } else {
            if let Some(i) = first_ready(st, cur, n, d + 1) {
                let d0 = choose|d0: int|
                    d + 1 <= d0 <= n && i == rr_after(cur, d0, n) && st[i] == TaskStatus::Ready
                        && forall|e: int| d + 1 <= e < d0 ==> st[#[trigger] rr_after(cur, e, n)] != TaskStatus::Ready;
                assert forall|e: int| d <= e < d0 implies st[#[trigger] rr_after(cur, e, n)] != TaskStatus::Ready by {
                    if e > d {
                    }
                }
            }
        }
    }
}

/// Round robin picks the first ready task after the current one: when the
/// choice is task `i`, it is ready and lies `d0` places after the current
/// task (1 <= d0 <= n, the current task itself coming last), and no task
/// fewer places after the current one is ready; when there is no choice,
/// no task is ready.
pub proof fn lemma_next_ready_is_first(st: Seq<TaskStatus>, cur: int, n: int)
    requires
        st.len() == n,
    ensures
        next_ready(st, cur, n) matches Some(i) ==> exists|d0: int|
            1 <= d0 <= n && i == rr_after(cur, d0, n) && st[i] == TaskStatus::Ready && forall|e: int|
                1 <= e < d0 ==> st[#[trigger] rr_after(cur, e, n)] != TaskStatus::Ready,
        next_ready(st, cur, n) is None ==> forall|e: int|
            1 <= e <= n ==> st[#[trigger] rr_after(cur, e, n)] != TaskStatus::Ready,
{
    lemma_first_ready_scan(st, cur, n, 1);
}

/// The user-mode time of the first `n` applications in `cnt`.
pub open spec fn total_user(cnt: Seq<(usize, usize)>, n: int) -> int
    decreases n,
{
    if n <= 0 { 0 } else { total_user(cnt, n - 1) + cnt[n - 1].0 }
}

/// The kernel time of the first `n` applications in `cnt`.
pub open spec fn total_kernel(cnt: Seq<(usize, usize)>, n: int) -> int
    decreases n,
{
    if n <= 0 { 0 } else { total_kernel(cnt, n - 1) + cnt[n - 1].1 }
}

proof fn lemma_totals_grow(cnt: Seq<(usize, usize)>, i: int, n: int)
    requires
        0 <= i <= n,
    ensures
        total_user(cnt, i) <= total_user(cnt, n),
        total_kernel(cnt, i) <= total_kernel(cnt, n),
    decreases n - i,
{
    if i < n {
        lemma_totals_grow(cnt, i, n - 1);
    }
}

/// The total (user mode, kernel) time of the first `n` applications, for
/// the summary printed when every application has completed.
pub fn statistic(cnt: &[(usize, usize)], n: usize) -> (r: (usize, usize))
    requires
        n <= cnt@.len(),
        total_user(cnt@, n as int) <= usize::MAX,
        total_kernel(cnt@, n as int) <= usize::MAX,
    ensures
        r.0 == total_user(cnt@, n as int),
        r.1 == total_kernel(cnt@, n as int),
{
    let mut u: usize = 0;
    let mut k: usize = 0;
    let mut i: usize = 0;
    while i < n
        invariant
            i <= n <= cnt@.len(),
            u == total_user(cnt@, i as int),
            k == total_kernel(cnt@, i as int),
            total_user(cnt@, n as int) <= usize::MAX,
            total_kernel(cnt@, n as int) <= usize::MAX,
        decreases n - i,
    {
        proof {
            lemma_totals_grow(cnt@, i + 1, n as int);
        }
        u = u + crate::timer::get_ucnt(cnt, i);
        k = k + crate::timer::get_kcnt(cnt, i);
        i = i + 1;
    }
    (u, k)
}

} // verus!
