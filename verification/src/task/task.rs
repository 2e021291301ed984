//! Task control blocks: the per-process bookkeeping of the kernel.
use vstd::prelude::*;
use crate::mm::address::PhysPageNum;

verus! {

/// The scheduling state of a task.
#[derive(Clone, Copy, Debug, PartialEq, Eq, Structural)]
pub enum TaskStatus {
    /// Waiting to run.
    Ready,
    /// Running on the processor.
    Running,
    /// Exited, waiting for its parent to collect it.
    Zombie,
}

/// The part of a task control block that changes while the task runs.
pub struct TaskControlBlockInner {
    /// The frame holding the task's trap context.
    pub trap_cx_ppn: PhysPageNum,
    /// Application data lies below this many bytes of the address space.
    pub base_size: usize,
    /// The scheduling state.
    pub task_status: TaskStatus,
    /// The `satp` token of the task's address space.
    pub user_token: usize,
    /// The process id of the parent, if any.
    pub parent: Option<usize>,
    /// The process ids of the children.
    pub children: Vec<usize>,
    /// The exit code, once the task has exited.
    pub exit_code: i32,
    /// Milliseconds spent in user mode.
    pub runtime_in_user: usize,
    /// Milliseconds spent in the kernel.
    pub runtime_in_kernel: usize,
}

impl TaskControlBlockInner {
    /// The `satp` token of the task's address space.
    pub fn get_user_token(&self) -> (r: usize)
        ensures
            r == self.user_token,
    {
        self.user_token
    }

    fn get_status(&self) -> (r: TaskStatus)
        ensures
            r == self.task_status,
    {
        self.task_status
    }

    /// Whether the task has exited and waits to be collected.
    pub fn is_zombie(&self) -> (r: bool)
        ensures
            r == (self.task_status == TaskStatus::Zombie),
    {
        self.get_status() == TaskStatus::Zombie
    }

    /// Adds `ms` milliseconds of user-mode time.
    pub fn increase_user_timer(&mut self, ms: usize)
        requires
            old(self).runtime_in_user + ms <= usize::MAX,
        ensures
            final(self).runtime_in_user == old(self).runtime_in_user + ms,
            final(self).runtime_in_kernel == old(self).runtime_in_kernel,
            final(self).task_status == old(self).task_status,
            final(self).user_token == old(self).user_token,
            final(self).base_size == old(self).base_size,
            final(self).children@ == old(self).children@,
            final(self).parent == old(self).parent,
            final(self).exit_code == old(self).exit_code,
            final(self).trap_cx_ppn == old(self).trap_cx_ppn,
    {
        self.runtime_in_user = self.runtime_in_user + ms;
    }

    /// Adds `ms` milliseconds of kernel time.
    pub fn increase_kernel_timer(&mut self, ms: usize)
        requires
            old(self).runtime_in_kernel + ms <= usize::MAX,
        ensures
            final(self).runtime_in_kernel == old(self).runtime_in_kernel + ms,
            final(self).runtime_in_user == old(self).runtime_in_user,
            final(self).task_status == old(self).task_status,
            final(self).user_token == old(self).user_token,
            final(self).base_size == old(self).base_size,
            final(self).children@ == old(self).children@,
            final(self).parent == old(self).parent,
            final(self).exit_code == old(self).exit_code,
            final(self).trap_cx_ppn == old(self).trap_cx_ppn,
    {
        self.runtime_in_kernel = self.runtime_in_kernel + ms;
    }
}

/// A task: its process id, the top of its kernel stack and its changing
/// state.
pub struct TaskControlBlock {
    /// The process id.
    pub pid: usize,
    /// The top of the task's kernel stack.
    pub kernel_stack_top: usize,
    /// The changing state.
    pub inner: TaskControlBlockInner,
}

/// The state of a task that has just been created from a program image.
pub open spec fn fresh_inner(inner: TaskControlBlockInner, token: usize, base_size: usize, trap_cx_ppn: PhysPageNum, parent: Option<usize>) -> bool {
    &&& inner.trap_cx_ppn == trap_cx_ppn
    &&& inner.base_size == base_size
    &&& inner.task_status == TaskStatus::Ready
    &&& inner.user_token == token
    &&& inner.parent == parent
    &&& inner.children@ == Seq::<usize>::empty()
    &&& inner.exit_code == 0
    &&& inner.runtime_in_user == 0
    &&& inner.runtime_in_kernel == 0
}

/// `after` is `before` with `pid` appended to its children and nothing
/// else changed.
pub open spec fn adds_child(before: TaskControlBlock, after: TaskControlBlock, pid: usize) -> bool {
    &&& after.pid == before.pid
    &&& after.kernel_stack_top == before.kernel_stack_top
    &&& after.inner.children@ == before.inner.children@.push(pid)
    &&& after.inner.trap_cx_ppn == before.inner.trap_cx_ppn
    &&& after.inner.base_size == before.inner.base_size
    &&& after.inner.task_status == before.inner.task_status
    &&& after.inner.user_token == before.inner.user_token
    &&& after.inner.parent == before.inner.parent
    &&& after.inner.exit_code == before.inner.exit_code
    &&& after.inner.runtime_in_user == before.inner.runtime_in_user
    &&& after.inner.runtime_in_kernel == before.inner.runtime_in_kernel
}

impl TaskControlBlock {
    /// The changing state of the task.
    pub open spec fn state(&self) -> &TaskControlBlockInner {
        &self.inner
    }

    /// Access to the changing state of the task.
    pub fn inner_exclusive_access(&mut self) -> (r: &mut TaskControlBlockInner)
        ensures
            *r == *old(self).state(),
            *final(self).state() == *final(r),
            final(self).pid == old(self).pid,
            final(self).kernel_stack_top == old(self).kernel_stack_top,
    {
        &mut self.inner
    }

    /// Read access to the changing state of the task.
    pub fn inner_ref(&self) -> (r: &TaskControlBlockInner)
        ensures
            *r == *self.state(),
    {
        &self.inner
    }

    /// A ready task for a loaded program: `token` selects its address space,
    /// `user_sp` is its initial user stack pointer and `trap_cx_ppn` the
    /// frame of its trap context.
    pub fn new(pid: usize, kernel_stack_top: usize, token: usize, user_sp: usize, trap_cx_ppn: PhysPageNum) -> (r: Self)
        ensures
            r.pid == pid,
            r.kernel_stack_top == kernel_stack_top,
            fresh_inner(*r.state(), token, user_sp, trap_cx_ppn, None),
    {
        TaskControlBlock {
            pid,
            kernel_stack_top,
            inner: TaskControlBlockInner {
                trap_cx_ppn,
                base_size: user_sp,
                task_status: TaskStatus::Ready,
                user_token: token,
                parent: None,
                children: Vec::new(),
                exit_code: 0,
                runtime_in_user: 0,
                runtime_in_kernel: 0,
            },
        }
    }

    /// Replaces the task's program: its address space, stack and trap
    /// context frame.
    pub fn exec(&mut self, token: usize, user_sp: usize, trap_cx_ppn: PhysPageNum)
        ensures
            final(self).pid == old(self).pid,
            final(self).kernel_stack_top == old(self).kernel_stack_top,
            final(self).state().user_token == token,
            final(self).state().trap_cx_ppn == trap_cx_ppn,
            final(self).state().base_size == user_sp,
            final(self).state().task_status == old(self).state().task_status,
            final(self).state().parent == old(self).state().parent,
            final(self).state().children@ == old(self).state().children@,
            final(self).state().exit_code == old(self).state().exit_code,
            final(self).state().runtime_in_user == old(self).state().runtime_in_user,
            final(self).state().runtime_in_kernel == old(self).state().runtime_in_kernel,
    {
        self.inner.user_token = token;
        self.inner.trap_cx_ppn = trap_cx_ppn;
        self.inner.base_size = user_sp;
    }

    /// A new task under this one (its `parent`), with the same base size and
    /// the address space `token`; its pid is appended to `children`.
    pub fn fork(&mut self, pid: usize, kernel_stack_top: usize, token: usize, trap_cx_ppn: PhysPageNum) -> (r: Self)
        ensures
            r.pid == pid,
            r.kernel_stack_top == kernel_stack_top,
            fresh_inner(*r.state(), token, old(self).state().base_size, trap_cx_ppn, Some(old(self).pid)),
            adds_child(*old(self), *final(self), pid),
    {
        let child = TaskControlBlock {
            pid,
            kernel_stack_top,
            inner: TaskControlBlockInner {
                trap_cx_ppn,
                base_size: self.inner.base_size,
                task_status: TaskStatus::Ready,
                user_token: token,
                parent: Some(self.pid),
                children: Vec::new(),
                exit_code: 0,
                runtime_in_user: 0,
                runtime_in_kernel: 0,
            },
        };
        self.inner.children.push(pid);
        child
    }

    /// A new task under this one (its `parent`), with the address space `token`
    /// and stack pointer `user_sp`; its pid is appended to `children`.
    pub fn spawn(&mut self, pid: usize, kernel_stack_top: usize, token: usize, user_sp: usize, trap_cx_ppn: PhysPageNum) -> (r: Self)
        ensures
            r.pid == pid,
            r.kernel_stack_top == kernel_stack_top,
            fresh_inner(*r.state(), token, user_sp, trap_cx_ppn, Some(old(self).pid)),
            adds_child(*old(self), *final(self), pid),
    {
        let child = TaskControlBlock {
            pid,
            kernel_stack_top,
            inner: TaskControlBlockInner {
                trap_cx_ppn,
                base_size: user_sp,
                task_status: TaskStatus::Ready,
                user_token: token,
                parent: Some(self.pid),
                children: Vec::new(),
                exit_code: 0,
                runtime_in_kernel: 0,
                runtime_in_user: 0,
            },
        };
        self.inner.children.push(pid);
        child
    }

    /// The process id.
    pub fn getpid(&self) -> (r: usize)
        ensures
            r == self.pid,
    {
        self.pid
    }
}

/// What a task reports about itself.
#[derive(Clone, Copy, Debug)]
pub struct TaskInfo {
    /// The `satp` token of its address space.
    pub root_pagetable: usize,
    /// The frame of its trap context.
    pub trap_cx_ppn: PhysPageNum,
    /// The size of its program data.
    pub base_size: usize,
    /// Milliseconds in user mode.
    pub runtime_in_user: usize,
    /// Milliseconds in the kernel.
    pub runtime_in_kernel: usize,
}

} // verus!
