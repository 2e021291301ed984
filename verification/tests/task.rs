use rcore_kernel::mm::address::PhysPageNum;
use rcore_kernel::task::task::{TaskControlBlock, TaskStatus};
use rcore_kernel::task::{statistic, TaskManager};
use rcore_kernel::syscall::process::{sys_exit, sys_get_time, sys_taskinfo, sys_yield};

fn tasks(n: usize) -> Vec<TaskControlBlock> {
    (0..n)
        .map(|i| TaskControlBlock::new(i, 0x1000 * (i + 1), 0x8000_0000_0008_0000 + i, 0x2000, PhysPageNum(0x90000 + i)))
        .collect()
}

fn states(m: &TaskManager) -> Vec<TaskStatus> {
    m.inner.tasks.iter().map(|t| t.inner.task_status).collect()
}

#[test]
fn new_tasks_are_ready() {
    let t = TaskControlBlock::new(3, 0x5000, 0x1234, 0x2000, PhysPageNum(9));
    assert_eq!(t.getpid(), 3);
    assert_eq!(t.inner.task_status, TaskStatus::Ready);
    assert!(!t.inner.is_zombie());
    assert_eq!(t.inner.get_user_token(), 0x1234);
    assert_eq!(t.inner.base_size, 0x2000);
    assert_eq!(t.inner.parent, None);
}

#[test]
fn fork_and_spawn_record_children() {
    let mut parent = TaskControlBlock::new(1, 0x5000, 0x1234, 0x2000, PhysPageNum(9));
    let child = parent.fork(2, 0x6000, 0x5678, PhysPageNum(10));
    assert_eq!(child.inner.parent, Some(1));
    assert_eq!(child.inner.base_size, 0x2000);
    assert_eq!(child.inner.user_token, 0x5678);
    let spawned = parent.spawn(3, 0x7000, 0x9abc, 0x3000, PhysPageNum(11));
    assert_eq!(spawned.inner.base_size, 0x3000);
    assert_eq!(spawned.inner.parent, Some(1));
    assert_eq!(parent.inner.children, vec![2, 3]);
}

#[test]
fn exec_replaces_the_program() {
    let mut t = TaskControlBlock::new(1, 0x5000, 0x1234, 0x2000, PhysPageNum(9));
    t.exec(0x4321, 0x4000, PhysPageNum(12));
    assert_eq!(t.inner.user_token, 0x4321);
    assert_eq!(t.inner.base_size, 0x4000);
    assert_eq!(t.inner.trap_cx_ppn, PhysPageNum(12));
}

#[test]
fn timers_accumulate() {
    let mut t = TaskControlBlock::new(1, 0x5000, 0x1234, 0x2000, PhysPageNum(9));
    t.inner_exclusive_access().increase_user_timer(5);
    t.inner_exclusive_access().increase_user_timer(7);
    t.inner_exclusive_access().increase_kernel_timer(3);
    assert_eq!(t.inner.runtime_in_user, 12);
    assert_eq!(t.inner.runtime_in_kernel, 3);
}

#[test]
fn round_robin_picks_next_ready_task() {
    let mut m = TaskManager::new(tasks(3));
    m.run_first_task();
    assert_eq!(states(&m), vec![TaskStatus::Running, TaskStatus::Ready, TaskStatus::Ready]);
    assert_eq!(m.find_next_task(), Some(1));
    assert_eq!(m.suspend_current_and_run_next(), Some((0, 1)));
    assert_eq!(m.get_current_taskid(), 1);
    assert_eq!(m.suspend_current_and_run_next(), Some((1, 2)));
    assert_eq!(m.suspend_current_and_run_next(), Some((2, 0)));
    assert_eq!(m.current_user_token(), 0x8000_0000_0008_0000);
}

#[test]
fn exited_tasks_are_skipped_and_the_last_one_ends_the_run() {
    let mut m = TaskManager::new(tasks(2));
    m.run_first_task();
    assert_eq!(m.exit_current_and_run_next(), Some((0, 1)));
    // the only other task is a zombie: yielding comes back to the same task
    assert_eq!(m.suspend_current_and_run_next(), Some((1, 1)));
    assert_eq!(m.exit_current_and_run_next(), None);
    assert_eq!(states(&m), vec![TaskStatus::Zombie, TaskStatus::Zombie]);
}

#[test]
fn syscalls_exit_and_yield_switch_tasks() {
    let mut m = TaskManager::new(tasks(3));
    m.run_first_task();
    assert_eq!(sys_yield(&mut m), Some((0, 1)));
    assert_eq!(sys_exit(&mut m, 0), Some((1, 2)));
    assert_eq!(sys_yield(&mut m), Some((2, 0)));
    assert_eq!(states(&m)[1], TaskStatus::Zombie);
}

#[test]
fn taskinfo_reports_counters() {
    let m = TaskManager::new(tasks(2));
    let cnt = [(5usize, 6usize), (7, 8)];
    let info = m.get_taskinfo(1, &cnt);
    assert_eq!(info.id, 1);
    assert_eq!(info.status, TaskStatus::Ready);
    assert_eq!(info.times, (8, 7));
    assert_eq!(statistic(&cnt, 2), (12, 14));
    let ti = sys_taskinfo(&m);
    assert_eq!(ti.root_pagetable, 0x8000_0000_0008_0000);
    assert_eq!(ti.base_size, 0x2000);
    assert_eq!(ti.trap_cx_ppn, PhysPageNum(0x90000));
}

#[test]
fn time_in_milliseconds() {
    assert_eq!(sys_get_time(12 * 3 + 5), 3);
    assert_eq!(rcore_kernel::timer::get_time_ms(125000), 10416);
    assert_eq!(rcore_kernel::timer::set_next_trigger(1000), 1000 + 125000);
}
