use rcore_kernel::batch::{taskid, AppManager};
use rcore_kernel::hanoi::hanoi;
use rcore_kernel::timer::{get_kcnt, get_time_ms, get_ucnt, set_next_trigger};

#[test]
fn hanoi_of_five_takes_thirty_one_moves() {
    let mut moves = Vec::new();
    hanoi(5, 'a', 'b', 'c', &mut moves);
    assert_eq!(moves.len(), 31);
    assert_eq!(moves[0], ('a', 'c'));
    assert_eq!(moves[15], ('a', 'c'));
    assert_eq!(moves[30], ('a', 'c'));
}

#[test]
fn hanoi_of_two() {
    let mut moves = vec![('x', 'y')];
    hanoi(2, 'a', 'b', 'c', &mut moves);
    assert_eq!(moves, vec![('x', 'y'), ('a', 'b'), ('a', 'c'), ('b', 'c')]);
}

#[test]
fn hanoi_of_one() {
    let mut moves = Vec::new();
    hanoi(1, 'p', 'q', 'r', &mut moves);
    assert_eq!(moves, vec![('p', 'r')]);
}

fn apps() -> AppManager {
    let mut starts = [0usize; 17];
    starts[0] = 0x1000;
    starts[1] = 0x1800;
    starts[2] = 0x2000;
    starts[3] = 0x3400;
    AppManager::new(3, starts)
}

#[test]
fn apps_load_in_order() {
    let mut m = apps();
    assert_eq!(taskid(&m), 0);
    assert_eq!(m.run_next_app(), Some((0x1000, 0x800)));
    assert_eq!(m.run_next_app(), Some((0x1800, 0x800)));
    assert_eq!(taskid(&m), 2);
    assert_eq!(m.run_next_app(), Some((0x2000, 0x1400)));
    assert_eq!(m.run_next_app(), None);
    assert_eq!(m.get_current_app(), 4);
}

#[test]
fn app_ranges() {
    let m = apps();
    assert_eq!(m.print_app_info(), vec![(0x1000, 0x1800), (0x1800, 0x2000), (0x2000, 0x3400)]);
    assert_eq!(m.load_app(1), Some((0x1800, 0x800)));
    assert_eq!(m.load_app(3), None);
}

#[test]
fn move_to_next_app_counts() {
    let mut m = apps();
    m.move_to_next_app();
    m.move_to_next_app();
    assert_eq!(m.get_current_app(), 2);
}

#[test]
fn timer_conversions() {
    assert_eq!(get_time_ms(12_500_000), 1_041_666);
    assert_eq!(get_time_ms(12_500), 1041);
    assert_eq!(get_time_ms(11), 0);
    assert_eq!(get_time_ms(24), 2);
    assert_eq!(set_next_trigger(1000), 1000 + 125_000);
}

#[test]
fn run_time_counters() {
    let cnt = [(3usize, 4usize), (10, 20)];
    assert_eq!(get_ucnt(&cnt, 1), 10);
    assert_eq!(get_kcnt(&cnt, 1), 20);
    assert_eq!(get_kcnt(&cnt, 0), 4);
}
