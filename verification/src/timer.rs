//! Time keeping: the `time` counter in milliseconds, the next timer
//! deadline and the per-application run-time counters.
use vstd::prelude::*;
use crate::config::CLOCK_FREQ;

verus! {

/// Timer interrupts per second.
pub const TICKS_PER_SEC: usize = 100;
/// Microseconds per second.
pub const USEC_PER_SEC: usize = 1_000_000;

/// The current time in microseconds for a `time` counter value of `time`.
pub fn get_time_ms(time: usize) -> (r: usize)
    ensures
        r == time / (CLOCK_FREQ / USEC_PER_SEC),
{
    time / (CLOCK_FREQ / USEC_PER_SEC)
}

/// The deadline of the next timer interrupt, 10 ms after counter value
/// `now`.
pub fn set_next_trigger(now: usize) -> (r: usize)
    requires
        now + CLOCK_FREQ / TICKS_PER_SEC <= usize::MAX,
    ensures
        r == now + CLOCK_FREQ / TICKS_PER_SEC,
{
    now + CLOCK_FREQ / TICKS_PER_SEC
}

/// The kernel time of application `id` in the counters `cnt`.
pub fn get_kcnt(cnt: &[(usize, usize)], id: usize) -> (r: usize)
    requires
        id < cnt@.len(),
    ensures
        r == cnt@[id as int].1,
{
    cnt[id].1
}

/// The user-mode time of application `id` in the counters `cnt`.
pub fn get_ucnt(cnt: &[(usize, usize)], id: usize) -> (r: usize)
    requires
        id < cnt@.len(),
    ensures
        r == cnt@[id as int].0,
{
    cnt[id].0
}

} // verus!
