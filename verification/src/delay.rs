//! A delay helper that yields the CPU to other tasks instead of busy
//! looping. Precision is limited by the scheduler's tick frequency (usually
//! a millisecond or more).

use vstd::prelude::*;

use crate::scheduler::{SchedulerConfig, SchedulerState};
use crate::timer::{current_time, wait_until, TimerState};
use crate::{Error, IDLE_TASK_ID, MAX_TIMER_REGS};

verus! {

/// Sleeps by registering a one-shot timer wakeup for the current task.
#[derive(Clone, Copy, Debug)]
pub struct Delay {
    pub tick_freq: u32,
}

impl Delay {
    /// A delay bound to the scheduler's configured tick frequency.
    pub fn new(config: &SchedulerConfig) -> (d: Delay)
        ensures
            d.tick_freq == config.tick_freq,
    {
        Delay { tick_freq: config.tick_freq }
    }

    /// Blocks the current task for the given number of ticks from now (best
    /// effort: an independent unpark may end the sleep early). Exactly
    /// `wait_until(current_time() + ticks)`.
    pub fn delay_ticks(&self, timer: &mut TimerState, sched: &mut SchedulerState, ticks: u64) -> (r:
        Result<(), Error>)
        requires
            old(timer).inv(),
            old(sched).inv(),
            old(sched).current_task != IDLE_TASK_ID,
            old(timer).time + ticks <= u64::MAX,
        ensures
            final(timer).inv(),
            final(sched).inv(),
            final(timer).time == old(timer).time,
            ticks == 0 ==> r == Ok::<(), Error>(()) && final(timer).regs() == old(timer).regs()
                && *final(sched) == *old(sched),
            ticks > 0 && old(timer).regs().len() >= MAX_TIMER_REGS ==> {
                &&& r == Err::<(), Error>(Error::TimerFull)
                &&& final(timer).regs() == old(timer).regs()
                &&& *final(sched) == *old(sched)
            },
            ticks > 0 && old(timer).regs().len() < MAX_TIMER_REGS ==> {
                &&& final(timer).regs() == old(timer).regs().insert(
                    ((old(timer).time + ticks) as u64, old(sched).current_task as u64),
                )
                &&& crate::scheduler::block_transition(
                    *old(sched),
                    *final(sched),
                    old(sched).current_task,
                )
                &&& (old(sched).task_map().dom().contains(old(sched).current_task) ==> r
                    == Ok::<(), Error>(()) && final(sched).task_map()[old(
                    sched,
                ).current_task].blocked)
                &&& (!old(sched).task_map().dom().contains(old(sched).current_task) ==> r
                    == Err::<(), Error>(Error::NotFound) && final(sched).task_map() == old(
                    sched,
                ).task_map())
            },
    {
        let now = current_time(timer);
        wait_until(timer, sched, now + ticks)
    }
}

/// How many ticks cover a delay of `units` at `units_per_second`, given the
/// tick frequency: the exact quotient `units * tick_freq / units_per_second`
/// rounded up. The product is widened before multiplying, so the computation
/// cannot overflow.
pub fn ticks_for(units: u32, tick_freq: u32, units_per_second: u32) -> (t: u64)
    requires
        units_per_second > 0,
    ensures
        t == ((units * tick_freq + (units_per_second - 1)) as int) / (units_per_second as int),
{
    proof {
        assert((units as int) * (tick_freq as int) <= (u32::MAX as int) * (u32::MAX as int))
            by (nonlinear_arith)
            requires
                units <= u32::MAX,
                tick_freq <= u32::MAX,
        ;
    }
    let product = (units as u64) * (tick_freq as u64);
    (product + ((units_per_second - 1) as u64)) / (units_per_second as u64)
}

} // verus!
