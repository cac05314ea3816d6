//! Time management: the monotonic tick counter and the heap-based one-shot
//! timer that wakes tasks whose deadline has passed.
//!
//! Time is the number of ticks since the scheduler started. Deadlines are
//! kept in a bounded min-heap of `(deadline, task id)` pairs ordered by
//! deadline first; the tick handler pops every matured entry and unblocks
//! its task.

use vstd::prelude::*;
use vstd::multiset::Multiset;

use crate::scheduler::{block_task, current_task_id, unblock_task, SchedulerState};
use crate::{Error, IDLE_TASK_ID, MAX_TIMER_REGS};

verus! {

broadcast use vstd::multiset::group_multiset_axioms;

/// Order on timer registrations: by deadline, then by task id. This is the
/// lexicographic order that `Ord` on a pair of integers denotes.
pub open spec fn reg_le(a: (u64, u64), b: (u64, u64)) -> bool {
    a.0 < b.0 || (a.0 == b.0 && a.1 <= b.1)
}

/// The registrations a timer heap holds, with multiplicity.
pub uninterp spec fn timer_heap_regs(h: TimerHeap) -> Multiset<(u64, u64)>;

/// Bounded min-heap of `(deadline, task id)` pairs with room for
/// `MAX_TIMER_REGS` registrations.
#[verifier::external_body]
pub struct TimerHeap {
    inner: heapless::BinaryHeap<(u64, u64), heapless::binary_heap::Min, MAX_TIMER_REGS>,
}

impl TimerHeap {
    /// Relies on `heapless::binary_heap::BinaryHeap::new`: a freshly created
    /// heap is empty.
    #[verifier::external_body]
    pub fn new() -> (h: TimerHeap)
        ensures
            (timer_heap_regs(h) == Multiset::<(u64, u64)>::empty()),
    {
        TimerHeap { inner: heapless::BinaryHeap::new() }
    }

    /// Relies on `heapless::binary_heap::BinaryHeap::push`: adds the item
    /// when fewer than `MAX_TIMER_REGS` are held, else rejects it.
    #[verifier::external_body]
    pub fn push(&mut self, item: (u64, u64)) -> (ok: bool)
        ensures
            timer_heap_regs(*old(self)).len() < MAX_TIMER_REGS ==> ok && timer_heap_regs(
                *final(self),
            ) == timer_heap_regs(*old(self)).insert(item),
            timer_heap_regs(*old(self)).len() >= MAX_TIMER_REGS ==> !ok && timer_heap_regs(
                *final(self),
            ) == timer_heap_regs(*old(self)),
    {
        self.inner.push(item).is_ok()
    }

    /// Relies on `heapless::binary_heap::BinaryHeap::peek`: a copy of the
    /// top — for a min-heap, a smallest item in the `Ord` order, which for
    /// integer pairs is the lexicographic order.
    #[verifier::external_body]
    pub fn peek(&self) -> (r: Option<(u64, u64)>)
        ensures
            (r is None <==> timer_heap_regs(*self).len() == 0),
            r matches Some(x) ==> timer_heap_regs(*self).count(x) > 0 && forall|y: (u64, u64)|
                timer_heap_regs(*self).count(y) > 0 ==> reg_le(x, y),
    {
        self.inner.peek().copied()
    }

    /// Relies on `heapless::binary_heap::BinaryHeap::pop`: removes and
    /// returns the top — for a min-heap, a smallest item in the `Ord`
    /// order, which for integer pairs is the lexicographic order.
    #[verifier::external_body]
    pub fn pop(&mut self) -> (r: Option<(u64, u64)>)
        ensures
            (r is None <==> timer_heap_regs(*old(self)).len() == 0),
            r is None ==> timer_heap_regs(*final(self)) == timer_heap_regs(*old(self)),
            r matches Some(x) ==> timer_heap_regs(*old(self)).count(x) > 0 && timer_heap_regs(
                *final(self),
            ) == timer_heap_regs(*old(self)).remove(x) && forall|y: (u64, u64)|
                timer_heap_regs(*old(self)).count(y) > 0 ==> reg_le(x, y),
    {
        self.inner.pop()
    }
}

/// Timer state: the monotonic tick counter and the registration heap.
pub struct TimerState {
    pub time: u64,
    pub queue: TimerHeap,
}

impl TimerState {
    /// The outstanding registrations as a multiset of (deadline, task id)
    /// pairs.
    pub open spec fn regs(self) -> Multiset<(u64, u64)> {
        timer_heap_regs(self.queue)
    }

    /// Every registered task id fits a `usize` (it was one when registered).
    pub open spec fn inv(self) -> bool {
        forall|e: (u64, u64)| #[trigger]
            self.regs().count(e) > 0 ==> e.1 <= usize::MAX as u64
    }
}

/// Fresh timer state: the counter starts at zero and no registration exists.
pub fn init() -> (t: TimerState)
    ensures
        t.time == 0,
        (t.regs() == Multiset::<(u64, u64)>::empty()),
        t.inv(),
{
    let t = TimerState { time: 0, queue: TimerHeap::new() };
    proof {
        assert forall|e: (u64, u64)| #[trigger] t.regs().count(e) > 0 implies e.1
            <= usize::MAX as u64 by {}
    }
    t
}

/// Advances the counter by one tick, then pops every matured registration
/// (deadline at or before the new time) and unblocks its task. Waking a task
/// that is already runnable, or gone, is a no-op.
pub fn tick(timer: &mut TimerState, sched: &mut SchedulerState)
    requires
        old(timer).inv(),
        old(sched).inv(),
        old(timer).time < u64::MAX,
    ensures
        final(timer).inv(),
        final(sched).inv(),
        final(timer).time == old(timer).time + 1,
        forall|e: (u64, u64)|
            e.0 > old(timer).time + 1 ==> final(timer).regs().count(e)
                == old(timer).regs().count(e),
        forall|e: (u64, u64)| e.0 <= old(timer).time + 1 ==> final(timer).regs().count(e) == 0,
        final(sched).task_map().dom() == old(sched).task_map().dom(),
        final(sched).current_task == old(sched).current_task,
        final(sched).started == old(sched).started,
        final(sched).last_task_id == old(sched).last_task_id,
        forall|id: usize| #[trigger] final(sched).task_map().dom().contains(id) ==> {
            &&& final(sched).task_map()[id].priority == old(sched).task_map()[id].priority
            &&& final(sched).task_map()[id].stack_pointer
                == old(sched).task_map()[id].stack_pointer
            &&& final(sched).task_map()[id].stack_limit == old(sched).task_map()[id].stack_limit
            &&& (final(sched).task_map()[id].blocked ==> old(sched).task_map()[id].blocked)
        },
        forall|e: (u64, u64)| #[trigger]
            old(timer).regs().count(e) > 0 && e.0 <= old(timer).time + 1 && final(
                sched).task_map().dom().contains(e.1 as usize)
                ==> !final(sched).task_map()[e.1 as usize].blocked,
{
    timer.time = timer.time + 1;
    let now = timer.time;
    let ghost regs0 = timer.regs();
    let ghost sched0 = *sched;
    proof {
        assert forall|e: (u64, u64)| #[trigger] timer.regs().count(e) > 0 implies e.1
            <= usize::MAX as u64 by {
            assert(old(timer).regs().count(e) > 0);
        }
    }
    loop
        invariant
            timer.inv(),
            sched.inv(),
            timer.time == now,
            forall|e: (u64, u64)| e.0 > now ==> timer.regs().count(e) == regs0.count(e),
            forall|e: (u64, u64)| #[trigger] timer.regs().count(e) <= regs0.count(e),
            sched.task_map().dom() == sched0.task_map().dom(),
            sched.current_task == sched0.current_task,
            sched.started == sched0.started,
            sched.last_task_id == sched0.last_task_id,
            forall|id: usize| #[trigger] sched.task_map().dom().contains(id) ==> {
                &&& sched.task_map()[id].priority == sched0.task_map()[id].priority
                &&& sched.task_map()[id].stack_pointer == sched0.task_map()[id].stack_pointer
                &&& sched.task_map()[id].stack_limit == sched0.task_map()[id].stack_limit
                &&& (sched.task_map()[id].blocked ==> sched0.task_map()[id].blocked)
            },
            forall|e: (u64, u64)| #[trigger]
                regs0.count(e) > timer.regs().count(e) && sched.task_map().dom().contains(
                    e.1 as usize,
                ) ==> !sched.task_map()[e.1 as usize].blocked,
        ensures
            forall|e: (u64, u64)| e.0 > now ==> timer.regs().count(e) == regs0.count(e),
            forall|e: (u64, u64)| e.0 <= now ==> timer.regs().count(e) == 0,
        decreases timer.regs().len(),
    {
        let top = match timer.queue.peek() {
            None => {
                proof {
                    vstd::multiset::lemma_multiset_empty_len(timer.regs());
                }
                break ;
            },
            Some(top) => top,
        };
        if top.0 > now {
            proof {
                assert forall|e: (u64, u64)| e.0 <= now implies timer.regs().count(e) == 0 by {
                    if timer.regs().count(e) > 0 {
                        assert(reg_le(top, e));
                    }
                }
            }
            break ;
        }
        let ghost regs_pre = timer.regs();
        let x = match timer.queue.pop() {
            Some(x) => x,
            None => {
                proof {
                    assert(false);
                }
                (0, 0)
            },
        };
        proof {
            assert(x.0 <= now) by {
                assert(regs_pre.count(top) > 0);
                assert(reg_le(x, top));
            }
            assert(x.1 <= usize::MAX as u64) by {
                assert(regs_pre.count(x) > 0);
            }
            assert(timer.regs() == regs_pre.remove(x));
            assert(timer.regs().count(x) == regs_pre.count(x) - 1);
            assert forall|e: (u64, u64)| e != x implies #[trigger] timer.regs().count(e)
                == regs_pre.count(e) by {}
            assert forall|e: (u64, u64)| #[trigger] timer.regs().count(e) > 0 implies e.1
                <= usize::MAX as u64 by {
                assert(regs_pre.count(e) > 0);
            }
        }
        let ghost pre = *sched;
        let _ = unblock_task(sched, x.1 as usize);
        proof {
            assert forall|e: (u64, u64)| #[trigger]
                regs0.count(e) > timer.regs().count(e) && sched.task_map().dom().contains(
                    e.1 as usize,
                ) implies !sched.task_map()[e.1 as usize].blocked by {
                if e == x {
                } else {
                    assert(pre.task_map().dom().contains(e.1 as usize));
                    assert(!pre.task_map()[e.1 as usize].blocked);
                }
            }
        }
    }
}

/// Registers a one-shot wakeup for `task_id` at `time`. Returns at once when
/// the deadline has already passed; otherwise records the registration and
/// blocks the task. Fails with `TimerFull` when the heap is saturated, and
/// with `NotFound` when the task does not exist (the registration then stays
/// and matures into a no-op).
pub fn wait_task_until(
    timer: &mut TimerState,
    sched: &mut SchedulerState,
    time: u64,
    task_id: usize,
) -> (r: Result<(), Error>)
    requires
        old(timer).inv(),
        old(sched).inv(),
        task_id != IDLE_TASK_ID,
    ensures
        final(timer).inv(),
        final(sched).inv(),
        final(timer).time == old(timer).time,
        time <= old(timer).time ==> {
            &&& r == Ok::<(), Error>(())
            &&& final(timer).regs() == old(timer).regs()
            &&& *final(sched) == *old(sched)
        },
        time > old(timer).time && old(timer).regs().len() >= MAX_TIMER_REGS ==> {
            &&& r == Err::<(), Error>(Error::TimerFull)
            &&& final(timer).regs() == old(timer).regs()
            &&& *final(sched) == *old(sched)
        },
        time > old(timer).time && old(timer).regs().len() < MAX_TIMER_REGS ==> {
            &&& final(timer).regs() == old(timer).regs().insert((time, task_id as u64))
            &&& crate::scheduler::block_transition(*old(sched), *final(sched), task_id)
            &&& (old(sched).task_map().dom().contains(task_id) ==> r == Ok::<(), Error>(())
                && final(sched).task_map()[task_id].blocked)
            &&& (!old(sched).task_map().dom().contains(task_id) ==> r == Err::<(), Error>(
                Error::NotFound,
            ) && final(sched).task_map() == old(sched).task_map())
        },
{
    if time <= timer.time {
        return Ok(());
    }
    let ghost regs0 = timer.regs();
    let ok = timer.queue.push((time, task_id as u64));
    if !ok {
        return Err(Error::TimerFull);
    }
    proof {
        assert forall|e: (u64, u64)| #[trigger] timer.regs().count(e) > 0 implies e.1
            <= usize::MAX as u64 by {
            if e != (time, task_id as u64) {
                assert(regs0.count(e) > 0);
            }
        }
    }
    block_task(sched, task_id)
}

/// Blocks the currently executing task until the given time (in ticks):
/// exactly `wait_task_until(time, current_task_id())`. Best-effort delay — a
/// spurious unpark may end the sleep early, and the matured registration
/// then wakes a task that is already runnable, a no-op.
pub fn wait_until(timer: &mut TimerState, sched: &mut SchedulerState, time: u64) -> (r: Result<
    (),
    Error,
>)
    requires
        old(timer).inv(),
        old(sched).inv(),
        old(sched).current_task != IDLE_TASK_ID,
    ensures
        final(timer).inv(),
        final(sched).inv(),
        final(timer).time == old(timer).time,
        time <= old(timer).time ==> r == Ok::<(), Error>(()) && final(timer).regs() == old(
            timer,
        ).regs() && *final(sched) == *old(sched),
        time > old(timer).time && old(timer).regs().len() >= MAX_TIMER_REGS ==> {
            &&& r == Err::<(), Error>(Error::TimerFull)
            &&& final(timer).regs() == old(timer).regs()
            &&& *final(sched) == *old(sched)
        },
        time > old(timer).time && old(timer).regs().len() < MAX_TIMER_REGS ==> {
            &&& final(timer).regs() == old(timer).regs().insert(
                (time, old(sched).current_task as u64),
            )
            &&& crate::scheduler::block_transition(
                *old(sched),
                *final(sched),
                old(sched).current_task,
            )
            &&& (old(sched).task_map().dom().contains(old(sched).current_task) ==> r
                == Ok::<(), Error>(()) && final(sched).task_map()[old(
                sched,
            ).current_task].blocked)
            &&& (!old(sched).task_map().dom().contains(old(sched).current_task) ==> r
                == Err::<(), Error>(Error::NotFound) && final(sched).task_map() == old(
                sched,
            ).task_map())
        },
{
    let id = current_task_id(sched);
    wait_task_until(timer, sched, time, id)
}

/// The current time, in ticks since the scheduler started.
pub fn current_time(timer: &TimerState) -> (t: u64)
    ensures
        t == timer.time,
{
    timer.time
}

/// Over a run of consecutive ticks the clock advances by exactly the number
/// of ticks: `current_time` after N ticks equals `current_time` before plus
/// N. The sequence lists the counter value observed after each tick.
pub proof fn lemma_time_advances_by_ticks(times: Seq<u64>)
    requires
        times.len() > 0,
        forall|i: int| 1 <= i < times.len() ==> #[trigger] times[i] == times[i - 1] + 1,
    ensures
        times.last() == times[0] + times.len() - 1,
    decreases times.len(),
{
    if times.len() > 1 {
        let front = times.drop_last();
        assert forall|i: int| 1 <= i < front.len() implies #[trigger] front[i] == front[i - 1]
            + 1 by {
            assert(times[i] == times[i - 1] + 1);
        }
        lemma_time_advances_by_ticks(front);
        assert(times[times.len() - 1] == times[times.len() - 2] + 1);
        assert(front.last() == times[times.len() - 2]);
    }
}

} // verus!
