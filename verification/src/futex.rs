//! Low-level synchronization primitive modeled after the Linux `futex`
//! mechanism: an atomic word plus a bounded FIFO of waiting task ids,
//! realized as a self-contained object instead of an address-to-queue table.
//!
//! The atomic word is shared with interrupt handlers and other tasks, so no
//! two reads of it are assumed to agree; the blocking decision is specified
//! against the value the decisive read observed (`wait_with`).

use vstd::prelude::*;

use crate::scheduler::{block_task, block_transition, current_task_id, unblock_task, SchedulerState};
use crate::{Error, IDLE_TASK_ID, MAX_NUM_TASKS};

verus! {

#[verifier::external_type_specification]
#[verifier::external_body]
pub struct ExAtomicUsize(portable_atomic::AtomicUsize);

/// The value an atomic word was created with. `AtomicUsize::new` is a plain
/// constructor, so its result is a function of its argument alone; nothing is
/// assumed about the values later reads return, since the word is shared.
pub uninterp spec fn atomic_init_of(a: portable_atomic::AtomicUsize) -> usize;

/// Relies on `portable_atomic::AtomicUsize::new`: the word starts out holding
/// `value`.
#[verifier::external_body]
fn atomic_usize_new(value: usize) -> (r: portable_atomic::AtomicUsize)
    ensures
        atomic_init_of(r) == value,
{
    portable_atomic::AtomicUsize::new(value)
}

/// Relies on `portable_atomic::AtomicUsize::load` with sequentially
/// consistent ordering. The result depends on what other tasks and
/// interrupts stored, so nothing is promised of it.
#[verifier::external_body]
fn atomic_usize_load(a: &portable_atomic::AtomicUsize) -> usize {
    a.load(portable_atomic::Ordering::SeqCst)
}

/// The waiting task ids a futex queue holds, front to back.
pub uninterp spec fn waiter_queue_elems(q: WaiterQueue) -> Seq<usize>;

/// Bounded FIFO of waiting task ids with room for `MAX_NUM_TASKS` entries.
#[verifier::external_body]
pub struct WaiterQueue {
    inner: heapless::Deque<usize, MAX_NUM_TASKS>,
}

impl WaiterQueue {
    /// Relies on `heapless::Deque::new`: a freshly created deque is empty.
    #[verifier::external_body]
    pub fn new() -> (q: WaiterQueue)
        ensures
            waiter_queue_elems(q) == Seq::<usize>::empty(),
    {
        WaiterQueue { inner: heapless::Deque::new() }
    }

    /// Relies on `heapless::Deque::push_back`: appends at the back when the
    /// deque holds fewer than `MAX_NUM_TASKS` elements, else rejects the
    /// item.
    #[verifier::external_body]
    pub fn push_back(&mut self, id: usize) -> (ok: bool)
        ensures
            waiter_queue_elems(*old(self)).len() < MAX_NUM_TASKS ==> ok && waiter_queue_elems(
                *final(self),
            ) == waiter_queue_elems(*old(self)).push(id),
            waiter_queue_elems(*old(self)).len() >= MAX_NUM_TASKS ==> !ok && waiter_queue_elems(
                *final(self),
            ) == waiter_queue_elems(*old(self)),
    {
        self.inner.push_back(id).is_ok()
    }

    /// Relies on `heapless::Deque::pop_front`: removes and returns the front
    /// element, or `None` when the deque is empty.
    #[verifier::external_body]
    pub fn pop_front(&mut self) -> (r: Option<usize>)
        ensures
            waiter_queue_elems(*old(self)).len() == 0 ==> r is None && waiter_queue_elems(
                *final(self),
            ) == waiter_queue_elems(*old(self)),
            waiter_queue_elems(*old(self)).len() > 0 ==> r == Some(
                waiter_queue_elems(*old(self))[0],
            ) && waiter_queue_elems(*final(self)) == waiter_queue_elems(*old(self)).drop_first(),
    {
        self.inner.pop_front()
    }
}

/// Low-level synchronization primitive: an atomic word plus a FIFO of
/// waiting tasks. The internal atomic integer can be reached through
/// `as_ref`.
pub struct Futex {
    pub value: portable_atomic::AtomicUsize,
    pub waiting_tasks: WaiterQueue,
}

/// What a wake of up to `num` waiters leaves behind, given the waiter list
/// and scheduler state it started from. Waiters are popped front to back,
/// each unblocked in turn; popping stops after `num` waiters, when the queue
/// empties, or — with `NotFound` — at the first waiter id that no longer
/// names a live task (its registration is consumed, the rest stay).
pub open spec fn wake_post(
    ws: Seq<usize>,
    pre: SchedulerState,
    post_ws: Seq<usize>,
    post: SchedulerState,
    num: int,
    r: Result<(), Error>,
) -> bool {
    let k = if num < ws.len() {
        num
    } else {
        ws.len() as int
    };
    &&& post.inv()
    &&& post.task_map().dom() == pre.task_map().dom()
    &&& post.current_task == pre.current_task
    &&& post.started == pre.started
    &&& post.last_task_id == pre.last_task_id
    &&& (forall|id: usize| #[trigger] post.task_map().dom().contains(id) ==> {
        &&& post.task_map()[id].priority == pre.task_map()[id].priority
        &&& post.task_map()[id].stack_pointer == pre.task_map()[id].stack_pointer
        &&& post.task_map()[id].stack_limit == pre.task_map()[id].stack_limit
        &&& (post.task_map()[id].blocked ==> pre.task_map()[id].blocked)
    })
    &&& if forall|i: int| 0 <= i < k ==> pre.task_map().dom().contains(#[trigger] ws[i]) {
        &&& r == Ok::<(), Error>(())
        &&& post_ws == ws.skip(k)
        &&& forall|i: int|
            0 <= i < k ==> !post.task_map()[#[trigger] ws[i]].blocked
    } else {
        &&& r == Err::<(), Error>(Error::NotFound)
        &&& exists|j: int|
            {
                &&& 0 <= j < k
                &&& !pre.task_map().dom().contains(#[trigger] ws[j])
                &&& (forall|i: int|
                    0 <= i < j ==> pre.task_map().dom().contains(#[trigger] ws[i])
                        && !post.task_map()[ws[i]].blocked)
                &&& post_ws == ws.skip(j + 1)
            }
    }
}

impl Futex {
    /// A new futex whose waiter queue is empty and whose atomic word starts
    /// at `value`.
    pub fn new(value: usize) -> (f: Futex)
        ensures
            f.waiters() == Seq::<usize>::empty(),
            atomic_init_of(f.value) == value,
    {
        Futex { value: atomic_usize_new(value), waiting_tasks: WaiterQueue::new() }
    }

    /// The ids waiting on this futex, front to back.
    pub open spec fn waiters(self) -> Seq<usize> {
        waiter_queue_elems(self.waiting_tasks)
    }

    /// The internal atomic integer, for callers to mutate under their own
    /// discipline.
    pub fn as_ref(&self) -> &portable_atomic::AtomicUsize {
        &self.value
    }

    /// The blocking decision of `wait`, taking the value `observed` that the
    /// decisive (critical-section) read of the atomic word returned: the
    /// current task is enqueued and blocked if and only if that value equals
    /// `compare_val` (and the waiter queue has room and the current task is
    /// live). Spurious wakeups are permitted; callers re-test the condition.
    pub fn wait_with(
        &mut self,
        sched: &mut SchedulerState,
        observed: usize,
        compare_val: usize,
    ) -> (r: Result<(), Error>)
        requires
            old(sched).inv(),
            old(sched).current_task != IDLE_TASK_ID,
        ensures
            final(sched).inv(),
            final(sched).current_task == old(sched).current_task,
            observed != compare_val ==> {
                &&& r == Ok::<(), Error>(())
                &&& final(self).waiters() == old(self).waiters()
                &&& *final(sched) == *old(sched)
            },
            observed == compare_val && old(self).waiters().len() >= MAX_NUM_TASKS ==> {
                &&& r == Err::<(), Error>(Error::TaskFull)
                &&& final(self).waiters() == old(self).waiters()
                &&& *final(sched) == *old(sched)
            },
            observed == compare_val && old(self).waiters().len() < MAX_NUM_TASKS ==> {
                &&& final(self).waiters() == old(self).waiters().push(old(sched).current_task)
                &&& block_transition(*old(sched), *final(sched), old(sched).current_task)
                &&& (old(sched).task_map().dom().contains(old(sched).current_task) ==> r
                    == Ok::<(), Error>(()) && final(sched).task_map()[old(
                    sched,
                ).current_task].blocked)
                &&& (!old(sched).task_map().dom().contains(old(sched).current_task) ==> r
                    == Err::<(), Error>(Error::NotFound) && final(sched).task_map() == old(
                    sched,
                ).task_map())
            },
    {
        if observed != compare_val {
            return Ok(());
        }
        let task_id = current_task_id(sched);
        let pushed = self.waiting_tasks.push_back(task_id);
        if !pushed {
            return Err(Error::TaskFull);
        }
        block_task(sched, task_id)
    }

    /// Blocks the current task if the atomic word equals `compare_val`:
    /// double-checked, with a lock-free read first and then a second,
    /// decisive read whose outcome `wait_with` acts on, so a concurrently
    /// posted change is not missed. Whatever the shared word held, either
    /// nothing changed, or the current task is at the back of the waiter
    /// queue and blocked.
    pub fn wait(&mut self, sched: &mut SchedulerState, compare_val: usize) -> (r: Result<(), Error>)
        requires
            old(sched).inv(),
            old(sched).current_task != IDLE_TASK_ID,
        ensures
            final(sched).inv(),
            final(sched).current_task == old(sched).current_task,
            // With room in the waiter queue and a live current task, no
            // error can arise, whatever the word held.
            old(self).waiters().len() < MAX_NUM_TASKS && old(sched).task_map().dom().contains(
                old(sched).current_task,
            ) ==> r == Ok::<(), Error>(()),
            ({
                ||| {
                    &&& r == Ok::<(), Error>(())
                    &&& final(self).waiters() == old(self).waiters()
                    &&& *final(sched) == *old(sched)
                }
                ||| {
                    &&& r == Err::<(), Error>(Error::TaskFull)
                    &&& final(self).waiters() == old(self).waiters()
                    &&& *final(sched) == *old(sched)
                }
                ||| {
                    &&& final(self).waiters() == old(self).waiters().push(
                        old(sched).current_task,
                    )
                    &&& block_transition(*old(sched), *final(sched), old(sched).current_task)
                    &&& (r == Ok::<(), Error>(()) ==> final(sched).task_map()[old(
                        sched,
                    ).current_task].blocked)
                    &&& (r == Err::<(), Error>(Error::NotFound) ==> final(sched).task_map()
                        == old(sched).task_map())
                    &&& (r == Ok::<(), Error>(()) || r == Err::<(), Error>(Error::NotFound))
                }
            }),
    {
        let fast = atomic_usize_load(&self.value);
        if fast == compare_val {
            let decisive = atomic_usize_load(&self.value);
            self.wait_with(sched, decisive, compare_val)
        } else {
            Ok(())
        }
    }

    /// Unblocks at most `num` waiters, front to back, stopping early when the
    /// queue empties; a stale waiter id yields `NotFound` after consuming
    /// that registration.
    pub fn wake(&mut self, sched: &mut SchedulerState, num: usize) -> (r: Result<(), Error>)
        requires
            old(sched).inv(),
        ensures
            wake_post(
                old(self).waiters(),
                *old(sched),
                final(self).waiters(),
                *final(sched),
                num as int,
                r,
            ),
    {
        let ghost ws = self.waiters();
        let ghost sched0 = *sched;
        let mut i: usize = 0;
        loop
            invariant
                sched0 == *old(sched),
                ws == old(self).waiters(),
                sched.inv(),
                i <= num,
                i <= ws.len(),
                self.waiters() == ws.skip(i as int),
                sched.task_map().dom() == sched0.task_map().dom(),
                sched.current_task == sched0.current_task,
                sched.started == sched0.started,
                sched.last_task_id == sched0.last_task_id,
                forall|id: usize| #[trigger] sched.task_map().dom().contains(id) ==> {
                    &&& sched.task_map()[id].priority == sched0.task_map()[id].priority
                    &&& sched.task_map()[id].stack_pointer == sched0.task_map()[id].stack_pointer
                    &&& sched.task_map()[id].stack_limit == sched0.task_map()[id].stack_limit
                    &&& (sched.task_map()[id].blocked ==> sched0.task_map()[id].blocked)
                },
                forall|l: int|
                    0 <= l < i ==> sched0.task_map().dom().contains(#[trigger] ws[l])
                        && !sched.task_map()[ws[l]].blocked,
            ensures
                i <= num,
                i <= ws.len(),
                i == num || i == ws.len(),
                self.waiters() == ws.skip(i as int),
                sched.inv(),
                sched.task_map().dom() == sched0.task_map().dom(),
                sched.current_task == sched0.current_task,
                sched.started == sched0.started,
                sched.last_task_id == sched0.last_task_id,
                forall|id: usize| #[trigger] sched.task_map().dom().contains(id) ==> {
                    &&& sched.task_map()[id].priority == sched0.task_map()[id].priority
                    &&& sched.task_map()[id].stack_pointer == sched0.task_map()[id].stack_pointer
                    &&& sched.task_map()[id].stack_limit == sched0.task_map()[id].stack_limit
                    &&& (sched.task_map()[id].blocked ==> sched0.task_map()[id].blocked)
                },
                forall|l: int|
                    0 <= l < i ==> sched0.task_map().dom().contains(#[trigger] ws[l])
                        && !sched.task_map()[ws[l]].blocked,
            decreases num - i,
        {
            if i >= num {
                break ;
            }
            let ghost pre_ws = self.waiters();
            let tid = match self.waiting_tasks.pop_front() {
                None => {
                    break ;
                },
                Some(tid) => tid,
            };
            proof {
                assert(tid == ws[i as int]) by {
                    assert(pre_ws[0] == ws.skip(i as int)[0]);
                }
                assert(self.waiters() =~= ws.skip(i as int + 1)) by {
                    assert(self.waiters() == pre_ws.drop_first());
                }
            }
            let ghost pre_sched = *sched;
            match unblock_task(sched, tid) {
                Ok(_) => {},
                Err(e) => {
                    proof {
                        lemma_wake_err(ws, sched0, *sched, pre_sched, i as int, num as int, tid);
                    }
                    return Err(e);
                },
            }
            proof {
                assert forall|l: int|
                    0 <= l < i + 1 implies sched0.task_map().dom().contains(#[trigger] ws[l])
                    && !sched.task_map()[ws[l]].blocked by {
                    if l < i {
                        assert(!pre_sched.task_map()[ws[l]].blocked);
                    }
                }
            }
            i = i + 1;
        }
        proof {
            if i == num && (num as int) < ws.len() {
            } else {
                assert(ws.skip(i as int) =~= ws.skip(
                    if (num as int) < ws.len() {
                        num as int
                    } else {
                        ws.len() as int
                    },
                ));
            }
        }
        Ok(())
    }

    /// Unblocks at most one waiter.
    pub fn wake_one(&mut self, sched: &mut SchedulerState) -> (r: Result<(), Error>)
        requires
            old(sched).inv(),
        ensures
            wake_post(
                old(self).waiters(),
                *old(sched),
                final(self).waiters(),
                *final(sched),
                1,
                r,
            ),
    {
        self.wake(sched, 1)
    }

    /// Unblocks every waiter.
    pub fn wake_all(&mut self, sched: &mut SchedulerState) -> (r: Result<(), Error>)
        requires
            old(sched).inv(),
        ensures
            wake_post(
                old(self).waiters(),
                *old(sched),
                final(self).waiters(),
                *final(sched),
                MAX_NUM_TASKS as int,
                r,
            ),
    {
        self.wake(sched, MAX_NUM_TASKS)
    }
}

/// The error path of `wake`: the popped waiter at position `j` was stale,
/// everything before it was woken.
proof fn lemma_wake_err(
    ws: Seq<usize>,
    sched0: SchedulerState,
    post: SchedulerState,
    pre: SchedulerState,
    j: int,
    num: int,
    tid: usize,
)
    requires
        0 <= j < num,
        0 <= j < ws.len(),
        tid == ws[j],
        !pre.task_map().dom().contains(tid),
        pre.task_map().dom() == sched0.task_map().dom(),
        post.task_map() == pre.task_map(),
        forall|l: int|
            0 <= l < j ==> sched0.task_map().dom().contains(#[trigger] ws[l])
                && !pre.task_map()[ws[l]].blocked,
    ensures
        ({
            let k = if num < ws.len() {
                num
            } else {
                ws.len() as int
            };
            &&& !(forall|i: int| 0 <= i < k ==> sched0.task_map().dom().contains(#[trigger] ws[i]))
            &&& 0 <= j < k
            &&& !sched0.task_map().dom().contains(ws[j])
            &&& forall|i: int|
                0 <= i < j ==> sched0.task_map().dom().contains(#[trigger] ws[i])
                    && !post.task_map()[ws[i]].blocked
        }),
{
    let k = if num < ws.len() {
        num
    } else {
        ws.len() as int
    };
    assert(!sched0.task_map().dom().contains(ws[j]));
}

} // verus!
