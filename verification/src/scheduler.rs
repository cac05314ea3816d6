//! The scheduler core: task lifecycle (init, spawn, remove, block, unblock),
//! the dispatcher `select_task`, and the tick handler.
//!
//! Fixed-priority scheduling with round-robin rotation among tasks of the
//! same priority. All state lives in an explicit [`SchedulerState`] value;
//! the surrounding runtime owns the singleton and the critical sections and
//! hands the state in by `&mut`.

use vstd::prelude::*;

use crate::queues::{
    bit_set, is_bitmap_with_clear, is_bitmap_with_set, lemma_remove_all_contains,
    lemma_remove_all_no_duplicates, remove_all, ReadySet,
};
use crate::table::{task_table_map, TaskInfo, TaskTable};
use crate::task::{TaskConfig, TaskHandle};
use crate::{Error, IDLE_PRIORITY, IDLE_TASK_ID, MAX_NUM_TASKS, MAX_PRIORITY};

verus! {

/// Scheduler configuration.
#[derive(Clone, Copy, Debug)]
#[non_exhaustive]
pub struct SchedulerConfig {
    /// Tick interrupt frequency in Hz.
    pub tick_freq: u32,
}

impl SchedulerConfig {
    /// Sets the tick frequency.
    pub fn with_tick_freq(self, tick_freq: u32) -> (r: Self)
        ensures
            r.tick_freq == tick_freq,
    {
        Self { tick_freq }
    }
}

impl Default for SchedulerConfig {
    /// The default tick frequency is 1 kHz.
    fn default() -> (r: Self)
        ensures
            r.tick_freq == 1000,
    {
        Self { tick_freq: 1000 }
    }
}

/// Handle object for the scheduler, carrying what `start` needs: the clock
/// frequency and the bounds of the idle task's stack (as plain addresses).
pub struct Scheduler {
    pub clock_freq: u32,
    pub idle_task_stack_start: usize,
    pub idle_task_stack_end: usize,
}

impl Scheduler {
    /// Packs the values that starting the scheduler will need.
    pub fn new(clock_freq: u32, idle_task_stack_start: usize, idle_task_stack_end: usize) -> (r:
        Scheduler)
        ensures
            r.clock_freq == clock_freq,
            r.idle_task_stack_start == idle_task_stack_start,
            r.idle_task_stack_end == idle_task_stack_end,
    {
        Scheduler { clock_freq, idle_task_stack_start, idle_task_stack_end }
    }
}

/// The whole scheduling state: task table, last allocated id, ready queues
/// with their bitmap, the currently executing task, and the started flag.
pub struct SchedulerState {
    pub tasks: TaskTable,
    pub last_task_id: usize,
    pub ready: ReadySet,
    pub current_task: usize,
    pub started: bool,
}

impl SchedulerState {
    /// The task table as a mathematical map from id to TCB.
    pub open spec fn task_map(self) -> Map<usize, TaskInfo> {
        task_table_map(self.tasks)
    }

    /// Ready queue contents at priority `p`, front to back.
    pub open spec fn queue_at(self, p: int) -> Seq<usize> {
        self.ready@.queues[p]
    }

    /// The task table is finite and within capacity.
    pub open spec fn table_bounded(self) -> bool {
        &&& self.task_map().dom().finite()
        &&& self.task_map().dom().len() <= MAX_NUM_TASKS
    }

    /// Every live task has a priority within range.
    pub open spec fn priorities_bounded(self) -> bool {
        forall|id: usize| #[trigger]
            self.task_map().dom().contains(id) ==> self.task_map()[id].priority <= MAX_PRIORITY
    }

    /// The idle task is always live, at the idle priority, and never blocked.
    pub open spec fn idle_ok(self) -> bool {
        &&& self.task_map().dom().contains(IDLE_TASK_ID)
        &&& self.task_map()[IDLE_TASK_ID].priority == IDLE_PRIORITY
        &&& !self.task_map()[IDLE_TASK_ID].blocked
    }

    /// Every queue entry is a live, unblocked task of that queue's priority
    /// and is not the currently executing task.
    pub open spec fn queued_is_runnable(self) -> bool {
        forall|p: int, i: int|
            0 <= p <= MAX_PRIORITY && 0 <= i < self.queue_at(p).len() ==> {
                let id = #[trigger] self.queue_at(p)[i];
                &&& self.task_map().dom().contains(id)
                &&& self.task_map()[id].priority == p
                &&& !self.task_map()[id].blocked
                &&& id != self.current_task
            }
    }

    /// No task appears twice in a queue.
    pub open spec fn queues_distinct(self) -> bool {
        forall|p: int| 0 <= p <= MAX_PRIORITY ==> (#[trigger] self.queue_at(p)).no_duplicates()
    }

    /// A live, unblocked task that is not currently executing stands in the
    /// ready queue of its own priority.
    pub open spec fn runnable_is_queued(self) -> bool {
        forall|id: usize| #[trigger]
            self.task_map().dom().contains(id) && !self.task_map()[id].blocked && id
                != self.current_task ==> self.queue_at(
                self.task_map()[id].priority as int,
            ).contains(id)
    }

    /// The scheduler invariant, which every reachable state satisfies:
    /// - the bitmap mirrors queue non-emptiness bit for bit (`ready.wf()`);
    /// - the currently executing task is absent from all ready queues;
    /// - a blocked task is absent from all queues, an unblocked non-current
    ///   task is present in exactly one, at its own priority;
    /// - idle (task 0) is live, never blocked, at priority 0;
    /// - the table is finite and within capacity, priorities within range.
    pub open spec fn inv(self) -> bool {
        &&& self.ready.wf()
        &&& self.table_bounded()
        &&& self.priorities_bounded()
        &&& self.idle_ok()
        &&& self.queued_is_runnable()
        &&& self.queues_distinct()
        &&& self.runnable_is_queued()
    }

    /// Fresh scheduler state: only the idle task exists, with the caller's
    /// idle stack bottom recorded; the idle task is the one currently
    /// executing, so no queue holds anything yet.
    pub fn init(idle_stack_limit: usize) -> (s: SchedulerState)
        ensures
            s.inv(),
            (s.task_map() == Map::<usize, TaskInfo>::empty().insert(
                IDLE_TASK_ID,
                TaskInfo {
                    stack_pointer: 0,
                    priority: IDLE_PRIORITY,
                    blocked: false,
                    stack_limit: idle_stack_limit,
                },
            )),
            forall|p: int| 0 <= p <= MAX_PRIORITY ==> s.queue_at(p) == Seq::<usize>::empty(),
            s.last_task_id == IDLE_TASK_ID,
            s.current_task == IDLE_TASK_ID,
            !s.started,
    {
        let mut tasks = TaskTable::new();
        let idle_info = TaskInfo {
            stack_pointer: 0,
            priority: IDLE_PRIORITY,
            blocked: false,
            stack_limit: idle_stack_limit,
        };
        let ir = tasks.insert(IDLE_TASK_ID, idle_info);
        proof {
            assert(ir is Ok);
        }
        let ready = ReadySet::new();
        let s = SchedulerState {
            tasks,
            last_task_id: IDLE_TASK_ID,
            ready,
            current_task: IDLE_TASK_ID,
            started: false,
        };
        proof {
            assert(s.task_map().dom() =~= Set::<usize>::empty().insert(IDLE_TASK_ID));
            vstd::set_lib::lemma_set_empty_equivalency_len(Set::<usize>::empty());
        }
        s
    }

    /// Raises the started flag, once all initial tasks have been spawned;
    /// nothing else moves.
    pub fn mark_started(&mut self)
        requires
            old(self).inv(),
        ensures
            final(self).inv(),
            final(self).started,
            final(self).tasks == old(self).tasks,
            final(self).ready == old(self).ready,
            final(self).current_task == old(self).current_task,
            final(self).last_task_id == old(self).last_task_id,
    {
        self.started = true;
        proof {
            lemma_inv_same_core(*old(self), *self);
        }
    }
}

/// In every reachable scheduler state, bitmap bit `p` is set exactly when
/// ready queue `p` is non-empty.
pub proof fn lemma_bitmap_mirrors_queues(s: SchedulerState)
    requires
        s.inv(),
    ensures
        forall|p: u32| p <= MAX_PRIORITY ==> (#[trigger] bit_set(s.ready@.bitmap, p)
            <==> s.queue_at(p as int).len() != 0),
        forall|p: u32| MAX_PRIORITY < p < 32 ==> !bit_set(s.ready@.bitmap, p),
{
}

/// In every reachable scheduler state, the currently executing task stands
/// in no ready queue.
pub proof fn lemma_current_not_queued(s: SchedulerState)
    requires
        s.inv(),
    ensures
        forall|p: int| 0 <= p <= MAX_PRIORITY ==> !(#[trigger] s.queue_at(p).contains(
            s.current_task,
        )),
{
    assert forall|p: int| 0 <= p <= MAX_PRIORITY implies !(#[trigger] s.queue_at(p).contains(
        s.current_task,
    )) by {
        if s.queue_at(p).contains(s.current_task) {
            let i = choose|i: int|
                0 <= i < s.queue_at(p).len() && s.queue_at(p)[i] == s.current_task;
            assert(s.queue_at(p)[i] != s.current_task);
        }
    }
}

/// A distinct sequence of values drawn from a finite set is no longer than
/// the set.
pub proof fn lemma_queue_len_le_dom(s: Seq<usize>, dom: Set<usize>)
    requires
        s.no_duplicates(),
        forall|i: int| 0 <= i < s.len() ==> dom.contains(#[trigger] s[i]),
        dom.finite(),
    ensures
        s.len() <= dom.len(),
{
    broadcast use vstd::seq_lib::seq_to_set_is_finite;

    s.unique_seq_to_set();
    assert(s.to_set().subset_of(dom)) by {
        assert forall|x: usize| s.to_set().contains(x) implies dom.contains(x) by {
            let i = choose|i: int| 0 <= i < s.len() && s[i] == x;
            assert(dom.contains(s[i]));
        }
    }
    vstd::set_lib::lemma_len_subset(s.to_set(), dom);
}

/// The number of live tasks, the idle task included. Each successful spawn
/// adds exactly one, each successful remove takes exactly one away, and
/// blocking or unblocking changes none — so after any run of lifecycle
/// operations this equals one (for idle) plus the number of spawns minus the
/// number of removes.
pub fn task_count(sched: &SchedulerState) -> (n: usize)
    ensures
        n == sched.task_map().dom().len(),
{
    sched.tasks.len()
}

/// Reads the identifier of the currently executing task.
pub fn current_task_id(sched: &SchedulerState) -> (id: usize)
    ensures
        id == sched.current_task,
{
    sched.current_task
}

/// Exactly how `block_task(id)` moves the scheduler state, whatever the
/// outcome: nothing but the task's blocked flag and its priority's ready
/// queue can change, and those only when the task was live and unblocked.
pub open spec fn block_transition(pre: SchedulerState, post: SchedulerState, id: usize) -> bool {
    &&& post.current_task == pre.current_task
    &&& post.started == pre.started
    &&& post.last_task_id == pre.last_task_id
    &&& post.task_map().dom() == pre.task_map().dom()
    &&& (!(pre.task_map().dom().contains(id) && !pre.task_map()[id].blocked) ==> {
        &&& post.task_map() == pre.task_map()
        &&& post.ready@.queues == pre.ready@.queues
        &&& post.ready@.bitmap == pre.ready@.bitmap
    })
    &&& (pre.task_map().dom().contains(id) && !pre.task_map()[id].blocked ==> {
        &&& post.task_map() == pre.task_map().insert(
            id,
            TaskInfo { blocked: true, ..pre.task_map()[id] },
        )
        &&& post.ready@.queues == pre.ready@.queues.update(
            pre.task_map()[id].priority as int,
            remove_all(pre.queue_at(pre.task_map()[id].priority as int), id),
        )
        &&& post.task_map()[id].blocked
    })
}

/// Exactly how `unblock_task(id)` moves the scheduler state, whatever the
/// outcome: nothing but the task's blocked flag and its priority's ready
/// queue can change, and those only when the task was live and blocked; the
/// currently executing task is never enqueued.
pub open spec fn unblock_transition(pre: SchedulerState, post: SchedulerState, id: usize) -> bool {
    &&& post.current_task == pre.current_task
    &&& post.started == pre.started
    &&& post.last_task_id == pre.last_task_id
    &&& post.task_map().dom() == pre.task_map().dom()
    &&& (!(pre.task_map().dom().contains(id) && pre.task_map()[id].blocked) ==> {
        &&& post.task_map() == pre.task_map()
        &&& post.ready@.queues == pre.ready@.queues
        &&& post.ready@.bitmap == pre.ready@.bitmap
    })
    &&& (pre.task_map().dom().contains(id) && pre.task_map()[id].blocked ==> {
        &&& post.task_map() == pre.task_map().insert(
            id,
            TaskInfo { blocked: false, ..pre.task_map()[id] },
        )
        &&& !post.task_map()[id].blocked
        &&& (id != pre.current_task ==> post.ready@.queues == pre.ready@.queues.update(
            pre.task_map()[id].priority as int,
            pre.queue_at(pre.task_map()[id].priority as int).push(id),
        ))
        &&& (id == pre.current_task ==> post.ready@.queues == pre.ready@.queues
            && post.ready@.bitmap == pre.ready@.bitmap)
    })
}

/// Marks the task blocked and removes it from its priority's ready queue,
/// clearing the bitmap bit if that queue became empty. Blocking an already
/// blocked task is a no-op; the idle task can never be blocked.
pub fn block_task(sched: &mut SchedulerState, id: usize) -> (r: Result<(), Error>)
    requires
        old(sched).inv(),
        id != IDLE_TASK_ID,
    ensures
        final(sched).inv(),
        final(sched).current_task == old(sched).current_task,
        final(sched).started == old(sched).started,
        final(sched).last_task_id == old(sched).last_task_id,
        final(sched).task_map().dom() == old(sched).task_map().dom(),
        !old(sched).task_map().dom().contains(id) ==> {
            &&& r == Err::<(), Error>(Error::NotFound)
            &&& final(sched).task_map() == old(sched).task_map()
            &&& final(sched).ready@.queues == old(sched).ready@.queues
            &&& final(sched).ready@.bitmap == old(sched).ready@.bitmap
        },
        old(sched).task_map().dom().contains(id) && old(sched).task_map()[id].blocked ==> {
            &&& r == Ok::<(), Error>(())
            &&& final(sched).task_map() == old(sched).task_map()
            &&& final(sched).ready@.queues == old(sched).ready@.queues
            &&& final(sched).ready@.bitmap == old(sched).ready@.bitmap
        },
        old(sched).task_map().dom().contains(id) && !old(sched).task_map()[id].blocked ==> {
            let p = old(sched).task_map()[id].priority as int;
            &&& r == Ok::<(), Error>(())
            &&& final(sched).task_map() == old(sched).task_map().insert(
                id,
                TaskInfo { blocked: true, ..old(sched).task_map()[id] },
            )
            &&& final(sched).ready@.queues == old(sched).ready@.queues.update(
                p,
                remove_all(old(sched).queue_at(p), id),
            )
            &&& final(sched).task_map()[id].blocked
        },
        block_transition(*old(sched), *final(sched), id),
{
    let info = match sched.tasks.get(id) {
        None => {
            return Err(Error::NotFound);
        },
        Some(t) => t,
    };
    if info.blocked {
        return Ok(());
    }
    let ghost pre = *sched;
    let ir = sched.tasks.insert(id, TaskInfo { blocked: true, ..info });
    proof {
        assert(ir == Ok::<Option<TaskInfo>, (usize, TaskInfo)>(Some(info)));
    }
    let ghost mid = *sched;
    proof {
        assert(info.priority <= MAX_PRIORITY);
        assert forall|i: int|
            0 <= i < pre.queue_at(info.priority as int).len() implies pre.task_map().dom().contains(
            #[trigger] pre.queue_at(info.priority as int)[i],
        ) by {}
        lemma_queue_len_le_dom(pre.queue_at(info.priority as int), pre.task_map().dom());
    }
    sched.ready.remove_task_from_queue(id, info.priority);
    proof {
        lemma_block_preserves_inv(pre, *sched, id, info);
        assert(sched.task_map().dom() =~= pre.task_map().dom());
    }
    Ok(())
}

/// Blocking `id` (live and unblocked in `pre`) preserves the invariant.
proof fn lemma_block_preserves_inv(pre: SchedulerState, post: SchedulerState, id: usize, info: TaskInfo)
    requires
        pre.inv(),
        id != IDLE_TASK_ID,
        pre.task_map().dom().contains(id),
        !pre.task_map()[id].blocked,
        info == pre.task_map()[id],
        post.task_map() == pre.task_map().insert(id, TaskInfo { blocked: true, ..info }),
        post.ready@.queues == pre.ready@.queues.update(
            info.priority as int,
            remove_all(pre.queue_at(info.priority as int), id),
        ),
        remove_all(pre.queue_at(info.priority as int), id).len() == 0 ==> is_bitmap_with_clear(
            pre.ready@.bitmap,
            post.ready@.bitmap,
            info.priority as u32,
        ),
        remove_all(pre.queue_at(info.priority as int), id).len() != 0 ==> post.ready@.bitmap
            == pre.ready@.bitmap,
        post.current_task == pre.current_task,
    ensures
        post.inv(),
{
    let p = info.priority as int;
    let qp0 = pre.queue_at(p);
    let qp1 = remove_all(qp0, id);
    assert(post.task_map().dom() =~= pre.task_map().dom());

    // Bitmap coupling (ready.wf)
    assert forall|pb: u32| pb <= MAX_PRIORITY implies (bit_set(post.ready@.bitmap, pb) <==> (
    #[trigger] post.ready@.queues[pb as int].len() != 0)) by {
        if qp1.len() == 0 {
            if pb as int == p {
                assert(post.queue_at(pb as int).len() == 0);
                assert(!bit_set(post.ready@.bitmap, pb));
            } else {
                assert(post.queue_at(pb as int) == pre.queue_at(pb as int));
                assert(bit_set(post.ready@.bitmap, pb) <==> bit_set(pre.ready@.bitmap, pb));
            }
        } else {
            if pb as int == p {
                assert(qp0.len() != 0) by {
                    if qp0.len() == 0 {
                        assert(qp1 == remove_all(qp0, id));
                    }
                }
                assert(bit_set(pre.ready@.bitmap, pb));
            }
        }
    }
    assert forall|pb: u32| MAX_PRIORITY < pb < 32 implies !bit_set(post.ready@.bitmap, pb) by {
        if qp1.len() == 0 {
            assert(is_bitmap_with_clear(pre.ready@.bitmap, post.ready@.bitmap, info.priority as u32));
        }
    }

    // Queue entries stay valid
    assert forall|pb: int, i: int|
        0 <= pb <= MAX_PRIORITY && 0 <= i < post.queue_at(pb).len() implies {
        let e = #[trigger] post.queue_at(pb)[i];
        &&& post.task_map().dom().contains(e)
        &&& post.task_map()[e].priority == pb
        &&& !post.task_map()[e].blocked
        &&& e != post.current_task
    } by {
        let e = post.queue_at(pb)[i];
        if pb == p {
            assert(qp1.contains(e)) by {
                assert(qp1[i] == e);
            }
            lemma_remove_all_contains(qp0, id, e);
            assert(qp0.contains(e));
            let j = choose|j: int| 0 <= j < qp0.len() && qp0[j] == e;
            assert(pre.queue_at(p)[j] == e);
            assert(e != id);
        } else {
            assert(post.queue_at(pb) == pre.queue_at(pb));
            assert(pre.queue_at(pb)[i] == e);
            assert(e != id) by {
                assert(pre.task_map()[e].priority == pb);
            }
        }
    }

    // Distinctness
    assert forall|pb: int| 0 <= pb <= MAX_PRIORITY implies (#[trigger] post.queue_at(
        pb,
    )).no_duplicates() by {
        if pb == p {
            lemma_remove_all_no_duplicates(qp0, id);
        } else {
            assert(post.queue_at(pb) == pre.queue_at(pb));
        }
    }

    // Runnable tasks are queued
    assert forall|e: usize| #[trigger]
        post.task_map().dom().contains(e) && !post.task_map()[e].blocked && e
            != post.current_task implies post.queue_at(
        post.task_map()[e].priority as int,
    ).contains(e) by {
        assert(e != id);
        assert(pre.task_map().dom().contains(e));
        assert(post.task_map()[e] == pre.task_map()[e]);
        let pe = pre.task_map()[e].priority as int;
        assert(pre.queue_at(pe).contains(e));
        if pe == p {
            lemma_remove_all_contains(qp0, id, e);
        } else {
            assert(post.queue_at(pe) == pre.queue_at(pe));
        }
    }
}

/// Clears the blocked flag. If the task is not the one currently executing
/// it is appended at the tail of its priority's ready queue and the bitmap
/// bit is set, so a higher-priority wakeup preempts at the next scheduling
/// point. Unblocking a task that is not blocked is a no-op.
pub fn unblock_task(sched: &mut SchedulerState, id: usize) -> (r: Result<(), Error>)
    requires
        old(sched).inv(),
    ensures
        final(sched).inv(),
        final(sched).current_task == old(sched).current_task,
        final(sched).started == old(sched).started,
        final(sched).last_task_id == old(sched).last_task_id,
        (r == Ok::<(), Error>(()) <==> old(sched).task_map().dom().contains(id)),
        final(sched).task_map().dom() == old(sched).task_map().dom(),
        !old(sched).task_map().dom().contains(id) ==> {
            &&& r == Err::<(), Error>(Error::NotFound)
            &&& final(sched).task_map() == old(sched).task_map()
            &&& final(sched).ready@.queues == old(sched).ready@.queues
            &&& final(sched).ready@.bitmap == old(sched).ready@.bitmap
        },
        old(sched).task_map().dom().contains(id) && !old(sched).task_map()[id].blocked ==> {
            &&& final(sched).task_map() == old(sched).task_map()
            &&& final(sched).ready@.queues == old(sched).ready@.queues
            &&& final(sched).ready@.bitmap == old(sched).ready@.bitmap
        },
        old(sched).task_map().dom().contains(id) && old(sched).task_map()[id].blocked ==> {
            &&& final(sched).task_map() == old(sched).task_map().insert(
                id,
                TaskInfo { blocked: false, ..old(sched).task_map()[id] },
            )
            &&& !final(sched).task_map()[id].blocked
            &&& (id != old(sched).current_task ==> final(sched).ready@.queues == old(
                sched,
            ).ready@.queues.update(
                old(sched).task_map()[id].priority as int,
                old(sched).queue_at(old(sched).task_map()[id].priority as int).push(id),
            ))
            &&& (id == old(sched).current_task ==> final(sched).ready@.queues == old(
                sched,
            ).ready@.queues && final(sched).ready@.bitmap == old(sched).ready@.bitmap)
        },
        unblock_transition(*old(sched), *final(sched), id),
{
    let info = match sched.tasks.get(id) {
        None => {
            return Err(Error::NotFound);
        },
        Some(t) => t,
    };
    if !info.blocked {
        proof {
            assert(final(sched).task_map().dom() =~= old(sched).task_map().dom());
        }
        return Ok(());
    }
    let ghost pre = *sched;
    let ir = sched.tasks.insert(id, TaskInfo { blocked: false, ..info });
    proof {
        assert(ir == Ok::<Option<TaskInfo>, (usize, TaskInfo)>(Some(info)));
        assert(sched.task_map().dom() =~= pre.task_map().dom());
    }
    if id != sched.current_task {
        proof {
            assert forall|i: int|
                0 <= i < pre.queue_at(info.priority as int).len() implies pre.task_map(
            ).dom().contains(#[trigger] pre.queue_at(info.priority as int)[i]) by {}
            lemma_queue_len_le_dom(pre.queue_at(info.priority as int), pre.task_map().dom());
        }
        let er = sched.ready.enqueue_task(id, info.priority);
        proof {
            assert(er is Ok);
            lemma_unblock_preserves_inv(pre, *sched, id, info);
        }
    } else {
        proof {
            lemma_unblock_current_preserves_inv(pre, *sched, id, info);
        }
    }
    Ok(())
}

/// Unblocking a non-current task `id` and enqueueing it preserves the
/// invariant.
proof fn lemma_unblock_preserves_inv(
    pre: SchedulerState,
    post: SchedulerState,
    id: usize,
    info: TaskInfo,
)
    requires
        pre.inv(),
        pre.task_map().dom().contains(id),
        pre.task_map()[id].blocked,
        id != pre.current_task,
        info == pre.task_map()[id],
        post.task_map() == pre.task_map().insert(id, TaskInfo { blocked: false, ..info }),
        post.ready@.queues == pre.ready@.queues.update(
            info.priority as int,
            pre.queue_at(info.priority as int).push(id),
        ),
        is_bitmap_with_set(pre.ready@.bitmap, post.ready@.bitmap, info.priority as u32),
        post.current_task == pre.current_task,
    ensures
        post.inv(),
{
    let p = info.priority as int;
    let qp0 = pre.queue_at(p);
    let qp1 = qp0.push(id);
    assert(post.task_map().dom() =~= pre.task_map().dom());

    // id was blocked, so it stands in no queue.
    assert forall|pb: int| 0 <= pb <= MAX_PRIORITY implies !(#[trigger] pre.queue_at(pb).contains(
        id,
    )) by {
        if pre.queue_at(pb).contains(id) {
            let i = choose|i: int| 0 <= i < pre.queue_at(pb).len() && pre.queue_at(pb)[i] == id;
            assert(!pre.task_map()[pre.queue_at(pb)[i]].blocked);
        }
    }

    // Bitmap coupling
    assert forall|pb: u32| pb <= MAX_PRIORITY implies (bit_set(post.ready@.bitmap, pb) <==> (
    #[trigger] post.ready@.queues[pb as int].len() != 0)) by {
        if pb as int == p {
            assert(post.queue_at(pb as int).len() == qp0.len() + 1);
        } else {
            assert(post.queue_at(pb as int) == pre.queue_at(pb as int));
        }
    }
    assert forall|pb: u32| MAX_PRIORITY < pb < 32 implies !bit_set(post.ready@.bitmap, pb) by {}

    // Queue entries stay valid
    assert forall|pb: int, i: int|
        0 <= pb <= MAX_PRIORITY && 0 <= i < post.queue_at(pb).len() implies {
        let e = #[trigger] post.queue_at(pb)[i];
        &&& post.task_map().dom().contains(e)
        &&& post.task_map()[e].priority == pb
        &&& !post.task_map()[e].blocked
        &&& e != post.current_task
    } by {
        let e = post.queue_at(pb)[i];
        if pb == p && i == qp0.len() {
            assert(e == id);
        } else {
            assert(e == pre.queue_at(pb)[i]);
            assert(e != id) by {
                assert(!pre.task_map()[pre.queue_at(pb)[i]].blocked);
            }
        }
    }

    // Distinctness
    assert forall|pb: int| 0 <= pb <= MAX_PRIORITY implies (#[trigger] post.queue_at(
        pb,
    )).no_duplicates() by {
        if pb == p {
            assert(!qp0.contains(id));
            assert(qp0.no_duplicates());
            assert forall|i: int, j: int| 0 <= i < j < qp1.len() implies qp1[i] != qp1[j] by {
                if j == qp0.len() {
                    assert(qp1[i] == qp0[i]);
                    if qp1[i] == id {
                        assert(qp0.contains(qp0[i]));
                    }
                }
            }
        } else {
            assert(post.queue_at(pb) == pre.queue_at(pb));
        }
    }

    // Runnable tasks are queued
    assert forall|e: usize| #[trigger]
        post.task_map().dom().contains(e) && !post.task_map()[e].blocked && e
            != post.current_task implies post.queue_at(
        post.task_map()[e].priority as int,
    ).contains(e) by {
        if e == id {
            assert(qp1[qp0.len() as int] == id);
        } else {
            assert(post.task_map()[e] == pre.task_map()[e]);
            let pe = pre.task_map()[e].priority as int;
            assert(pre.queue_at(pe).contains(e));
            if pe == p {
                let i = choose|i: int| 0 <= i < qp0.len() && qp0[i] == e;
                assert(qp1[i] == e);
            } else {
                assert(post.queue_at(pe) == pre.queue_at(pe));
            }
        }
    }
}

/// Unblocking the currently executing task flips only its flag: the current
/// task never stands in a ready queue.
proof fn lemma_unblock_current_preserves_inv(
    pre: SchedulerState,
    post: SchedulerState,
    id: usize,
    info: TaskInfo,
)
    requires
        pre.inv(),
        pre.task_map().dom().contains(id),
        pre.task_map()[id].blocked,
        id == pre.current_task,
        info == pre.task_map()[id],
        post.task_map() == pre.task_map().insert(id, TaskInfo { blocked: false, ..info }),
        post.ready@.queues == pre.ready@.queues,
        post.ready@.bitmap == pre.ready@.bitmap,
        post.current_task == pre.current_task,
    ensures
        post.inv(),
{
    assert(post.task_map().dom() =~= pre.task_map().dom());
    assert forall|pb: int, i: int|
        0 <= pb <= MAX_PRIORITY && 0 <= i < post.queue_at(pb).len() implies {
        let e = #[trigger] post.queue_at(pb)[i];
        &&& post.task_map().dom().contains(e)
        &&& post.task_map()[e].priority == pb
        &&& !post.task_map()[e].blocked
        &&& e != post.current_task
    } by {
        let e = post.queue_at(pb)[i];
        assert(e == pre.queue_at(pb)[i]);
        assert(e != id) by {
            assert(pre.queue_at(pb)[i] != pre.current_task);
        }
    }
    assert forall|e: usize| #[trigger]
        post.task_map().dom().contains(e) && !post.task_map()[e].blocked && e
            != post.current_task implies post.queue_at(
        post.task_map()[e].priority as int,
    ).contains(e) by {
        assert(e != id);
        assert(post.task_map()[e] == pre.task_map()[e]);
    }
}

/// Removes the task's TCB and purges its id from its priority's ready queue.
/// Called when a task body returns; not callable on the idle task.
pub fn remove_task(sched: &mut SchedulerState, id: usize) -> (r: Result<(), Error>)
    requires
        old(sched).inv(),
        id != IDLE_TASK_ID,
    ensures
        final(sched).inv(),
        final(sched).current_task == old(sched).current_task,
        final(sched).started == old(sched).started,
        final(sched).last_task_id == old(sched).last_task_id,
        !old(sched).task_map().dom().contains(id) ==> {
            &&& r == Err::<(), Error>(Error::NotFound)
            &&& final(sched).task_map() == old(sched).task_map()
            &&& final(sched).ready@.queues == old(sched).ready@.queues
            &&& final(sched).ready@.bitmap == old(sched).ready@.bitmap
        },
        old(sched).task_map().dom().contains(id) ==> {
            let p = old(sched).task_map()[id].priority as int;
            &&& r == Ok::<(), Error>(())
            &&& final(sched).task_map() == old(sched).task_map().remove(id)
            &&& final(sched).task_map().dom().len() == old(sched).task_map().dom().len() - 1
            &&& final(sched).ready@.queues == old(sched).ready@.queues.update(
                p,
                remove_all(old(sched).queue_at(p), id),
            )
        },
{
    let info = match sched.tasks.get(id) {
        None => {
            return Err(Error::NotFound);
        },
        Some(t) => t,
    };
    let ghost pre = *sched;
    let rr = sched.tasks.remove(id);
    proof {
        assert(rr == Some(info));
        assert forall|i: int|
            0 <= i < pre.queue_at(info.priority as int).len() implies pre.task_map().dom().contains(
            #[trigger] pre.queue_at(info.priority as int)[i],
        ) by {}
        lemma_queue_len_le_dom(pre.queue_at(info.priority as int), pre.task_map().dom());
    }
    sched.ready.remove_task_from_queue(id, info.priority);
    proof {
        lemma_remove_preserves_inv(pre, *sched, id, info);
        assert(sched.task_map().dom() =~= pre.task_map().dom().remove(id));
    }
    Ok(())
}

/// Removing a live task `id` from the table and its queue preserves the
/// invariant.
proof fn lemma_remove_preserves_inv(
    pre: SchedulerState,
    post: SchedulerState,
    id: usize,
    info: TaskInfo,
)
    requires
        pre.inv(),
        id != IDLE_TASK_ID,
        pre.task_map().dom().contains(id),
        info == pre.task_map()[id],
        post.task_map() == pre.task_map().remove(id),
        post.ready@.queues == pre.ready@.queues.update(
            info.priority as int,
            remove_all(pre.queue_at(info.priority as int), id),
        ),
        remove_all(pre.queue_at(info.priority as int), id).len() == 0 ==> is_bitmap_with_clear(
            pre.ready@.bitmap,
            post.ready@.bitmap,
            info.priority as u32,
        ),
        remove_all(pre.queue_at(info.priority as int), id).len() != 0 ==> post.ready@.bitmap
            == pre.ready@.bitmap,
        post.current_task == pre.current_task,
    ensures
        post.inv(),
{
    let p = info.priority as int;
    let qp0 = pre.queue_at(p);
    let qp1 = remove_all(qp0, id);
    assert(post.task_map().dom() =~= pre.task_map().dom().remove(id));

    // Bitmap coupling
    assert forall|pb: u32| pb <= MAX_PRIORITY implies (bit_set(post.ready@.bitmap, pb) <==> (
    #[trigger] post.ready@.queues[pb as int].len() != 0)) by {
        if qp1.len() == 0 {
            if pb as int == p {
                assert(post.queue_at(pb as int).len() == 0);
            } else {
                assert(post.queue_at(pb as int) == pre.queue_at(pb as int));
            }
        } else {
            if pb as int == p {
                crate::queues::lemma_remove_all_len(qp0, id);
                assert(qp0.len() != 0);
            }
        }
    }
    assert forall|pb: u32| MAX_PRIORITY < pb < 32 implies !bit_set(post.ready@.bitmap, pb) by {}

    // Queue entries stay valid
    assert forall|pb: int, i: int|
        0 <= pb <= MAX_PRIORITY && 0 <= i < post.queue_at(pb).len() implies {
        let e = #[trigger] post.queue_at(pb)[i];
        &&& post.task_map().dom().contains(e)
        &&& post.task_map()[e].priority == pb
        &&& !post.task_map()[e].blocked
        &&& e != post.current_task
    } by {
        let e = post.queue_at(pb)[i];
        if pb == p {
            assert(qp1.contains(e)) by {
                assert(qp1[i] == e);
            }
            lemma_remove_all_contains(qp0, id, e);
            let j = choose|j: int| 0 <= j < qp0.len() && qp0[j] == e;
            assert(pre.queue_at(p)[j] == e);
        } else {
            assert(post.queue_at(pb) == pre.queue_at(pb));
            assert(pre.queue_at(pb)[i] == e);
            assert(e != id) by {
                assert(pre.task_map()[e].priority == pb);
            }
        }
    }

    // Distinctness
    assert forall|pb: int| 0 <= pb <= MAX_PRIORITY implies (#[trigger] post.queue_at(
        pb,
    )).no_duplicates() by {
        if pb == p {
            lemma_remove_all_no_duplicates(qp0, id);
        } else {
            assert(post.queue_at(pb) == pre.queue_at(pb));
        }
    }

    // Runnable tasks are queued
    assert forall|e: usize| #[trigger]
        post.task_map().dom().contains(e) && !post.task_map()[e].blocked && e
            != post.current_task implies post.queue_at(
        post.task_map()[e].priority as int,
    ).contains(e) by {
        assert(e != id);
        assert(pre.task_map().dom().contains(e));
        assert(post.task_map()[e] == pre.task_map()[e]);
        let pe = pre.task_map()[e].priority as int;
        assert(pre.queue_at(pe).contains(e));
        if pe == p {
            lemma_remove_all_contains(qp0, id, e);
        } else {
            assert(post.queue_at(pe) == pre.queue_at(pe));
        }
    }
}

impl SchedulerState {
    /// The task table after the outgoing task's context is saved: if the
    /// currently executing task is still live, its saved stack pointer
    /// becomes `orig_sp`.
    pub open spec fn tasks_after_save(self, orig_sp: usize) -> Map<usize, TaskInfo> {
        if self.task_map().dom().contains(self.current_task) {
            self.task_map().insert(
                self.current_task,
                TaskInfo { stack_pointer: orig_sp, ..self.task_map()[self.current_task] },
            )
        } else {
            self.task_map()
        }
    }

    /// The ready queues after the outgoing task is rotated to the tail of
    /// its priority's queue: it is re-enqueued only if it is still live and
    /// not blocked.
    pub open spec fn queues_after_save(self) -> Seq<Seq<usize>> {
        if self.task_map().dom().contains(self.current_task) && !self.task_map()[self.current_task].blocked {
            self.ready@.queues.update(
                self.task_map()[self.current_task].priority as int,
                self.queue_at(self.task_map()[self.current_task].priority as int).push(
                    self.current_task,
                ),
            )
        } else {
            self.ready@.queues
        }
    }
}

/// Highest priority below `k` whose queue is non-empty; -1 when all are
/// empty.
pub open spec fn top_priority_below(queues: Seq<Seq<usize>>, k: int) -> int
    decreases k,
{
    if k <= 0 {
        -1
    } else if queues[k - 1].len() != 0 {
        k - 1
    } else {
        top_priority_below(queues, k - 1)
    }
}

/// Highest priority whose ready queue is non-empty; -1 when every queue is
/// empty. With the coupling invariant this is the index of the most
/// significant set bit of the priority bitmap.
pub open spec fn top_priority(queues: Seq<Seq<usize>>) -> int {
    top_priority_below(queues, MAX_PRIORITY + 1)
}

/// `top_priority` is pinned by one non-empty queue with all higher queues
/// empty.
pub proof fn lemma_top_priority_pins_below(qs: Seq<Seq<usize>>, hp: int, k: int)
    requires
        0 <= hp < k,
        qs[hp].len() != 0,
        forall|q: int| hp < q < k ==> qs[q].len() == 0,
    ensures
        top_priority_below(qs, k) == hp,
    decreases k,
{
    if k == hp + 1 {
    } else {
        assert(qs[k - 1].len() == 0);
        lemma_top_priority_pins_below(qs, hp, k - 1);
    }
}

/// Any non-empty queue bounds `top_priority_below` from below.
pub proof fn lemma_top_priority_ge_below(qs: Seq<Seq<usize>>, p: int, k: int)
    requires
        0 <= p < k,
        qs[p].len() != 0,
    ensures
        top_priority_below(qs, k) >= p,
    decreases k,
{
    if k == p + 1 {
    } else {
        if qs[k - 1].len() == 0 {
            lemma_top_priority_ge_below(qs, p, k - 1);
        }
    }
}

/// In any state satisfying the coupling invariant with at least one ready
/// task, the highest non-empty ready priority is exactly the index of the
/// most significant set bit of the priority bitmap.
pub proof fn lemma_top_priority_is_bitmap_msb(s: SchedulerState)
    requires
        s.ready.wf(),
        s.ready@.bitmap != 0u32,
    ensures
        ({
            let hp = top_priority(s.ready@.queues);
            &&& 0 <= hp <= MAX_PRIORITY
            &&& bit_set(s.ready@.bitmap, hp as u32)
            &&& forall|q: u32| hp < q < 32 ==> !bit_set(s.ready@.bitmap, q)
        }),
{
    let m = s.ready@.bitmap;
    vstd::std_specs::bits::axiom_u32_leading_zeros(m);
    let lz = vstd::std_specs::bits::u32_leading_zeros(m);
    assert(lz < 32);
    let b = (31 - lz) as u32;
    assert((m >> b) & 1u32 != 0u32);
    crate::queues::lemma_bit_probe(m, b);
    assert(bit_set(m, b));
    assert forall|q: u32| b < q < 32 implies !bit_set(m, q) by {
        assert(32 - lz <= q < 32);
        assert((m >> q) & 1u32 == 0u32);
    }
    assert(b <= MAX_PRIORITY) by {
        if b > MAX_PRIORITY {
            assert(!bit_set(m, b));
        }
    }
    assert(s.ready@.queues[b as int].len() != 0);
    assert forall|q: int| b < q <= MAX_PRIORITY implies s.ready@.queues[q].len() == 0 by {
        assert(!bit_set(m, q as u32));
    }
    lemma_top_priority_pins_below(s.ready@.queues, b as int, MAX_PRIORITY + 1);
}

/// The invariant does not depend on the last allocated id or the started
/// flag.
proof fn lemma_inv_same_core(pre: SchedulerState, post: SchedulerState)
    requires
        pre.inv(),
        post.task_map() == pre.task_map(),
        post.ready == pre.ready,
        post.current_task == pre.current_task,
    ensures
        post.inv(),
{
    assert forall|pb: int, i: int|
        0 <= pb <= MAX_PRIORITY && 0 <= i < post.queue_at(pb).len() implies {
        let e = #[trigger] post.queue_at(pb)[i];
        &&& post.task_map().dom().contains(e)
        &&& post.task_map()[e].priority == pb
        &&& !post.task_map()[e].blocked
        &&& e != post.current_task
    } by {
        assert(post.queue_at(pb)[i] == pre.queue_at(pb)[i]);
    }
    assert forall|pb: int| 0 <= pb <= MAX_PRIORITY implies (#[trigger] post.queue_at(
        pb,
    )).no_duplicates() by {
        assert(post.queue_at(pb) == pre.queue_at(pb));
    }
    assert forall|e: usize| #[trigger]
        post.task_map().dom().contains(e) && !post.task_map()[e].blocked && e
            != post.current_task implies post.queue_at(
        post.task_map()[e].priority as int,
    ).contains(e) by {
        assert(pre.task_map().dom().contains(e));
        assert(pre.queue_at(pre.task_map()[e].priority as int).contains(e));
    }
}

/// The id the next spawn will allocate: the last id plus one, wrapping and
/// skipping the reserved idle id 0.
pub open spec fn next_task_id(last: usize) -> usize {
    if last == usize::MAX {
        1usize
    } else {
        (last + 1) as usize
    }
}

/// Allocates a fresh task id and TCB (unblocked, at the configured priority,
/// with the given initial stack pointer and stack bottom) and appends it to
/// the ready queue of its priority.
///
/// Fails with `InvalidPriority` when the priority is out of range, leaving
/// the state unchanged, and with `TaskFull` when the table is at capacity or
/// the allocated id collides with a live task or the current one; in the
/// `TaskFull` case the id allocation is still recorded, as the caller's
/// retry would allocate the next id.
pub fn spawn(
    sched: &mut SchedulerState,
    initial_sp: usize,
    stack_limit: usize,
    config: TaskConfig,
) -> (r: Result<TaskHandle, Error>)
    requires
        old(sched).inv(),
    ensures
        final(sched).inv(),
        final(sched).current_task == old(sched).current_task,
        final(sched).started == old(sched).started,
        config.priority > MAX_PRIORITY ==> {
            &&& r == Err::<TaskHandle, Error>(Error::InvalidPriority)
            &&& final(sched).task_map() == old(sched).task_map()
            &&& final(sched).ready@.queues == old(sched).ready@.queues
            &&& final(sched).ready@.bitmap == old(sched).ready@.bitmap
            &&& final(sched).last_task_id == old(sched).last_task_id
        },
        config.priority <= MAX_PRIORITY ==> {
            let nid = next_task_id(old(sched).last_task_id);
            &&& final(sched).last_task_id == nid
            &&& if old(sched).task_map().dom().contains(nid) || old(
                sched,
            ).task_map().dom().len() >= MAX_NUM_TASKS || nid == old(sched).current_task {
                &&& r == Err::<TaskHandle, Error>(Error::TaskFull)
                &&& final(sched).task_map() == old(sched).task_map()
                &&& final(sched).ready@.queues == old(sched).ready@.queues
                &&& final(sched).ready@.bitmap == old(sched).ready@.bitmap
            } else {
                &&& r == Ok::<TaskHandle, Error>(TaskHandle { id: nid })
                &&& final(sched).task_map() == old(sched).task_map().insert(
                    nid,
                    TaskInfo {
                        stack_pointer: initial_sp,
                        priority: config.priority,
                        blocked: false,
                        stack_limit,
                    },
                )
                &&& final(sched).task_map().dom().len() == old(sched).task_map().dom().len() + 1
                &&& final(sched).ready@.queues == old(sched).ready@.queues.update(
                    config.priority as int,
                    old(sched).queue_at(config.priority as int).push(nid),
                )
            }
        },
{
    if config.priority > MAX_PRIORITY {
        return Err(Error::InvalidPriority);
    }
    let id = if sched.last_task_id == usize::MAX {
        1
    } else {
        sched.last_task_id + 1
    };
    let ghost pre_alloc = *sched;
    sched.last_task_id = id;
    proof {
        lemma_inv_same_core(pre_alloc, *sched);
    }
    if id == sched.current_task {
        return Err(Error::TaskFull);
    }
    match sched.tasks.get(id) {
        Some(_) => {
            return Err(Error::TaskFull);
        },
        None => {},
    }
    let info = TaskInfo {
        stack_pointer: initial_sp,
        priority: config.priority,
        blocked: false,
        stack_limit,
    };
    let ghost pre = *sched;
    let ir = sched.tasks.insert(id, info);
    match ir {
        Err(_) => {
            proof {
                assert(pre.task_map().dom().len() >= MAX_NUM_TASKS);
                lemma_inv_same_core(pre, *sched);
            }
            return Err(Error::TaskFull);
        },
        Ok(_) => {},
    }
    proof {
        assert(sched.task_map().dom() =~= pre.task_map().dom().insert(id));
        assert forall|i: int|
            0 <= i < pre.queue_at(config.priority as int).len() implies pre.task_map(
        ).dom().contains(#[trigger] pre.queue_at(config.priority as int)[i]) by {}
        lemma_queue_len_le_dom(pre.queue_at(config.priority as int), pre.task_map().dom());
    }
    let er = sched.ready.enqueue_task(id, config.priority);
    proof {
        assert(er is Ok);
        lemma_spawn_preserves_inv(pre, *sched, id, info);
    }
    Ok(TaskHandle { id })
}

/// Inserting a fresh task `id` and enqueueing it preserves the invariant.
proof fn lemma_spawn_preserves_inv(
    pre: SchedulerState,
    post: SchedulerState,
    id: usize,
    info: TaskInfo,
)
    requires
        pre.inv(),
        id != IDLE_TASK_ID,
        !pre.task_map().dom().contains(id),
        pre.task_map().dom().len() < MAX_NUM_TASKS,
        id != pre.current_task,
        !info.blocked,
        info.priority <= MAX_PRIORITY,
        post.task_map() == pre.task_map().insert(id, info),
        post.ready@.queues == pre.ready@.queues.update(
            info.priority as int,
            pre.queue_at(info.priority as int).push(id),
        ),
        is_bitmap_with_set(pre.ready@.bitmap, post.ready@.bitmap, info.priority as u32),
        post.current_task == pre.current_task,
    ensures
        post.inv(),
        post.task_map().dom().len() == pre.task_map().dom().len() + 1,
{
    let p = info.priority as int;
    let qp0 = pre.queue_at(p);
    let qp1 = qp0.push(id);
    assert(post.task_map().dom() =~= pre.task_map().dom().insert(id));
    assert(post.task_map().dom().len() == pre.task_map().dom().len() + 1);

    // id is fresh, so it stands in no queue.
    assert forall|pb: int| 0 <= pb <= MAX_PRIORITY implies !(#[trigger] pre.queue_at(pb).contains(
        id,
    )) by {
        if pre.queue_at(pb).contains(id) {
            let i = choose|i: int| 0 <= i < pre.queue_at(pb).len() && pre.queue_at(pb)[i] == id;
            assert(pre.task_map().dom().contains(pre.queue_at(pb)[i]));
        }
    }

    // Bitmap coupling
    assert forall|pb: u32| pb <= MAX_PRIORITY implies (bit_set(post.ready@.bitmap, pb) <==> (
    #[trigger] post.ready@.queues[pb as int].len() != 0)) by {
        if pb as int == p {
            assert(post.queue_at(pb as int).len() == qp0.len() + 1);
        } else {
            assert(post.queue_at(pb as int) == pre.queue_at(pb as int));
        }
    }
    assert forall|pb: u32| MAX_PRIORITY < pb < 32 implies !bit_set(post.ready@.bitmap, pb) by {}

    // Queue entries stay valid
    assert forall|pb: int, i: int|
        0 <= pb <= MAX_PRIORITY && 0 <= i < post.queue_at(pb).len() implies {
        let e = #[trigger] post.queue_at(pb)[i];
        &&& post.task_map().dom().contains(e)
        &&& post.task_map()[e].priority == pb
        &&& !post.task_map()[e].blocked
        &&& e != post.current_task
    } by {
        let e = post.queue_at(pb)[i];
        if pb == p && i == qp0.len() {
            assert(e == id);
        } else {
            assert(e == pre.queue_at(pb)[i]);
            assert(e != id) by {
                assert(pre.task_map().dom().contains(pre.queue_at(pb)[i]));
            }
        }
    }

    // Distinctness
    assert forall|pb: int| 0 <= pb <= MAX_PRIORITY implies (#[trigger] post.queue_at(
        pb,
    )).no_duplicates() by {
        if pb == p {
            assert(!qp0.contains(id));
            assert forall|i: int, j: int| 0 <= i < j < qp1.len() implies qp1[i] != qp1[j] by {
                if j == qp0.len() {
                    assert(qp1[i] == qp0[i]);
                    if qp1[i] == id {
                        assert(qp0.contains(qp0[i]));
                    }
                }
            }
        } else {
            assert(post.queue_at(pb) == pre.queue_at(pb));
        }
    }

    // Runnable tasks are queued
    assert forall|e: usize| #[trigger]
        post.task_map().dom().contains(e) && !post.task_map()[e].blocked && e
            != post.current_task implies post.queue_at(
        post.task_map()[e].priority as int,
    ).contains(e) by {
        if e == id {
            assert(qp1[qp0.len() as int] == id);
        } else {
            assert(post.task_map()[e] == pre.task_map()[e]);
            let pe = pre.task_map()[e].priority as int;
            assert(pre.queue_at(pe).contains(e));
            if pe == p {
                let i = choose|i: int| 0 <= i < qp0.len() && qp0[i] == e;
                assert(qp1[i] == e);
            } else {
                assert(post.queue_at(pe) == pre.queue_at(pe));
            }
        }
    }
}

/// After the save step, the bitmap still mirrors queue non-emptiness and is
/// non-zero: some task (at worst idle) is always ready.
proof fn lemma_save_step_coupling(s0: SchedulerState, bm: u32)
    requires
        s0.inv(),
        ({
            let cur = s0.current_task;
            if s0.task_map().dom().contains(cur) && !s0.task_map()[cur].blocked {
                is_bitmap_with_set(s0.ready@.bitmap, bm, s0.task_map()[cur].priority as u32)
            } else {
                bm == s0.ready@.bitmap
            }
        }),
    ensures
        forall|pb: u32| pb <= MAX_PRIORITY ==> (#[trigger] bit_set(bm, pb) <==> s0.queues_after_save()[pb as int].len() != 0),
        forall|pb: u32| MAX_PRIORITY < pb < 32 ==> !bit_set(bm, pb),
        bm != 0u32,
    decreases 0int,
{
    let cur = s0.current_task;
    let qs1 = s0.queues_after_save();
    let run = s0.task_map().dom().contains(cur) && !s0.task_map()[cur].blocked;
    if run {
        let cp = s0.task_map()[cur].priority as int;
        assert forall|pb: u32| pb <= MAX_PRIORITY implies (#[trigger] bit_set(bm, pb) <==> qs1[pb as int].len() != 0) by {
            if pb as int == cp {
                assert(qs1[cp].len() == s0.queue_at(cp).len() + 1);
            } else {
                assert(qs1[pb as int] == s0.queue_at(pb as int));
            }
        }
        assert(bit_set(bm, s0.task_map()[cur].priority as u32));
        if bm == 0u32 {
            let cpb = s0.task_map()[cur].priority as u32;
            assert((0u32 >> cpb) & 1u32 == 0u32) by (bit_vector);
        }
    } else {
        // The idle task is live and unblocked, so the current task is not
        // idle here, and idle stands in ready queue 0.
        assert(cur != IDLE_TASK_ID);
        assert(s0.queue_at(IDLE_PRIORITY as int).contains(IDLE_TASK_ID));
        assert(s0.queue_at(IDLE_PRIORITY as int).len() != 0);
        assert(bit_set(bm, IDLE_PRIORITY as u32));
        assert forall|pb: u32| pb <= MAX_PRIORITY implies (#[trigger] bit_set(bm, pb) <==> qs1[pb as int].len() != 0) by {
            assert(qs1[pb as int] == s0.queue_at(pb as int));
        }
        if bm == 0u32 {
            assert((0u32 >> (IDLE_PRIORITY as u32)) & 1u32 == 0u32) by (bit_vector);
        }
    }
}

/// The dispatch step preserves the invariant: after rotating the outgoing
/// task and popping the head of the highest non-empty priority queue, the
/// popped task is the new current task and every invariant clause holds
/// again.
proof fn lemma_select_preserves_inv(
    s0: SchedulerState,
    post: SchedulerState,
    orig_sp: usize,
    hp: int,
    nxt: usize,
    bm: u32,
)
    requires
        s0.inv(),
        0 <= hp <= MAX_PRIORITY,
        s0.queues_after_save()[hp].len() != 0,
        nxt == s0.queues_after_save()[hp][0],
        post.task_map() == s0.tasks_after_save(orig_sp),
        post.ready@.queues == s0.queues_after_save().update(
            hp,
            s0.queues_after_save()[hp].drop_first(),
        ),
        post.current_task == nxt,
        forall|pb: u32| pb <= MAX_PRIORITY ==> (#[trigger] bit_set(bm, pb) <==> s0.queues_after_save()[pb as int].len() != 0),
        forall|pb: u32| MAX_PRIORITY < pb < 32 ==> !bit_set(bm, pb),
        s0.queues_after_save()[hp].len() == 1 ==> is_bitmap_with_clear(
            bm,
            post.ready@.bitmap,
            hp as u32,
        ),
        s0.queues_after_save()[hp].len() > 1 ==> post.ready@.bitmap == bm,
    ensures
        post.inv(),
        post.task_map().dom().contains(nxt),
        post.task_map()[nxt].priority == hp,
        !post.task_map()[nxt].blocked,
        post.task_map().dom() == s0.task_map().dom(),
{
    let cur = s0.current_task;
    let tm0 = s0.task_map();
    let tm1 = s0.tasks_after_save(orig_sp);
    let qs1 = s0.queues_after_save();
    let live = tm0.dom().contains(cur);
    let run = live && !tm0[cur].blocked;
    let cp = tm0[cur].priority as int;

    assert(tm1.dom() =~= tm0.dom());

    // Entries of the rotated queues are live, unblocked, at their queue's
    // priority.
    assert forall|pb: int, i: int| 0 <= pb <= MAX_PRIORITY && 0 <= i < qs1[pb].len() implies {
        let e = #[trigger] qs1[pb][i];
        &&& tm1.dom().contains(e)
        &&& tm1[e].priority == pb
        &&& !tm1[e].blocked
    } by {
        let e = qs1[pb][i];
        if run && pb == cp && i == s0.queue_at(cp).len() {
            assert(e == cur);
        } else {
            assert(e == s0.queue_at(pb)[i]);
            assert(tm0.dom().contains(e) && tm0[e].priority == pb && !tm0[e].blocked);
        }
    }

    // The rotated queues are duplicate-free.
    assert forall|pb: int| 0 <= pb <= MAX_PRIORITY implies (#[trigger] qs1[pb]).no_duplicates() by {
        if run && pb == cp {
            let qp0 = s0.queue_at(cp);
            assert(!qp0.contains(cur)) by {
                if qp0.contains(cur) {
                    let i = choose|i: int| 0 <= i < qp0.len() && qp0[i] == cur;
                    assert(s0.queue_at(cp)[i] != s0.current_task);
                }
            }
            assert forall|i: int, j: int| 0 <= i < j < qs1[pb].len() implies qs1[pb][i] != qs1[pb][j] by {
                if j == qp0.len() {
                    assert(qs1[pb][i] == qp0[i]);
                    if qp0[i] == cur {
                        assert(qp0.contains(qp0[i]));
                    }
                }
            }
        } else {
            assert(qs1[pb] == s0.queue_at(pb));
        }
    }

    // Every live unblocked task stands in its rotated queue (no exemption:
    // the outgoing task was just re-enqueued).
    assert forall|e: usize| #[trigger] tm1.dom().contains(e) && !tm1[e].blocked implies qs1[tm1[e].priority as int].contains(e) by {
        if run && e == cur {
            assert(qs1[cp][s0.queue_at(cp).len() as int] == cur);
        } else {
            assert(tm0.dom().contains(e));
            assert(tm1[e].priority == tm0[e].priority && tm1[e].blocked == tm0[e].blocked);
            assert(e != cur) by {
                if e == cur {
                    assert(live && !tm0[cur].blocked);
                }
            }
            let pe = tm0[e].priority as int;
            assert(s0.queue_at(pe).contains(e));
            let i = choose|i: int| 0 <= i < s0.queue_at(pe).len() && s0.queue_at(pe)[i] == e;
            if run && pe == cp {
                assert(qs1[pe][i] == e);
            } else {
                assert(qs1[pe] == s0.queue_at(pe));
            }
        }
    }

    // The popped task.
    assert(tm1.dom().contains(nxt) && tm1[nxt].priority == hp && !tm1[nxt].blocked) by {
        assert(qs1[hp][0] == nxt);
    }

    // Bitmap coupling for the post state.
    assert forall|pb: u32| pb <= MAX_PRIORITY implies (bit_set(post.ready@.bitmap, pb) <==> (
    #[trigger] post.ready@.queues[pb as int].len() != 0)) by {
        if pb as int == hp {
            assert(post.ready@.queues[hp].len() == qs1[hp].len() - 1);
        } else {
            assert(post.ready@.queues[pb as int] == qs1[pb as int]);
        }
    }
    assert forall|pb: u32| MAX_PRIORITY < pb < 32 implies !bit_set(post.ready@.bitmap, pb) by {}

    // Post queue entries are valid and exclude the new current task.
    assert forall|pb: int, i: int|
        0 <= pb <= MAX_PRIORITY && 0 <= i < post.queue_at(pb).len() implies {
        let e = #[trigger] post.queue_at(pb)[i];
        &&& post.task_map().dom().contains(e)
        &&& post.task_map()[e].priority == pb
        &&& !post.task_map()[e].blocked
        &&& e != post.current_task
    } by {
        let e = post.queue_at(pb)[i];
        if pb == hp {
            assert(e == qs1[hp][i + 1]);
            assert(qs1[hp].no_duplicates());
            assert(e != nxt) by {
                if e == nxt {
                    assert(qs1[hp][i + 1] == qs1[hp][0]);
                }
            }
        } else {
            assert(e == qs1[pb][i]);
            assert(tm1[e].priority == pb);
            assert(e != nxt) by {
                assert(tm1[nxt].priority == hp);
            }
        }
    }

    // Post queues are duplicate-free.
    assert forall|pb: int| 0 <= pb <= MAX_PRIORITY implies (#[trigger] post.queue_at(
        pb,
    )).no_duplicates() by {
        if pb == hp {
            let d = qs1[hp].drop_first();
            assert forall|i: int, j: int| 0 <= i < j < d.len() implies d[i] != d[j] by {
                assert(d[i] == qs1[hp][i + 1]);
                assert(d[j] == qs1[hp][j + 1]);
            }
        } else {
            assert(post.queue_at(pb) == qs1[pb]);
        }
    }

    // Every live unblocked non-current task is still queued.
    assert forall|e: usize| #[trigger]
        post.task_map().dom().contains(e) && !post.task_map()[e].blocked && e
            != post.current_task implies post.queue_at(
        post.task_map()[e].priority as int,
    ).contains(e) by {
        let pe = tm1[e].priority as int;
        assert(qs1[pe].contains(e));
        let i = choose|i: int| 0 <= i < qs1[pe].len() && qs1[pe][i] == e;
        if pe == hp {
            assert(i != 0) by {
                if i == 0 {
                    assert(qs1[hp][0] == e);
                }
            }
            assert(post.queue_at(hp)[i - 1] == e);
        } else {
            assert(post.queue_at(pe) == qs1[pe]);
        }
    }

    // Idle stays intact.
    assert(tm1[IDLE_TASK_ID].priority == IDLE_PRIORITY && !tm1[IDLE_TASK_ID].blocked);
}

/// The pivot of every context switch. Saves `orig_sp` as the outgoing task's
/// stack pointer and rotates it to the tail of its priority's queue (unless
/// it blocked or removed itself), then pops the head of the highest
/// non-empty priority queue, makes it the current task and returns its saved
/// stack pointer.
///
/// The returned value is the saved stack pointer of a task whose priority
/// equals the highest non-empty ready priority after the save step — by the
/// coupling invariant, the most significant set bit of the priority bitmap
/// (see `lemma_top_priority_is_bitmap_msb`). Ties within a priority resolve
/// FIFO, which yields round-robin rotation among equal priorities.
pub fn select_task(sched: &mut SchedulerState, orig_sp: usize) -> (next_sp: usize)
    requires
        old(sched).inv(),
    ensures
        final(sched).inv(),
        final(sched).started == old(sched).started,
        final(sched).last_task_id == old(sched).last_task_id,
        ({
            let tm1 = old(sched).tasks_after_save(orig_sp);
            let qs1 = old(sched).queues_after_save();
            let hp = top_priority(qs1);
            &&& 0 <= hp <= MAX_PRIORITY
            &&& qs1[hp].len() != 0
            &&& final(sched).current_task == qs1[hp][0]
            &&& tm1.dom().contains(qs1[hp][0])
            &&& tm1[qs1[hp][0]].priority == hp
            &&& !tm1[qs1[hp][0]].blocked
            &&& next_sp == tm1[qs1[hp][0]].stack_pointer
            &&& final(sched).task_map() == tm1
            &&& final(sched).ready@.queues == qs1.update(hp, qs1[hp].drop_first())
            &&& final(sched).task_map().dom() == old(sched).task_map().dom()
        }),
{
    let ghost s0 = *sched;
    let cur = sched.current_task;
    match sched.tasks.get(cur) {
        Some(t) => {
            if !t.blocked {
                proof {
                    assert forall|i: int|
                        0 <= i < s0.queue_at(t.priority as int).len() implies s0.task_map(
                    ).dom().contains(#[trigger] s0.queue_at(t.priority as int)[i]) by {}
                    lemma_queue_len_le_dom(s0.queue_at(t.priority as int), s0.task_map().dom());
                }
                let er = sched.ready.enqueue_task(cur, t.priority);
                proof {
                    assert(er is Ok);
                }
            }
            let ir = sched.tasks.insert(cur, TaskInfo { stack_pointer: orig_sp, ..t });
            proof {
                assert(ir is Ok);
            }
        },
        None => {},
    }
    let ghost bm = sched.ready@.bitmap;
    proof {
        assert(sched.task_map() == s0.tasks_after_save(orig_sp));
        assert(sched.ready@.queues == s0.queues_after_save());
        lemma_save_step_coupling(s0, bm);
    }
    let hp = sched.ready.highest_priority();
    proof {
        assert(hp <= MAX_PRIORITY) by {
            if hp > MAX_PRIORITY {
                assert(!bit_set(bm, hp as u32));
            }
        }
        assert(s0.queues_after_save()[hp as int].len() != 0) by {
            assert(bit_set(bm, hp as u32));
        }
        assert forall|q: int| hp < q <= MAX_PRIORITY implies s0.queues_after_save()[q].len()
            == 0 by {
            assert(!bit_set(bm, q as u32));
        }
        lemma_top_priority_pins_below(s0.queues_after_save(), hp as int, MAX_PRIORITY + 1);
        assert(sched.ready@.queues.len() == MAX_PRIORITY + 1);
    }
    let nxt = match sched.ready.dequeue_task(hp) {
        Some(id) => id,
        None => {
            proof {
                assert(false);
            }
            0
        },
    };
    sched.current_task = nxt;
    proof {
        lemma_select_preserves_inv(s0, *sched, orig_sp, hp as int, nxt, bm);
    }
    let info = match sched.tasks.get(nxt) {
        Some(i) => i,
        None => {
            proof {
                assert(false);
            }
            TaskInfo { stack_pointer: 0, priority: 0, blocked: false, stack_limit: 0 }
        },
    };
    info.stack_pointer
}

/// Called from the periodic timer interrupt: advances the timer by one tick,
/// waking every task whose deadline has passed; the surrounding runtime then
/// requests a context switch. Net effect: time-slicing among equal-priority
/// tasks plus timely wakeups.
pub fn handle_tick(timer: &mut crate::timer::TimerState, sched: &mut SchedulerState)
    requires
        old(timer).inv(),
        old(sched).inv(),
        old(timer).time < u64::MAX,
    ensures
        final(timer).inv(),
        final(sched).inv(),
        final(timer).time == old(timer).time + 1,
        forall|e: (u64, u64)|
            e.0 > old(timer).time + 1 ==> final(timer).regs().count(e)
                == old(timer).regs().count(e),
        forall|e: (u64, u64)| e.0 <= old(timer).time + 1 ==> final(timer).regs().count(e) == 0,
        final(sched).task_map().dom() == old(sched).task_map().dom(),
        final(sched).current_task == old(sched).current_task,
        final(sched).started == old(sched).started,
        final(sched).last_task_id == old(sched).last_task_id,
        forall|e: (u64, u64)| #[trigger]
            old(timer).regs().count(e) > 0 && e.0 <= old(timer).time + 1 && final(
                sched).task_map().dom().contains(e.1 as usize)
                ==> !final(sched).task_map()[e.1 as usize].blocked,
{
    crate::timer::tick(timer, sched);
}

/// The canary pattern written into each word at the bottom of a stack.
pub const STACK_CANARY: u32 = 0xABCD1234;

/// How many words of canary pattern sit at the bottom of a stack.
pub const STACK_CANARY_LEN: usize = 4;

/// The words to write at the bottom of a fresh stack; the runtime stores
/// them at the stack's lowest addresses.
pub fn fill_stack_canary() -> (words: Vec<u32>)
    ensures
        words@.len() == STACK_CANARY_LEN,
        forall|i: int| 0 <= i < words@.len() ==> words@[i] == STACK_CANARY,
{
    let mut words: Vec<u32> = Vec::new();
    let mut i: usize = 0;
    while i < STACK_CANARY_LEN
        invariant
            i <= STACK_CANARY_LEN,
            words@.len() == i,
            forall|j: int| 0 <= j < i ==> words@[j] == STACK_CANARY,
        decreases STACK_CANARY_LEN - i,
    {
        words.push(STACK_CANARY);
        i = i + 1;
    }
    words
}

/// The overflow check made during a context switch: true exactly when every
/// word read back from the bottom of the outgoing task's stack still holds
/// the canary pattern. On a false result the runtime panics with the
/// stack-overflow message for that task.
pub fn check_stack_canary(words: &Vec<u32>) -> (intact: bool)
    ensures
        intact <==> (forall|i: int| 0 <= i < words@.len() ==> words@[i] == STACK_CANARY),
{
    let mut i: usize = 0;
    while i < words.len()
        invariant
            i <= words@.len(),
            forall|j: int| 0 <= j < i ==> words@[j] == STACK_CANARY,
        decreases words@.len() - i,
    {
        if words[i] != STACK_CANARY {
            return false;
        }
        i = i + 1;
    }
    true
}

/// `top_priority_below` either reports every queue below `k` empty or picks
/// a non-empty one.
proof fn lemma_top_priority_below_found(qs: Seq<Seq<usize>>, k: int)
    requires
        0 < k,
    ensures
        ({
            let r = top_priority_below(qs, k);
            ||| (r == -1 && forall|q: int| 0 <= q < k ==> qs[q].len() == 0)
            ||| (0 <= r < k && qs[r].len() != 0)
        }),
    decreases k,
{
    if qs[k - 1].len() == 0 {
        if k == 1 {
            assert(top_priority_below(qs, 0) == -1);
        } else {
            lemma_top_priority_below_found(qs, k - 1);
        }
    }
}

/// A woken (or freshly spawned) runnable task is dispatched before any
/// strictly lower-priority task: the priority the dispatcher will pick is at
/// least the woken task's, whatever stack pointer the outgoing task saves.
pub proof fn lemma_runnable_bounds_dispatch(s: SchedulerState, woken: usize)
    requires
        s.inv(),
        s.task_map().dom().contains(woken),
        !s.task_map()[woken].blocked,
        woken != s.current_task,
    ensures
        top_priority(s.queues_after_save()) >= s.task_map()[woken].priority,
{
    let pw = s.task_map()[woken].priority as int;
    assert(s.queue_at(pw).contains(woken));
    assert(s.queues_after_save()[pw].len() != 0) by {
        let cur = s.current_task;
        if s.task_map().dom().contains(cur) && !s.task_map()[cur].blocked
            && s.task_map()[cur].priority == pw {
            assert(s.queues_after_save()[pw].len() == s.queue_at(pw).len() + 1);
        } else {
            assert(s.queues_after_save()[pw] == s.queue_at(pw));
        }
    }
    lemma_top_priority_ge_below(s.queues_after_save(), pw, MAX_PRIORITY + 1);
}

/// After a wakeup, the woken task is runnable and is scheduled before any
/// strictly lower-priority task: the task the dispatcher will pick next has
/// at least the woken task's priority, so it is never one of the strictly
/// lower-priority tasks.
pub proof fn lemma_unparked_scheduled_before_lower(s: SchedulerState, woken: usize, low: usize)
    requires
        s.inv(),
        s.task_map().dom().contains(woken),
        !s.task_map()[woken].blocked,
        woken != s.current_task,
        s.task_map().dom().contains(low),
        s.task_map()[low].priority < s.task_map()[woken].priority,
    ensures
        ({
            let qs1 = s.queues_after_save();
            let hp = top_priority(qs1);
            &&& s.task_map()[woken].priority <= hp <= MAX_PRIORITY
            &&& qs1[hp].len() != 0
            &&& qs1[hp][0] != low
        }),
{
    lemma_runnable_bounds_dispatch(s, woken);
    let qs1 = s.queues_after_save();
    let hp = top_priority(qs1);
    let pw = s.task_map()[woken].priority as int;
    lemma_top_priority_below_found(qs1, MAX_PRIORITY + 1);
    assert(0 <= hp <= MAX_PRIORITY && qs1[hp].len() != 0) by {
        assert(hp >= pw >= 0);
    }
    let chosen = qs1[hp][0];
    let cur = s.current_task;
    let run = s.task_map().dom().contains(cur) && !s.task_map()[cur].blocked;
    // The head of queue `hp` is a task of priority exactly `hp`.
    assert(s.task_map().dom().contains(chosen) && s.task_map()[chosen].priority == hp) by {
        if run && hp == s.task_map()[cur].priority as int {
            if s.queue_at(hp).len() > 0 {
                assert(chosen == s.queue_at(hp)[0]);
            } else {
                assert(chosen == cur);
            }
        } else {
            assert(qs1[hp] == s.queue_at(hp));
            assert(chosen == s.queue_at(hp)[0]);
        }
    }
    assert(chosen != low) by {
        assert(s.task_map()[low].priority < pw <= hp);
    }
}

} // verus!
