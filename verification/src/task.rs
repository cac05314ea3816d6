//! Task manipulation: handles, per-task configuration, the current task,
//! and park/unpark.

use vstd::prelude::*;

use crate::scheduler::{block_task, current_task_id, unblock_task, SchedulerState};
use crate::Error;

verus! {

/// Handle object for a task: a surrogate for a task id. Dropping a handle
/// has no effect on the task; a handle may outlive it.
#[derive(Clone, Copy, Debug)]
pub struct TaskHandle {
    pub id: usize,
}

impl TaskHandle {
    /// The id of the task this handle stands for.
    pub fn id(&self) -> (id: usize)
        ensures
            id == self.id,
    {
        self.id
    }

    /// Unblocks the task if it is blocked: it becomes runnable again and is
    /// appended to the ready queue of its priority, so the next dispatch
    /// picks it ahead of every strictly lower-priority task (see
    /// `lemma_unparked_scheduled_before_lower`). Unparking a task that is not
    /// blocked is a no-op; a stale handle yields `NotFound` and changes
    /// nothing. Exactly `unblock_task(self.id)`.
    pub fn unpark(&self, sched: &mut SchedulerState) -> (r: Result<(), Error>)
        requires
            old(sched).inv(),
        ensures
            final(sched).inv(),
            (r == Ok::<(), Error>(()) <==> old(sched).task_map().dom().contains(self.id)),
            !old(sched).task_map().dom().contains(self.id) ==> r == Err::<(), Error>(
                Error::NotFound,
            ),
            old(sched).task_map().dom().contains(self.id) ==> !final(sched).task_map()[
                self.id].blocked,
            old(sched).task_map().dom().contains(self.id) && old(sched).task_map()[
                self.id].blocked && self.id != old(sched).current_task ==> final(sched).queue_at(
                old(sched).task_map()[self.id].priority as int,
            ) == old(sched).queue_at(old(sched).task_map()[self.id].priority as int).push(self.id),
            crate::scheduler::unblock_transition(*old(sched), *final(sched), self.id),
    {
        unblock_task(sched, self.id)
    }
}

/// Per-task configuration.
#[derive(Clone, Copy, Debug)]
#[non_exhaustive]
pub struct TaskConfig {
    /// Fixed priority of the task. Higher value means higher priority; 0 is
    /// the idle priority.
    pub priority: usize,
}

impl TaskConfig {
    /// Sets the task priority.
    pub fn with_priority(self, priority: usize) -> (r: Self)
        ensures
            r.priority == priority,
    {
        Self { priority }
    }
}

impl Default for TaskConfig {
    /// The default priority is 1.
    fn default() -> (r: Self)
        ensures
            r.priority == 1,
    {
        Self { priority: 1 }
    }
}

/// A handle for the currently executing task.
pub fn current(sched: &SchedulerState) -> (h: TaskHandle)
    ensures
        h.id == sched.current_task,
{
    TaskHandle { id: current_task_id(sched) }
}

/// Blocks the currently executing task until another task or interrupt
/// unparks it. Spurious wakeups are possible; callers re-test their
/// condition.
pub fn park(sched: &mut SchedulerState) -> (r: Result<(), Error>)
    requires
        old(sched).inv(),
        old(sched).current_task != crate::IDLE_TASK_ID,
    ensures
        final(sched).inv(),
        old(sched).task_map().dom().contains(old(sched).current_task) ==> {
            &&& r == Ok::<(), Error>(())
            &&& final(sched).task_map()[old(sched).current_task].blocked
        },
        !old(sched).task_map().dom().contains(old(sched).current_task) ==> r == Err::<(), Error>(
            Error::NotFound,
        ),
{
    let id = current_task_id(sched);
    block_task(sched, id)
}

} // verus!
