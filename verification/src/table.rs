//! The task table: a fixed-capacity mapping from task identifier to task
//! control block.

use vstd::prelude::*;

use crate::MAX_NUM_TASKS;

verus! {

/// Task Control Block (TCB): everything the scheduler keeps per task.
#[derive(Clone, Copy, Debug)]
pub struct TaskInfo {
    /// Address at which the task's register state lives while it is not
    /// running.
    pub stack_pointer: usize,
    /// Fixed priority, `0..=MAX_PRIORITY`; 0 is the idle priority.
    pub priority: usize,
    /// Whether the task is blocked (parked, waiting on a futex or a timer).
    pub blocked: bool,
    /// Bottom of the task's stack, where the overflow canary lives.
    pub stack_limit: usize,
}

/// The mapping a task table holds.
pub uninterp spec fn task_table_map(t: TaskTable) -> Map<usize, TaskInfo>;

/// Fixed-capacity map from task id to TCB, with room for `MAX_NUM_TASKS`
/// entries.
#[verifier::external_body]
pub struct TaskTable {
    inner: heapless::index_map::FnvIndexMap<usize, TaskInfo, MAX_NUM_TASKS>,
}

impl TaskTable {
    /// Relies on `heapless::index_map::IndexMap::new`: a freshly created map
    /// is empty.
    #[verifier::external_body]
    pub fn new() -> (t: TaskTable)
        ensures
            (task_table_map(t) == Map::<usize, TaskInfo>::empty()),
    {
        TaskTable { inner: heapless::index_map::FnvIndexMap::new() }
    }

    /// Relies on `heapless::index_map::IndexMap::len`: the number of entries
    /// held.
    #[verifier::external_body]
    pub fn len(&self) -> (n: usize)
        ensures
            n == task_table_map(*self).dom().len(),
    {
        self.inner.len()
    }

    /// Relies on `heapless::index_map::IndexMap::get`: the value stored under
    /// `id`, if any.
    #[verifier::external_body]
    pub fn get(&self, id: usize) -> (r: Option<TaskInfo>)
        ensures
            r == if task_table_map(*self).dom().contains(id) {
                Some(task_table_map(*self)[id])
            } else {
                None::<TaskInfo>
            },
    {
        self.inner.get(&id).copied()
    }

    /// Relies on `heapless::index_map::IndexMap::insert`: replaces the value
    /// under an existing key; adds a new pair while fewer than
    /// `MAX_NUM_TASKS` entries exist; rejects the pair otherwise.
    #[verifier::external_body]
    pub fn insert(&mut self, id: usize, info: TaskInfo) -> (r: Result<
        Option<TaskInfo>,
        (usize, TaskInfo),
    >)
        ensures
            ({
                let m0 = task_table_map(*old(self));
                if m0.dom().contains(id) {
                    &&& r == Ok::<Option<TaskInfo>, (usize, TaskInfo)>(Some(m0[id]))
                    &&& task_table_map(*final(self)) == m0.insert(id, info)
                } else if m0.dom().finite() && m0.dom().len() < MAX_NUM_TASKS {
                    &&& r == Ok::<Option<TaskInfo>, (usize, TaskInfo)>(None)
                    &&& task_table_map(*final(self)) == m0.insert(id, info)
                } else {
                    &&& r == Err::<Option<TaskInfo>, (usize, TaskInfo)>((id, info))
                    &&& task_table_map(*final(self)) == m0
                }
            }),
    {
        self.inner.insert(id, info)
    }

    /// Relies on `heapless::index_map::IndexMap::remove`: removes and returns
    /// the value stored under `id`, if any.
    #[verifier::external_body]
    pub fn remove(&mut self, id: usize) -> (r: Option<TaskInfo>)
        ensures
            ({
                let m0 = task_table_map(*old(self));
                if m0.dom().contains(id) {
                    &&& r == Some(m0[id])
                    &&& task_table_map(*final(self)) == m0.remove(id)
                } else {
                    &&& r is None
                    &&& task_table_map(*final(self)) == m0
                }
            }),
    {
        self.inner.remove(&id)
    }
}

} // verus!
