//! A minimal fixed-priority preemptive multitasking kernel for single-core
//! microcontrollers: a statically bounded task table, per-priority ready
//! queues coupled to a priority bitmap, a tick-driven one-shot timer, and a
//! futex primitive, all specified and verified over mathematical models of
//! their state. The architecture-specific plumbing (interrupts, register
//! save/restore, stack memory) lives outside this library and drives it
//! through plain values.

use vstd::prelude::*;

pub mod cortexm;
pub mod delay;
pub mod espriscv;
pub mod futex;
pub mod queues;
pub mod scheduler;
pub mod table;
pub mod task;
pub mod timer;

verus! {

/// Maximum number of simultaneously live tasks, the idle task included.
pub const MAX_NUM_TASKS: usize = 16;

/// Highest priority a task may have; 0 is the idle priority.
pub const MAX_PRIORITY: usize = 10;

/// Task identifier reserved for the idle task.
pub const IDLE_TASK_ID: usize = 0;

/// Priority of the idle task.
pub const IDLE_PRIORITY: usize = 0;

/// Capacity of each ready queue: every task plus one transient in-flight
/// enqueue during rotation.
pub const QUEUE_LEN: usize = MAX_NUM_TASKS + 1;

/// Maximum number of outstanding timer registrations.
pub const MAX_TIMER_REGS: usize = 32;

/// Everything that can go wrong in the kernel's fallible operations.
#[derive(Clone, Copy, Debug, PartialEq, Eq)]
pub enum Error {
    /// Cannot create a new task because already maximum number of tasks exist.
    TaskFull,
    /// The specified priority is outside the permitted range.
    InvalidPriority,
    /// The specified task does not exist.
    NotFound,
    /// The scheduler is not initialized yet.
    NotInitialized,
    /// Already maximum number of timer registrations exist.
    TimerFull,
}

/// `size` rounded up to the next multiple of `align`: what a port subtracts
/// from the stack pointer to keep each pushed object aligned.
pub fn align_up(size: usize, align: usize) -> (r: usize)
    requires
        align > 0,
        size + align <= usize::MAX,
    ensures
        r % align == 0,
        size <= r < size + align,
{
    if size % align == 0 {
        size
    } else {
        let r = size + (align - size % align);
        proof {
            assert((size + (align - size % align)) % (align as int) == 0) by (nonlinear_arith)
                requires
                    align > 0,
                    size % align != 0,
            ;
        }
        r
    }
}

} // verus!
