//! Futex wait/wake behavior, including the double-checked fast path.

use portable_atomic::Ordering;
use taskette::futex::Futex;
use taskette::scheduler::{current_task_id, remove_task, select_task, spawn, SchedulerState};
use taskette::task::TaskConfig;
use taskette::{Error, IDLE_TASK_ID, MAX_NUM_TASKS};

fn cfg(priority: usize) -> TaskConfig {
    TaskConfig::default().with_priority(priority)
}

#[test]
fn new_futex_word_starts_at_the_given_value() {
    let futex = Futex::new(7);
    assert_eq!(futex.as_ref().load(Ordering::SeqCst), 7);
    let other = Futex::new(0);
    assert_eq!(other.as_ref().load(Ordering::SeqCst), 0);
}

#[test]
fn wait_with_blocks_iff_observed_equals_compare() {
    let mut sched = SchedulerState::init(0);
    let a = spawn(&mut sched, 0x100, 0, cfg(1)).unwrap();
    select_task(&mut sched, 0xAAA);
    assert_eq!(current_task_id(&sched), a.id());

    let mut futex = Futex::new(0);
    // Observed value differs from the compared one: no blocking.
    futex.wait_with(&mut sched, 1, 0).unwrap();
    select_task(&mut sched, 0x101);
    assert_eq!(current_task_id(&sched), a.id());

    // Observed value equals the compared one: the task blocks.
    futex.wait_with(&mut sched, 0, 0).unwrap();
    select_task(&mut sched, 0x102);
    assert_eq!(current_task_id(&sched), IDLE_TASK_ID);
}

#[test]
fn wait_returns_without_blocking_on_changed_word() {
    let mut sched = SchedulerState::init(0);
    let a = spawn(&mut sched, 0x100, 0, cfg(1)).unwrap();
    select_task(&mut sched, 0xAAA);

    let mut futex = Futex::new(0);
    futex.as_ref().store(1, Ordering::SeqCst);
    futex.wait(&mut sched, 0).unwrap();
    select_task(&mut sched, 0x101);
    assert_eq!(current_task_id(&sched), a.id());
}

#[test]
fn wait_then_wake_all_releases_the_waiter() {
    let mut sched = SchedulerState::init(0);
    let a = spawn(&mut sched, 0x100, 0, cfg(2)).unwrap();
    select_task(&mut sched, 0xAAA);
    assert_eq!(current_task_id(&sched), a.id());

    let mut futex = Futex::new(0);
    futex.wait(&mut sched, 0).unwrap();
    select_task(&mut sched, 0x101);
    assert_eq!(current_task_id(&sched), IDLE_TASK_ID);

    futex.as_ref().store(1, Ordering::SeqCst);
    futex.wake_all(&mut sched).unwrap();
    let sp = select_task(&mut sched, 0xBBB);
    assert_eq!(current_task_id(&sched), a.id());
    assert_eq!(sp, 0x101);

    // Re-testing the condition after the wakeup: the word changed, so the
    // task does not block again.
    futex.wait(&mut sched, 0).unwrap();
    select_task(&mut sched, 0x102);
    assert_eq!(current_task_id(&sched), a.id());
}

#[test]
fn wake_one_releases_waiters_in_fifo_order() {
    let mut sched = SchedulerState::init(0);
    let a = spawn(&mut sched, 0x100, 0, cfg(1)).unwrap();
    let b = spawn(&mut sched, 0x200, 0, cfg(1)).unwrap();
    let mut futex = Futex::new(0);

    select_task(&mut sched, 0xAAA);
    assert_eq!(current_task_id(&sched), a.id());
    futex.wait(&mut sched, 0).unwrap();
    select_task(&mut sched, 0x101);
    assert_eq!(current_task_id(&sched), b.id());
    futex.wait(&mut sched, 0).unwrap();
    select_task(&mut sched, 0x201);
    assert_eq!(current_task_id(&sched), IDLE_TASK_ID);

    futex.wake_one(&mut sched).unwrap();
    select_task(&mut sched, 0x1);
    assert_eq!(current_task_id(&sched), a.id());
    futex.wake_one(&mut sched).unwrap();
    select_task(&mut sched, 0x102);
    assert_eq!(current_task_id(&sched), b.id());

    // Nobody left to wake.
    futex.wake_one(&mut sched).unwrap();
}

#[test]
fn wake_reports_a_stale_waiter() {
    let mut sched = SchedulerState::init(0);
    let a = spawn(&mut sched, 0x100, 0, cfg(1)).unwrap();
    select_task(&mut sched, 0xAAA);
    let mut futex = Futex::new(0);
    futex.wait(&mut sched, 0).unwrap();
    select_task(&mut sched, 0x101);
    assert_eq!(current_task_id(&sched), IDLE_TASK_ID);
    // The waiting task is torn down before the wakeup arrives.
    remove_task(&mut sched, a.id()).unwrap();
    let r = futex.wake(&mut sched, MAX_NUM_TASKS);
    assert!(matches!(r, Err(Error::NotFound)));
}
