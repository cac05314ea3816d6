//! Tick counting and deadline wakeups.

use taskette::scheduler::{
    block_task, current_task_id, handle_tick, select_task, spawn, SchedulerState,
};
use taskette::task::TaskConfig;
use taskette::timer::{current_time, init, tick, wait_task_until, wait_until, TimerState};
use taskette::{Error, IDLE_TASK_ID, MAX_TIMER_REGS};

fn cfg(priority: usize) -> TaskConfig {
    TaskConfig::default().with_priority(priority)
}

fn fresh() -> (TimerState, SchedulerState) {
    (init(), SchedulerState::init(0))
}

#[test]
fn time_advances_by_one_per_tick() {
    let (mut timer, mut sched) = fresh();
    assert_eq!(current_time(&timer), 0);
    let before = current_time(&timer);
    let n = 137;
    for _ in 0..n {
        tick(&mut timer, &mut sched);
    }
    assert_eq!(current_time(&timer), before + n);
}

#[test]
fn handle_tick_advances_time_too() {
    let (mut timer, mut sched) = fresh();
    handle_tick(&mut timer, &mut sched);
    handle_tick(&mut timer, &mut sched);
    assert_eq!(current_time(&timer), 2);
}

#[test]
fn wait_until_past_deadline_returns_without_blocking() {
    let (mut timer, mut sched) = fresh();
    let a = spawn(&mut sched, 0x100, 0, cfg(1)).unwrap();
    select_task(&mut sched, 0xAAA);
    assert_eq!(current_task_id(&sched), a.id());
    tick(&mut timer, &mut sched);
    tick(&mut timer, &mut sched);
    // Deadline 1 already passed at time 2: no blocking.
    wait_until(&mut timer, &mut sched, 1).unwrap();
    select_task(&mut sched, 0x101);
    assert_eq!(current_task_id(&sched), a.id());
}

#[test]
fn wait_until_blocks_and_tick_wakes() {
    let (mut timer, mut sched) = fresh();
    let a = spawn(&mut sched, 0x100, 0, cfg(1)).unwrap();
    select_task(&mut sched, 0xAAA);
    wait_until(&mut timer, &mut sched, 3).unwrap();
    // The task is blocked until the deadline matures.
    select_task(&mut sched, 0x101);
    assert_eq!(current_task_id(&sched), IDLE_TASK_ID);
    tick(&mut timer, &mut sched); // t = 1
    tick(&mut timer, &mut sched); // t = 2
    select_task(&mut sched, 0xBBB);
    assert_eq!(current_task_id(&sched), IDLE_TASK_ID);
    tick(&mut timer, &mut sched); // t = 3: deadline reached
    let sp = select_task(&mut sched, 0xCCC);
    assert_eq!(current_task_id(&sched), a.id());
    assert_eq!(sp, 0x101);
}

#[test]
fn one_tick_services_every_matured_deadline() {
    let (mut timer, mut sched) = fresh();
    let a = spawn(&mut sched, 0x100, 0, cfg(1)).unwrap();
    let b = spawn(&mut sched, 0x200, 0, cfg(1)).unwrap();
    // Both sleep until tick 1; one tick call must wake both.
    wait_task_until(&mut timer, &mut sched, 1, a.id()).unwrap();
    wait_task_until(&mut timer, &mut sched, 1, b.id()).unwrap();
    select_task(&mut sched, 0xAAA);
    assert_eq!(current_task_id(&sched), IDLE_TASK_ID);
    tick(&mut timer, &mut sched);
    select_task(&mut sched, 0x1);
    assert_eq!(current_task_id(&sched), a.id());
    select_task(&mut sched, 0x101);
    assert_eq!(current_task_id(&sched), b.id());
}

#[test]
fn timer_rejects_registrations_beyond_capacity() {
    let (mut timer, mut sched) = fresh();
    // Registrations for tasks that do not exist stay in the heap (the
    // wakeup then matures into a no-op), so the heap can be filled.
    for i in 0..MAX_TIMER_REGS {
        let r = wait_task_until(&mut timer, &mut sched, 100 + i as u64, 7);
        assert!(matches!(r, Err(Error::NotFound)));
    }
    let r = wait_task_until(&mut timer, &mut sched, 999, 7);
    assert!(matches!(r, Err(Error::TimerFull)));
}

#[test]
fn stale_registration_matures_into_noop() {
    let (mut timer, mut sched) = fresh();
    let a = spawn(&mut sched, 0x100, 0, cfg(1)).unwrap();
    select_task(&mut sched, 0xAAA);
    wait_until(&mut timer, &mut sched, 5).unwrap();
    // Another source wakes the task before its deadline.
    a.unpark(&mut sched).unwrap();
    select_task(&mut sched, 0x101);
    assert_eq!(current_task_id(&sched), a.id());
    // The deadline matures while the task runs: the wakeup is a no-op and
    // the scheduler stays consistent.
    for _ in 0..5 {
        tick(&mut timer, &mut sched);
    }
    select_task(&mut sched, 0x102);
    assert_eq!(current_task_id(&sched), a.id());
    block_task(&mut sched, a.id()).unwrap();
    select_task(&mut sched, 0x103);
    assert_eq!(current_task_id(&sched), IDLE_TASK_ID);
}
