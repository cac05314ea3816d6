//! End-to-end scheduling scenarios, driven as the runtime would drive the
//! state: every context switch goes through `select_task`, every wakeup
//! through the public primitives.

use portable_atomic::Ordering;
use taskette::futex::Futex;
use taskette::scheduler::{current_task_id, remove_task, select_task, spawn, SchedulerState};
use taskette::task::{park, TaskConfig};
use taskette::timer::{current_time, init, tick, wait_until};

fn cfg(priority: usize) -> TaskConfig {
    TaskConfig::default().with_priority(priority)
}

#[test]
fn preemption_orders_the_output() {
    let mut sched = SchedulerState::init(0);
    let mut out: Vec<usize> = Vec::new();

    // A low-priority task starts first.
    let low = spawn(&mut sched, 0x100, 0, cfg(1)).unwrap();
    select_task(&mut sched, 0xAAA);
    assert_eq!(current_task_id(&sched), low.id());

    // It spawns a higher-priority task, which preempts at the next switch.
    let high = spawn(&mut sched, 0x200, 0, cfg(2)).unwrap();
    let sp = select_task(&mut sched, 0x101);
    assert_eq!(current_task_id(&sched), high.id());
    assert_eq!(sp, 0x200);

    // The high task writes its range and finishes.
    for i in 0..1000 {
        out.push(i);
    }
    remove_task(&mut sched, high.id()).unwrap();
    let sp = select_task(&mut sched, 0x201);
    assert_eq!(current_task_id(&sched), low.id());
    assert_eq!(sp, 0x101);

    // The low task writes the rest.
    for i in 1000..2000 {
        out.push(i);
    }
    assert_eq!(out.len(), 2000);
    for i in 0..2000 {
        assert_eq!(out[i], i);
    }
}

#[test]
fn park_unpark_orders_the_output() {
    let mut sched = SchedulerState::init(0);
    let mut out: Vec<usize> = Vec::new();

    let low = spawn(&mut sched, 0x100, 0, cfg(1)).unwrap();
    select_task(&mut sched, 0xAAA);
    let high = spawn(&mut sched, 0x200, 0, cfg(2)).unwrap();
    select_task(&mut sched, 0x101);
    assert_eq!(current_task_id(&sched), high.id());

    // The high task parks immediately; its handle is kept.
    park(&mut sched).unwrap();
    let sp = select_task(&mut sched, 0x201);
    assert_eq!(current_task_id(&sched), low.id());
    assert_eq!(sp, 0x101);

    for i in 0..1000 {
        out.push(i);
    }
    // The low task unparks the high one, which preempts at the next switch.
    high.unpark(&mut sched).unwrap();
    let sp = select_task(&mut sched, 0x102);
    assert_eq!(current_task_id(&sched), high.id());
    assert_eq!(sp, 0x201);

    for i in 1000..2000 {
        out.push(i);
    }
    for i in 0..2000 {
        assert_eq!(out[i], i);
    }
}

#[test]
fn futex_wakeup_orders_the_output() {
    let mut sched = SchedulerState::init(0);
    let mut futex = Futex::new(0);
    let mut out: Vec<usize> = Vec::new();

    let low = spawn(&mut sched, 0x100, 0, cfg(1)).unwrap();
    select_task(&mut sched, 0xAAA);
    let high = spawn(&mut sched, 0x200, 0, cfg(2)).unwrap();
    select_task(&mut sched, 0x101);
    assert_eq!(current_task_id(&sched), high.id());

    // The high task blocks on the futex.
    futex.wait(&mut sched, 0).unwrap();
    let sp = select_task(&mut sched, 0x201);
    assert_eq!(current_task_id(&sched), low.id());
    assert_eq!(sp, 0x101);

    for i in 0..1000 {
        out.push(i);
    }
    // The low task publishes and wakes; the high task preempts.
    futex.as_ref().store(1, Ordering::SeqCst);
    futex.wake_all(&mut sched).unwrap();
    let sp = select_task(&mut sched, 0x102);
    assert_eq!(current_task_id(&sched), high.id());
    assert_eq!(sp, 0x201);

    for i in 1000..2000 {
        out.push(i);
    }
    for i in 0..2000 {
        assert_eq!(out[i], i);
    }
}

#[test]
fn producer_consumer_over_ticks_collects_in_order() {
    // A consumer awaits ten values from a single-slot channel built from
    // park/unpark; the producer paces itself with the timer.
    let mut sched = SchedulerState::init(0);
    let mut timer = init();
    let mut slot: Option<usize> = None;
    let mut got: Vec<usize> = Vec::new();

    let producer = spawn(&mut sched, 0x100, 0, cfg(1)).unwrap();
    select_task(&mut sched, 0xAAA);
    let consumer = spawn(&mut sched, 0x200, 0, cfg(2)).unwrap();
    select_task(&mut sched, 0x101);
    assert_eq!(current_task_id(&sched), consumer.id());

    // Consumer finds the slot empty and parks.
    assert!(slot.is_none());
    park(&mut sched).unwrap();
    select_task(&mut sched, 0x201);
    assert_eq!(current_task_id(&sched), producer.id());

    for i in 0..10 {
        // Producer fills the slot, wakes the consumer, and sleeps one tick.
        slot = Some(i);
        consumer.unpark(&mut sched).unwrap();
        let now = current_time(&timer);
        wait_until(&mut timer, &mut sched, now + 1).unwrap();
        select_task(&mut sched, 0x102);
        assert_eq!(current_task_id(&sched), consumer.id());

        // Consumer drains the slot and parks again.
        got.push(slot.take().unwrap());
        park(&mut sched).unwrap();
        select_task(&mut sched, 0x202);
        assert_eq!(current_task_id(&sched), taskette::IDLE_TASK_ID);

        // The tick matures the producer's deadline.
        tick(&mut timer, &mut sched);
        select_task(&mut sched, 0x1);
        assert_eq!(current_task_id(&sched), producer.id());
    }
    assert_eq!(got, vec![0, 1, 2, 3, 4, 5, 6, 7, 8, 9]);
}

#[test]
fn equal_priority_yield_benchmark_terminates() {
    let mut sched = SchedulerState::init(0);
    let a = spawn(&mut sched, 0x100, 0, cfg(1)).unwrap();
    let b = spawn(&mut sched, 0x200, 0, cfg(1)).unwrap();
    select_task(&mut sched, 0xAAA);
    assert_eq!(current_task_id(&sched), a.id());
    // Two equal-priority tasks alternately yield 1000 times each.
    for round in 0..2000 {
        select_task(&mut sched, 0x300 + round);
        let expected = if round % 2 == 0 { b.id() } else { a.id() };
        assert_eq!(current_task_id(&sched), expected);
    }
}
