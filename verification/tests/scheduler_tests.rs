//! Scheduler lifecycle and dispatch behavior, driven directly on the state.

use taskette::scheduler::{
    block_task, check_stack_canary, current_task_id, fill_stack_canary, remove_task, select_task,
    spawn, task_count, unblock_task, SchedulerConfig, SchedulerState, STACK_CANARY,
};
use taskette::task::{current, park, TaskConfig};
use taskette::{Error, IDLE_TASK_ID, MAX_NUM_TASKS, MAX_PRIORITY};

fn cfg(priority: usize) -> TaskConfig {
    TaskConfig::default().with_priority(priority)
}

#[test]
fn init_state_has_only_idle() {
    let sched = SchedulerState::init(0x1000);
    assert_eq!(sched.current_task, IDLE_TASK_ID);
    assert_eq!(sched.last_task_id, IDLE_TASK_ID);
    assert!(!sched.started);
    // Idle is executing, so no queue holds anything and no bitmap bit is set.
    assert_eq!(sched.ready.bitmap, 0);
}

#[test]
fn spawn_allocates_increasing_ids() {
    let mut sched = SchedulerState::init(0);
    let a = spawn(&mut sched, 0x100, 0, cfg(1)).unwrap();
    let b = spawn(&mut sched, 0x200, 0, cfg(1)).unwrap();
    assert_eq!(a.id(), 1);
    assert_eq!(b.id(), 2);
    assert_eq!(sched.last_task_id, 2);
}

#[test]
fn spawn_sets_bitmap_bit_of_priority() {
    let mut sched = SchedulerState::init(0);
    spawn(&mut sched, 0x100, 0, cfg(3)).unwrap();
    assert_eq!(sched.ready.bitmap & (1 << 3), 1 << 3);
    spawn(&mut sched, 0x200, 0, cfg(7)).unwrap();
    assert_eq!(sched.ready.bitmap & (1 << 7), 1 << 7);
}

#[test]
fn spawn_rejects_priority_out_of_range() {
    let mut sched = SchedulerState::init(0);
    let r = spawn(&mut sched, 0x100, 0, cfg(MAX_PRIORITY + 1));
    assert!(matches!(r, Err(Error::InvalidPriority)));
    // The failed spawn did not allocate an id.
    assert_eq!(sched.last_task_id, 0);
}

#[test]
fn spawn_fails_when_table_is_full() {
    let mut sched = SchedulerState::init(0);
    // Idle occupies one slot; MAX_NUM_TASKS - 1 user tasks fit.
    for i in 0..MAX_NUM_TASKS - 1 {
        spawn(&mut sched, 0x100 + i, 0, cfg(1)).unwrap();
    }
    let r = spawn(&mut sched, 0x900, 0, cfg(1));
    assert!(matches!(r, Err(Error::TaskFull)));
}

#[test]
fn select_prefers_higher_priority() {
    let mut sched = SchedulerState::init(0);
    let low = spawn(&mut sched, 0x100, 0, cfg(1)).unwrap();
    let high = spawn(&mut sched, 0x200, 0, cfg(2)).unwrap();
    let sp = select_task(&mut sched, 0xAAA);
    assert_eq!(current_task_id(&sched), high.id());
    assert_eq!(sp, 0x200);
    let sp2 = select_task(&mut sched, 0x201);
    assert_eq!(current_task_id(&sched), high.id());
    assert_eq!(sp2, 0x201);
    // Once the high task blocks, the low one runs.
    block_task(&mut sched, high.id()).unwrap();
    let sp3 = select_task(&mut sched, 0x202);
    assert_eq!(current_task_id(&sched), low.id());
    assert_eq!(sp3, 0x100);
}

#[test]
fn select_rotates_equal_priority_fifo() {
    let mut sched = SchedulerState::init(0);
    let a = spawn(&mut sched, 0x100, 0, cfg(1)).unwrap();
    let b = spawn(&mut sched, 0x200, 0, cfg(1)).unwrap();
    select_task(&mut sched, 0xAAA);
    assert_eq!(current_task_id(&sched), a.id());
    select_task(&mut sched, 0x101);
    assert_eq!(current_task_id(&sched), b.id());
    select_task(&mut sched, 0x201);
    assert_eq!(current_task_id(&sched), a.id());
    // The stack pointer saved on rotation comes back on re-dispatch.
    let sp = select_task(&mut sched, 0x202);
    assert_eq!(current_task_id(&sched), b.id());
    assert_eq!(sp, 0x201);
}

#[test]
fn select_falls_back_to_idle() {
    let mut sched = SchedulerState::init(0);
    let a = spawn(&mut sched, 0x100, 0, cfg(1)).unwrap();
    select_task(&mut sched, 0xAAA);
    assert_eq!(current_task_id(&sched), a.id());
    block_task(&mut sched, a.id()).unwrap();
    select_task(&mut sched, 0x101);
    assert_eq!(current_task_id(&sched), IDLE_TASK_ID);
    // Idle was dispatched with the stack pointer it saved when it left.
}

#[test]
fn block_is_idempotent_and_unblock_requeues() {
    let mut sched = SchedulerState::init(0);
    let a = spawn(&mut sched, 0x100, 0, cfg(1)).unwrap();
    block_task(&mut sched, a.id()).unwrap();
    block_task(&mut sched, a.id()).unwrap();
    // Blocked task is not dispatched.
    select_task(&mut sched, 0xAAA);
    assert_eq!(current_task_id(&sched), IDLE_TASK_ID);
    unblock_task(&mut sched, a.id()).unwrap();
    unblock_task(&mut sched, a.id()).unwrap();
    select_task(&mut sched, 0xBBB);
    assert_eq!(current_task_id(&sched), a.id());
}

#[test]
fn unpark_unknown_task_yields_not_found() {
    let mut sched = SchedulerState::init(0);
    let a = spawn(&mut sched, 0x100, 0, cfg(1)).unwrap();
    remove_task(&mut sched, a.id()).unwrap();
    assert!(matches!(a.unpark(&mut sched), Err(Error::NotFound)));
    assert!(matches!(block_task(&mut sched, a.id()), Err(Error::NotFound)));
    assert!(matches!(remove_task(&mut sched, a.id()), Err(Error::NotFound)));
}

#[test]
fn removed_task_is_never_dispatched() {
    let mut sched = SchedulerState::init(0);
    let a = spawn(&mut sched, 0x100, 0, cfg(1)).unwrap();
    let b = spawn(&mut sched, 0x200, 0, cfg(1)).unwrap();
    remove_task(&mut sched, a.id()).unwrap();
    select_task(&mut sched, 0xAAA);
    assert_eq!(current_task_id(&sched), b.id());
    select_task(&mut sched, 0x201);
    assert_eq!(current_task_id(&sched), b.id());
}

#[test]
fn park_blocks_the_current_task() {
    let mut sched = SchedulerState::init(0);
    let a = spawn(&mut sched, 0x100, 0, cfg(1)).unwrap();
    select_task(&mut sched, 0xAAA);
    assert_eq!(current(&sched).id(), a.id());
    park(&mut sched).unwrap();
    select_task(&mut sched, 0x101);
    assert_eq!(current_task_id(&sched), IDLE_TASK_ID);
    // A parked task resumes where it left off once unparked.
    a.unpark(&mut sched).unwrap();
    let sp = select_task(&mut sched, 0xBBB);
    assert_eq!(current_task_id(&sched), a.id());
    assert_eq!(sp, 0x101);
}

#[test]
fn spawn_while_running_preempts_on_next_dispatch() {
    let mut sched = SchedulerState::init(0);
    let low = spawn(&mut sched, 0x100, 0, cfg(1)).unwrap();
    select_task(&mut sched, 0xAAA);
    assert_eq!(current_task_id(&sched), low.id());
    // The running low task spawns a higher-priority one; the next dispatch
    // must pick the newcomer.
    let high = spawn(&mut sched, 0x200, 0, cfg(2)).unwrap();
    let sp = select_task(&mut sched, 0x101);
    assert_eq!(current_task_id(&sched), high.id());
    assert_eq!(sp, 0x200);
}

#[test]
fn task_count_tracks_spawns_and_removes() {
    let mut sched = SchedulerState::init(0);
    assert_eq!(task_count(&sched), 1); // idle
    let a = spawn(&mut sched, 0x100, 0, cfg(1)).unwrap();
    let b = spawn(&mut sched, 0x200, 0, cfg(2)).unwrap();
    let c = spawn(&mut sched, 0x300, 0, cfg(3)).unwrap();
    assert_eq!(task_count(&sched), 4);
    // Blocking and unblocking do not change the count.
    block_task(&mut sched, b.id()).unwrap();
    assert_eq!(task_count(&sched), 4);
    unblock_task(&mut sched, b.id()).unwrap();
    assert_eq!(task_count(&sched), 4);
    remove_task(&mut sched, a.id()).unwrap();
    assert_eq!(task_count(&sched), 3);
    remove_task(&mut sched, c.id()).unwrap();
    remove_task(&mut sched, b.id()).unwrap();
    assert_eq!(task_count(&sched), 1); // idle is always present
}

#[test]
fn config_builders_record_their_values() {
    let sc = SchedulerConfig::default();
    assert_eq!(sc.tick_freq, 1000);
    assert_eq!(sc.with_tick_freq(250).tick_freq, 250);
    let tc = TaskConfig::default();
    assert_eq!(tc.priority, 1);
    assert_eq!(tc.with_priority(4).priority, 4);
}

#[test]
fn canary_words_detect_corruption() {
    let words = fill_stack_canary();
    assert_eq!(words.len(), 4);
    assert!(words.iter().all(|w| *w == 0xABCD1234));
    assert!(check_stack_canary(&words));
    let mut bad = words.clone();
    bad[2] = 0xDEADBEEF;
    assert!(!check_stack_canary(&bad));
    assert_eq!(STACK_CANARY, 0xABCD1234);
}
