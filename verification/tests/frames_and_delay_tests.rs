//! Register frame construction, stack alignment math, and the delay helper.

use taskette::align_up;
use taskette::cortexm::{HardwareSavedRegisters, SoftwareSavedRegisters};
use taskette::delay::{ticks_for, Delay};
use taskette::espriscv::SavedRegisters;
use taskette::scheduler::{current_task_id, select_task, spawn, SchedulerConfig, SchedulerState};
use taskette::task::TaskConfig;
use taskette::timer::{init, tick};
use taskette::IDLE_TASK_ID;

#[test]
fn armv7m_hardware_frame_values() {
    let f = HardwareSavedRegisters::from_pc_and_r0(0x0800_1234, 0x2000_0000);
    assert_eq!(f.pc, 0x0800_1234);
    assert_eq!(f.r0, 0x2000_0000);
    assert_eq!(f.xpsr, 0x0100_0000); // Thumb state bit
    assert_eq!(f.r1, 0);
    assert_eq!(f.r2, 0);
    assert_eq!(f.r3, 0);
    assert_eq!(f.r12, 0);
    assert_eq!(f.lr, 0);
}

#[test]
fn armv7m_software_frame_exc_return() {
    let no_fpu = SoftwareSavedRegisters::new(false);
    assert_eq!(no_fpu.exc_return, 0xFFFF_FFFD); // thread mode, PSP, no FPU regs
    assert_eq!(no_fpu.r4, 0);
    assert_eq!(no_fpu.r11, 0);
    let fpu = SoftwareSavedRegisters::new(true);
    assert_eq!(fpu.exc_return, 0xFFFF_FFED); // thread mode, PSP, FPU regs
}

#[test]
fn riscv_frame_values() {
    let f = SavedRegisters::from_pc_and_a0(0x4200_0000, 0x3FC8_0000);
    assert_eq!(f.pc, 0x4200_0000);
    assert_eq!(f.a0, 0x3FC8_0000);
    assert_eq!(f.mstatus, 0x1880); // MPP = machine mode, MPIE set
    assert_eq!(f.ra, 0);
    assert_eq!(f.a1, 0);
    assert_eq!(f.s11, 0);
    assert_eq!(f.t6, 0);
}

#[test]
fn align_up_rounds_to_the_next_multiple() {
    assert_eq!(align_up(0, 8), 0);
    assert_eq!(align_up(1, 8), 8);
    assert_eq!(align_up(8, 8), 8);
    assert_eq!(align_up(9, 8), 16);
    assert_eq!(align_up(24, 16), 32);
    assert_eq!(align_up(32, 16), 32);
}

#[test]
fn ticks_for_rounds_up_and_does_not_overflow() {
    // One millisecond at 1 kHz is exactly one tick.
    assert_eq!(ticks_for(1_000_000, 1000, 1_000_000_000), 1);
    // Any fraction of a tick rounds up.
    assert_eq!(ticks_for(1, 1000, 1_000_000_000), 1);
    assert_eq!(ticks_for(1500, 1000, 1_000_000), 2);
    assert_eq!(ticks_for(0, 1000, 1_000_000_000), 0);
    // The widened product survives values that overflow a 32-bit multiply.
    assert_eq!(ticks_for(u32::MAX, u32::MAX, 1), (u32::MAX as u64) * (u32::MAX as u64));
}

#[test]
fn delay_ticks_sleeps_until_woken_by_the_tick() {
    let mut sched = SchedulerState::init(0);
    let mut timer = init();
    let d = Delay::new(&SchedulerConfig::default().with_tick_freq(100));
    assert_eq!(d.tick_freq, 100);

    let a = spawn(&mut sched, 0x100, 0, TaskConfig::default()).unwrap();
    select_task(&mut sched, 0xAAA);
    assert_eq!(current_task_id(&sched), a.id());
    d.delay_ticks(&mut timer, &mut sched, 2).unwrap();
    select_task(&mut sched, 0x101);
    assert_eq!(current_task_id(&sched), IDLE_TASK_ID);
    tick(&mut timer, &mut sched);
    select_task(&mut sched, 0x1);
    assert_eq!(current_task_id(&sched), IDLE_TASK_ID);
    tick(&mut timer, &mut sched);
    select_task(&mut sched, 0x2);
    assert_eq!(current_task_id(&sched), a.id());
}
