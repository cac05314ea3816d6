//! Register frame models for Armv7-M-class cores: the values a fresh task's
//! initial stack frame is filled with. The port copies these values into the
//! hardware exception-return layout at the top of the task's stack.

use vstd::prelude::*;

verus! {

/// The registers the hardware itself stacks on exception entry.
#[derive(Clone, Copy, Debug, PartialEq, Eq, Structural)]
pub struct HardwareSavedRegisters {
    pub r0: u32,
    pub r1: u32,
    pub r2: u32,
    pub r3: u32,
    pub r12: u32,
    pub lr: u32,
    pub pc: u32,
    pub xpsr: u32,
}

impl HardwareSavedRegisters {
    /// A fresh frame that resumes at `pc` with `r0` as the first argument;
    /// xPSR has only the Thumb-state bit (bit 24) set.
    pub fn from_pc_and_r0(pc: u32, r0: u32) -> (r: Self)
        ensures
            r.r0 == r0,
            r.r1 == 0 && r.r2 == 0 && r.r3 == 0 && r.r12 == 0 && r.lr == 0,
            r.pc == pc,
            r.xpsr == 0x0100_0000u32,
    {
        proof {
            assert(1u32 << 24 == 0x0100_0000u32) by (bit_vector);
        }
        Self { r0, r1: 0, r2: 0, r3: 0, r12: 0, lr: 0, pc, xpsr: 1u32 << 24 }
    }
}

/// The registers the context-switch handler stacks by software, together
/// with the EXC_RETURN value that selects thread mode on the process stack.
#[derive(Clone, Copy, Debug, PartialEq, Eq, Structural)]
pub struct SoftwareSavedRegisters {
    pub r4: u32,
    pub r5: u32,
    pub r6: u32,
    pub r7: u32,
    pub r8: u32,
    pub r9: u32,
    pub r10: u32,
    pub r11: u32,
    pub exc_return: u32,
}

impl SoftwareSavedRegisters {
    /// A zeroed frame whose EXC_RETURN selects thread mode on the process
    /// stack, with or without floating-point state.
    pub fn new(fpu_regs_saved: bool) -> (r: Self)
        ensures
            r.r4 == 0 && r.r5 == 0 && r.r6 == 0 && r.r7 == 0,
            r.r8 == 0 && r.r9 == 0 && r.r10 == 0 && r.r11 == 0,
            r.exc_return == if fpu_regs_saved {
                0xFFFF_FFEDu32
            } else {
                0xFFFF_FFFDu32
            },
    {
        Self {
            r4: 0,
            r5: 0,
            r6: 0,
            r7: 0,
            r8: 0,
            r9: 0,
            r10: 0,
            r11: 0,
            exc_return: if fpu_regs_saved {
                0xFFFF_FFED
            } else {
                0xFFFF_FFFD
            },
        }
    }
}

} // verus!
