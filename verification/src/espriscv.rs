//! Register frame model for RISC-V-based cores: the values a fresh task's
//! initial stack frame is filled with. The port copies these values into its
//! 16-byte-aligned trap-frame layout at the top of the task's stack.

use vstd::prelude::*;

verus! {

/// The full integer register file plus PC and MSTATUS, as saved and restored
/// by the context-switch trap handler.
#[derive(Clone, Copy, Debug, PartialEq, Eq, Structural)]
pub struct SavedRegisters {
    pub ra: u32,
    pub gp: u32,
    pub tp: u32,
    pub t0: u32,
    pub t1: u32,
    pub t2: u32,
    pub s0: u32,
    pub s1: u32,
    pub a0: u32,
    pub a1: u32,
    pub a2: u32,
    pub a3: u32,
    pub a4: u32,
    pub a5: u32,
    pub a6: u32,
    pub a7: u32,
    pub s2: u32,
    pub s3: u32,
    pub s4: u32,
    pub s5: u32,
    pub s6: u32,
    pub s7: u32,
    pub s8: u32,
    pub s9: u32,
    pub s10: u32,
    pub s11: u32,
    pub t3: u32,
    pub t4: u32,
    pub t5: u32,
    pub t6: u32,
    pub pc: u32,
    pub mstatus: u32,
}

impl SavedRegisters {
    /// A fresh frame that resumes at `pc` with `a0` as the first argument.
    /// MSTATUS has MPP (bits 11-12) set to machine mode and MPIE (bit 7)
    /// set, so interrupts re-enable on the return into the task; every other
    /// register is zero.
    pub fn from_pc_and_a0(pc: u32, a0: u32) -> (r: Self)
        ensures
            r.a0 == a0,
            r.pc == pc,
            r.mstatus == 0x1880u32,
            r.ra == 0 && r.gp == 0 && r.tp == 0,
            r.t0 == 0 && r.t1 == 0 && r.t2 == 0 && r.t3 == 0 && r.t4 == 0 && r.t5 == 0 && r.t6
                == 0,
            r.s0 == 0 && r.s1 == 0 && r.s2 == 0 && r.s3 == 0 && r.s4 == 0 && r.s5 == 0 && r.s6
                == 0 && r.s7 == 0 && r.s8 == 0 && r.s9 == 0 && r.s10 == 0 && r.s11 == 0,
            r.a1 == 0 && r.a2 == 0 && r.a3 == 0 && r.a4 == 0 && r.a5 == 0 && r.a6 == 0 && r.a7
                == 0,
    {
        proof {
            assert((3u32 << 11) | (1u32 << 7) == 0x1880u32) by (bit_vector);
        }
        Self {
            ra: 0,
            gp: 0,
            tp: 0,
            t0: 0,
            t1: 0,
            t2: 0,
            s0: 0,
            s1: 0,
            a0,
            a1: 0,
            a2: 0,
            a3: 0,
            a4: 0,
            a5: 0,
            a6: 0,
            a7: 0,
            s2: 0,
            s3: 0,
            s4: 0,
            s5: 0,
            s6: 0,
            s7: 0,
            s8: 0,
            s9: 0,
            s10: 0,
            s11: 0,
            t3: 0,
            t4: 0,
            t5: 0,
            t6: 0,
            pc,
            mstatus: (3u32 << 11) | (1u32 << 7),
        }
    }
}

} // verus!
