//! Saved CPU state.

use vstd::prelude::*;

verus! {

/// CPU state saved by an exception.
pub struct TrapFrame {
    /// General-purpose registers x0 to x30.
    pub x: [u64; 31],
    /// User stack pointer.
    pub sp: u64,
    /// Return address.
    pub pc: u64,
    /// Saved processor state.
    pub pstate: u64,
}

/// What a `TrapFrame` holds.
#[verifier::ext_equal]
pub struct Frame {
    pub x: Seq<u64>,
    pub sp: u64,
    pub pc: u64,
    pub pstate: u64,
}

impl View for TrapFrame {
    type V = Frame;

    open spec fn view(&self) -> Frame {
        Frame { x: self.x@, sp: self.sp, pc: self.pc, pstate: self.pstate }
    }
}

impl TrapFrame {
    /// A frame for a new user task that starts at `entry` with stack `sp`: all
    /// registers zero, user mode, interrupts unmasked.
    #[must_use]
    pub fn new_user(entry: u64, sp: u64) -> (r: TrapFrame)
        ensures
            r@ == (Frame { x: Seq::new(31, |i: int| 0u64), sp, pc: entry, pstate: 0 }),
    {
        let r = TrapFrame { x: [0u64; 31], sp, pc: entry, pstate: 0 };
        assert(r@.x =~= Seq::new(31, |i: int| 0u64));
        r
    }
}

} // verus!
