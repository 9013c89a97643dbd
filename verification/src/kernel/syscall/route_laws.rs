//! How the number of a call is read.

use crate::kernel::syscall::dispatch;
use vstd::prelude::*;

verus! {

/// The number of a Mach trap is a negative one of 32 bits: it is made into the
/// same negative number of 64 bits, whatever the upper half held.
pub proof fn law_trap_number_is_negative(nr: u64, upper: u64, k: u64)
    requires
        0 < k < 0x8000_0000,
        upper < 0x1_0000_0000,
        nr == upper * 0x1_0000_0000 + (0x1_0000_0000 - k),
    ensures
        dispatch::trap_number(nr) == 0x1_0000_0000_0000_0000 - k,
        dispatch::low(nr) == 0x1_0000_0000 - k,
        dispatch::low(nr) > 0x8000_0000,
{
}

} // verus!
