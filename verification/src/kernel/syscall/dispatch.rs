//! Which kind of system call a number stands for.

use crate::kernel::syscall::context::{SyscallContext, System, SystemView};
use crate::kernel::syscall::mach;
use crate::kernel::syscall::platform;
use crate::mem::Stop;
use vstd::prelude::*;

verus! {

/// The number of the platform call.
pub const PLATFORM_CALL: u64 = 0x8000_0000;

/// How a system call goes on.
#[derive(Clone, Copy, Debug, PartialEq, Eq, Structural)]
pub enum Route {
    /// It is done.
    Done,
    /// It is a BSD call with this number, which is not handled here.
    Bsd(u64),
}

/// The lower half of a call number.
pub open spec fn low(nr: u64) -> int {
    nr as int % 0x1_0000_0000
}

/// The number of a Mach trap: the lower half as a negative number.
pub open spec fn trap_number(nr: u64) -> u64 {
    (0xffff_ffff_0000_0000 + low(nr)) as u64
}

/// Carries out a system call: the platform call, a Mach trap, or a BSD call; the
/// upper half of the number of the first two does not count.
pub fn dispatch(s: &mut System, ctx: &mut SyscallContext, ticks: u64) -> (r: Result<Route, Stop>)
    requires
        old(s)@.n.wf(),
    ensures
        final(s)@.n.wf(),
        ({
            let call = old(ctx)@;
            if low(call.nr) == PLATFORM_CALL {
                let (m, v) = platform::platform_call(old(s)@.m, call.args);
                &&& r == Ok::<Route, Stop>(Route::Done)
                &&& final(s)@ == (SystemView { m, ..old(s)@ })
                &&& final(ctx)@ == call.returning(v)
            } else if low(call.nr) > PLATFORM_CALL {
                let (after, v) = mach::trap(old(s)@, trap_number(call.nr), call.args, ticks);
                &&& final(s)@ == after
                &&& match v {
                    Ok(v) => r == Ok::<Route, Stop>(Route::Done) && final(ctx)@ == call.returning(
                        v,
                    ),
                    Err(e) => r == Err::<Route, Stop>(e) && final(ctx)@ == call,
                }
            } else {
                &&& r == Ok::<Route, Stop>(Route::Bsd(call.nr))
                &&& final(s)@ == old(s)@
                &&& final(ctx)@ == call
            }
        }),
{
    let nr: u64 = ctx.nr();
    let half: u64 = nr % 0x1_0000_0000;
    if half == PLATFORM_CALL {
        platform::dispatch(&mut s.machine, ctx);
        Ok(Route::Done)
    } else if half > PLATFORM_CALL {
        match mach::dispatch(s, ctx, 0xffff_ffff_0000_0000 + half, ticks) {
            Ok(()) => Ok(Route::Done),
            Err(e) => Err(e),
        }
    } else {
        Ok(Route::Bsd(nr))
    }
}

} // verus!
