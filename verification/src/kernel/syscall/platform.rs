//! The platform call: cache maintenance and the thread pointer.

use crate::kernel::arch::machine::{Machine, MachineView};
use crate::kernel::syscall::context::SyscallContext;
use vstd::prelude::*;

verus! {

/// What the platform call does, and what it returns.
pub open spec fn platform_call(m: MachineView, args: Seq<u64>) -> (MachineView, u64) {
    let code = args[3] as u32;
    if code == 0 || code == 1 {
        (m, 0)
    } else if code == 2 {
        (MachineView { thread_pointer: args[0], ..m }, 0)
    } else if code == 3 {
        (m, m.thread_pointer)
    } else {
        (
            m.say("xnu-rs: unknown platform syscall code="@).hex(code as u64).say("\n"@),
            u64::MAX,
        )
    }
}

/// Carries out the platform call.
pub fn dispatch(m: &mut Machine, ctx: &mut SyscallContext)
    ensures
        final(m)@ == platform_call(old(m)@, old(ctx)@.args).0,
        final(ctx)@ == old(ctx)@.returning(platform_call(old(m)@, old(ctx)@.args).1),
{
    let code: u32 = ctx.arg(3) as u32;
    match code {
        0 | 1 => {
            ctx.set_return(0);
        },
        2 => {
            m.thread_pointer = ctx.arg(0);
            ctx.set_return(0);
        },
        3 => {
            ctx.set_return(m.thread_pointer);
        },
        _ => {
            m.say("xnu-rs: unknown platform syscall code=");
            m.hex(code as u64);
            m.say("\n");
            ctx.set_return(u64::MAX);
        },
    }
}

/// The thread pointer that is set is the one that is read.
pub proof fn law_thread_pointer(m: MachineView, set: Seq<u64>, get: Seq<u64>)
    requires
        set[3] == 2,
        get[3] == 3,
    ensures
        platform_call(platform_call(m, set).0, get).1 == set[0],
{
}

} // verus!
