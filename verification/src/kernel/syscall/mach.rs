//! Mach traps, with ports that messages go through.

use crate::bytes;
use crate::kernel::arch::machine::MachineView;
use crate::kernel::arch::syscall::mach;
use crate::kernel::arch::syscall::mach::{
    HOST_SELF_TRAP, KERNELRPC_MACH_PORT_ALLOCATE, KERNELRPC_MACH_PORT_CONSTRUCT,
    KERNELRPC_MACH_PORT_DEALLOCATE, KERNELRPC_MACH_PORT_DESTRUCT,
    KERNELRPC_MACH_PORT_INSERT_RIGHT, KERNELRPC_MACH_PORT_MOD_REFS,
    KERNELRPC_MACH_VM_ALLOCATE_TRAP, KERNELRPC_MACH_VM_DEALLOCATE_TRAP,
    KERNELRPC_MACH_VM_MAP_TRAP, KERNELRPC_MACH_VM_PROTECT_TRAP, MACH_ABSOLUTE_TIME,
    MACH_MSG2_TRAP, MACH_MSG_TRAP, MACH_REPLY_PORT, MACH_TIMEBASE_INFO, SEMAPHORE_SIGNAL_TRAP,
    SEMAPHORE_WAIT_TRAP, SWTCH_PRI_TRAP, SWTCH_TRAP, TASK_SELF_TRAP, THREAD_SELF_TRAP,
};
use crate::kernel::arch::syscall::memory;
use crate::kernel::ipc::mach_msg;
use crate::kernel::ipc::mach_msg::{MACH_MSG_SUCCESS, MACH_RCV_MSG, MACH_SEND_MSG};
use crate::kernel::ipc::rights::RightKind;
use crate::kernel::mach::task::{HOST_SELF_NAME, TASK_SELF_NAME, THREAD_SELF_NAME};
use crate::kernel::syscall::context::{SyscallContext, System, SystemView};
use crate::mem::Stop;
use vstd::prelude::*;

verus! {

/// What a trap leaves behind, and what it returns.
pub type Trap = (SystemView, Result<u64, Stop>);

/// Writes `data` at `addr`, unless that is zero, and returns 0.
pub open spec fn gave(s: SystemView, addr: u64, data: Seq<u8>) -> Trap {
    if addr == 0 {
        (s, Ok(0))
    } else {
        match s.m.fill(addr, data) {
            Ok(m) => (SystemView { m, ..s }, Ok(0)),
            Err(e) => (s, Err(e)),
        }
    }
}

/// With a new port that a fresh name is the right to receive from.
pub open spec fn with_port(s: SystemView) -> SystemView {
    SystemView { n: s.n.opened().named(s.n.ports.len() as usize, RightKind::Receive), ..s }
}

/// With one more right to send to the port that a name stands for, under a
/// fresh name, which is returned; 0 if the name stands for nothing.
pub open spec fn right_inserted(s: SystemView, name: u32) -> Trap {
    match s.n.get(name) {
        Some(e) => (
            SystemView { n: s.n.named(e.port, RightKind::Send), ..s },
            Ok(s.n.fresh_name() as u64),
        ),
        None => (s, Ok(0)),
    }
}

/// Sends and receives, as far as the options say: nothing is received if sending
/// failed.
pub open spec fn message(s: SystemView, args: Seq<u64>) -> Trap {
    let addr = args[0];
    let option = args[1] as u32;
    let (n, code) = if option & MACH_SEND_MSG != 0 {
        mach_msg::send_outcome(s.n, s.m.mem, addr, args[2] as u32)
    } else {
        (s.n, Ok(MACH_MSG_SUCCESS))
    };
    let mid = SystemView { n, ..s };
    match code {
        Err(e) => (mid, Err(e)),
        Ok(c) => if c == MACH_MSG_SUCCESS && option & MACH_RCV_MSG != 0 {
            let (n, mem, code) = mach_msg::recv_outcome(
                n,
                s.m.mem,
                args[4] as u32,
                addr,
                args[3] as u32,
            );
            (
                SystemView { n, m: MachineView { mem, ..s.m } },
                match code {
                    Ok(c) => Ok(c as u64),
                    Err(e) => Err(e),
                },
            )
        } else {
            (mid, Ok(c as u64))
        },
    }
}

/// Allocates memory.
pub open spec fn vm(s: SystemView, args: Seq<u64>, label: Seq<char>) -> Trap {
    let (m, code) = memory::vm_taken(s.m, args[1], args[2], label);
    (SystemView { m, ..s }, code)
}

/// Traps that do nothing and return 0.
pub open spec fn is_stub(nr: u64) -> bool {
    nr == KERNELRPC_MACH_VM_DEALLOCATE_TRAP || nr == KERNELRPC_MACH_PORT_MOD_REFS || nr
        == KERNELRPC_MACH_PORT_CONSTRUCT || nr == KERNELRPC_MACH_PORT_DESTRUCT || nr
        == SEMAPHORE_SIGNAL_TRAP || nr == SEMAPHORE_WAIT_TRAP || nr
        == KERNELRPC_MACH_VM_PROTECT_TRAP || nr == SWTCH_PRI_TRAP || nr == SWTCH_TRAP
}

/// What a trap does; `ticks` is the time counter.
pub open spec fn trap(s: SystemView, nr: u64, args: Seq<u64>, ticks: u64) -> Trap {
    if nr == MACH_ABSOLUTE_TIME {
        (s, Ok(ticks))
    } else if nr == MACH_TIMEBASE_INFO {
        gave(s, args[0], mach::timebase())
    } else if nr == TASK_SELF_TRAP {
        (s, Ok(TASK_SELF_NAME as u64))
    } else if nr == THREAD_SELF_TRAP {
        (s, Ok(THREAD_SELF_NAME as u64))
    } else if nr == HOST_SELF_TRAP {
        (s, Ok(HOST_SELF_NAME as u64))
    } else if nr == MACH_REPLY_PORT {
        (with_port(s), Ok(s.n.fresh_name() as u64))
    } else if nr == KERNELRPC_MACH_PORT_ALLOCATE {
        gave(with_port(s), args[2], bytes::le32_bytes(s.n.fresh_name()))
    } else if nr == KERNELRPC_MACH_PORT_DEALLOCATE {
        (SystemView { n: s.n.without(args[1] as u32), ..s }, Ok(0))
    } else if nr == KERNELRPC_MACH_PORT_INSERT_RIGHT {
        right_inserted(s, args[1] as u32)
    } else if nr == MACH_MSG_TRAP || nr == MACH_MSG2_TRAP {
        message(s, args)
    } else if nr == KERNELRPC_MACH_VM_ALLOCATE_TRAP {
        vm(s, args, "xnu-rs: vm_allocate size=0x"@)
    } else if nr == KERNELRPC_MACH_VM_MAP_TRAP {
        vm(s, args, "xnu-rs: vm_map size=0x"@)
    } else if is_stub(nr) {
        (s, Ok(0))
    } else {
        (
            SystemView { m: s.m.say("xnu-rs: mach x16="@).hex(nr).say("\n"@), ..s },
            Ok(u64::MAX),
        )
    }
}

/// Writes `data` at `addr`, unless that is zero.
fn give(s: &mut System, addr: u64, data: &[u8]) -> (r: Result<u64, Stop>)
    ensures
        (final(s)@, r) == gave(old(s)@, addr, data@),
{
    if addr == 0 {
        return Ok(0);
    }
    match s.machine.fill(addr, data) {
        Ok(()) => Ok(0),
        Err(e) => Err(e),
    }
}

/// Opens a port: the name of the right to receive from it.
fn add_port(s: &mut System) -> (r: u32)
    requires
        old(s)@.n.wf(),
    ensures
        final(s)@ == with_port(old(s)@),
        final(s)@.n.wf(),
        r == old(s)@.n.fresh_name(),
{
    let port: usize = s.names.open_port();
    s.names.insert(port, RightKind::Receive)
}

/// Sends and receives.
fn send_and_receive(s: &mut System, ctx: &SyscallContext) -> (r: Result<u64, Stop>)
    requires
        old(s)@.n.wf(),
    ensures
        (final(s)@, r) == message(old(s)@, ctx@.args),
        final(s)@.n.wf(),
{
    let addr: u64 = ctx.arg(0);
    let option: u32 = ctx.arg(1) as u32;
    let mut code: u32 = MACH_MSG_SUCCESS;
    if option & MACH_SEND_MSG != 0 {
        code = match mach_msg::send(&mut s.names, &s.machine.mem, addr, ctx.arg(2) as u32) {
            Ok(c) => c,
            Err(e) => {
                return Err(e);
            },
        };
    }
    if code == MACH_MSG_SUCCESS && option & MACH_RCV_MSG != 0 {
        code = match mach_msg::recv(
            &mut s.names,
            &mut s.machine.mem,
            ctx.arg(4) as u32,
            addr,
            ctx.arg(3) as u32,
        ) {
            Ok(c) => c,
            Err(e) => {
                return Err(e);
            },
        };
    }
    Ok(code as u64)
}

/// Gives a task one more right to send to a port.
fn insert_right(s: &mut System, name: u32) -> (r: Result<u64, Stop>)
    requires
        old(s)@.n.wf(),
    ensures
        (final(s)@, r) == right_inserted(old(s)@, name),
        final(s)@.n.wf(),
{
    match s.names.lookup(name) {
        Some(e) => {
            let send_name: u32 = s.names.insert(e.port, RightKind::Send);
            Ok(send_name as u64)
        },
        None => Ok(0),
    }
}

/// Carries out the trap `nr`.
fn run(s: &mut System, ctx: &SyscallContext, nr: u64, ticks: u64) -> (r: Result<u64, Stop>)
    requires
        old(s)@.n.wf(),
    ensures
        (final(s)@, r) == trap(old(s)@, nr, ctx@.args, ticks),
        final(s)@.n.wf(),
{
    match nr {
        MACH_ABSOLUTE_TIME => Ok(ticks),
        MACH_TIMEBASE_INFO => {
            let mut b: Vec<u8> = Vec::new();
            bytes::push_le32(&mut b, 1);
            bytes::push_le32(&mut b, 1);
            assert(b@ =~= mach::timebase());
            give(s, ctx.arg(0), &b)
        },
        TASK_SELF_TRAP => Ok(TASK_SELF_NAME as u64),
        THREAD_SELF_TRAP => Ok(THREAD_SELF_NAME as u64),
        HOST_SELF_TRAP => Ok(HOST_SELF_NAME as u64),
        MACH_REPLY_PORT => {
            let name: u32 = add_port(s);
            Ok(name as u64)
        },
        KERNELRPC_MACH_PORT_ALLOCATE => {
            let name: u32 = add_port(s);
            let mut b: Vec<u8> = Vec::new();
            bytes::push_le32(&mut b, name);
            assert(b@ =~= bytes::le32_bytes(name));
            give(s, ctx.arg(2), &b)
        },
        KERNELRPC_MACH_PORT_DEALLOCATE => {
            s.names.deallocate(ctx.arg(1) as u32);
            Ok(0)
        },
        KERNELRPC_MACH_PORT_INSERT_RIGHT => insert_right(s, ctx.arg(1) as u32),
        MACH_MSG_TRAP | MACH_MSG2_TRAP => send_and_receive(s, ctx),
        KERNELRPC_MACH_VM_ALLOCATE_TRAP => memory::vm_take(
            &mut s.machine,
            ctx.arg(1),
            ctx.arg(2),
            "xnu-rs: vm_allocate size=0x",
        ),
        KERNELRPC_MACH_VM_MAP_TRAP => memory::vm_take(
            &mut s.machine,
            ctx.arg(1),
            ctx.arg(2),
            "xnu-rs: vm_map size=0x",
        ),
        KERNELRPC_MACH_VM_DEALLOCATE_TRAP
        | KERNELRPC_MACH_PORT_MOD_REFS
        | KERNELRPC_MACH_PORT_CONSTRUCT
        | KERNELRPC_MACH_PORT_DESTRUCT
        | SEMAPHORE_SIGNAL_TRAP
        | SEMAPHORE_WAIT_TRAP
        | KERNELRPC_MACH_VM_PROTECT_TRAP
        | SWTCH_PRI_TRAP
        | SWTCH_TRAP => Ok(0),
        _ => {
            s.machine.say("xnu-rs: mach x16=");
            s.machine.hex(nr);
            s.machine.say("\n");
            Ok(u64::MAX)
        },
    }
}

/// Carries out a trap and returns its result.
pub fn dispatch(s: &mut System, ctx: &mut SyscallContext, nr: u64, ticks: u64) -> (r: Result<
    (),
    Stop,
>)
    requires
        old(s)@.n.wf(),
    ensures
        final(s)@.n.wf(),
        final(s)@ == trap(old(s)@, nr, old(ctx)@.args, ticks).0,
        match trap(old(s)@, nr, old(ctx)@.args, ticks).1 {
            Ok(v) => r is Ok && final(ctx)@ == old(ctx)@.returning(v),
            Err(e) => r == Err::<(), Stop>(e) && final(ctx)@ == old(ctx)@,
        },
{
    match run(s, ctx, nr, ticks) {
        Ok(v) => {
            ctx.set_return(v);
            Ok(())
        },
        Err(e) => Err(e),
    }
}

/// A port that a trap opens has one right to receive, and no trap gives a port a
/// second one.
pub proof fn law_traps_keep_one_receiver(s: SystemView, nr: u64, args: Seq<u64>, ticks: u64)
    requires
        s.n.wf(),
        s.n.one_receiver(),
        s.n.ports.len() < usize::MAX,
    ensures
        trap(s, nr, args, ticks).0.n.one_receiver(),
{
    let n = trap(s, nr, args, ticks).0.n;
    crate::kernel::ipc::mach_port::law_one_receiver(s.n, 0, RightKind::Send, args[1] as u32);
    if nr == KERNELRPC_MACH_PORT_INSERT_RIGHT {
        if let Some(e) = s.n.get(args[1] as u32) {
            crate::kernel::ipc::mach_port::law_one_receiver(s.n, e.port, RightKind::Send, 0);
        }
    } else if nr == MACH_MSG_TRAP || nr == MACH_MSG2_TRAP {
        lemma_message_keeps_names(s, args);
        assert forall|a: u32, b: u32, port: int|
            #![trigger n.receives(a, port), n.receives(b, port)]
            n.receives(a, port) && n.receives(b, port) implies a == b by {
            assert(s.n.receives(a, port) && s.n.receives(b, port));
        }
    } else if nr == MACH_REPLY_PORT || nr == KERNELRPC_MACH_PORT_ALLOCATE || nr
        == KERNELRPC_MACH_PORT_DEALLOCATE {
    } else {
        assert(n.entries == s.n.entries);
        assert forall|a: u32, b: u32, port: int|
            #![trigger n.receives(a, port), n.receives(b, port)]
            n.receives(a, port) && n.receives(b, port) implies a == b by {
            assert(s.n.receives(a, port) && s.n.receives(b, port));
        }
    }
}

/// Messages give no new names.
proof fn lemma_message_keeps_names(s: SystemView, args: Seq<u64>)
    ensures
        forall|a: u32| #[trigger]
            message(s, args).0.n.entries.contains_key(a) ==> s.n.entries.contains_key(a) && message(
                s,
                args,
            ).0.n.entries[a] == s.n.entries[a],
{
}

} // verus!
