//! Mach traps and the platform call.

use crate::bytes;
use crate::kernel::arch::context::{Frame, TrapFrame};
use crate::kernel::arch::machine;
use crate::kernel::arch::machine::{Flow, Machine, MachineView, Outcome};
use crate::kernel::arch::syscall::info;
use crate::kernel::arch::syscall::memory;
use vstd::prelude::*;

verus! {

pub const MACH_ABSOLUTE_TIME: u64 = 0xffff_ffff_ffff_fffd;

pub const MACH_TIMEBASE_INFO: u64 = 0xffff_ffff_ffff_fffc;

pub const SWTCH_PRI_TRAP: u64 = 0xffff_ffff_ffff_fffb;

pub const SWTCH_TRAP: u64 = 0xffff_ffff_ffff_fffa;

pub const KERNELRPC_MACH_VM_ALLOCATE_TRAP: u64 = 0xffff_ffff_ffff_fff6;

pub const KERNELRPC_MACH_VM_DEALLOCATE_TRAP: u64 = 0xffff_ffff_ffff_fff4;

pub const KERNELRPC_MACH_VM_PROTECT_TRAP: u64 = 0xffff_ffff_ffff_fff2;

pub const KERNELRPC_MACH_VM_MAP_TRAP: u64 = 0xffff_ffff_ffff_fff1;

pub const KERNELRPC_MACH_PORT_ALLOCATE: u64 = 0xffff_ffff_ffff_fff0;

pub const KERNELRPC_MACH_PORT_DEALLOCATE: u64 = 0xffff_ffff_ffff_ffee;

pub const KERNELRPC_MACH_PORT_MOD_REFS: u64 = 0xffff_ffff_ffff_ffed;

pub const HOST_SELF_TRAP: u64 = 0xffff_ffff_ffff_ffec;

pub const KERNELRPC_MACH_PORT_INSERT_RIGHT: u64 = 0xffff_ffff_ffff_ffe9;

pub const KERNELRPC_MACH_PORT_DESTRUCT: u64 = 0xffff_ffff_ffff_ffe8;

pub const KERNELRPC_MACH_PORT_CONSTRUCT: u64 = 0xffff_ffff_ffff_ffe7;

pub const MACH_REPLY_PORT: u64 = 0xffff_ffff_ffff_ffe6;

pub const THREAD_SELF_TRAP: u64 = 0xffff_ffff_ffff_ffe5;

pub const TASK_SELF_TRAP: u64 = 0xffff_ffff_ffff_ffe4;

pub const SEMAPHORE_SIGNAL_TRAP: u64 = 0xffff_ffff_ffff_ffe3;

pub const SEMAPHORE_WAIT_TRAP: u64 = 0xffff_ffff_ffff_ffe2;

pub const MACH_MSG_TRAP: u64 = 0xffff_ffff_ffff_ffe1;

pub const MACH_MSG2_TRAP: u64 = 0xffff_ffff_ffff_ffe0;

/// The port name after `c`.
pub open spec fn next_port(c: u32) -> u32 {
    if c == u32::MAX {
        0
    } else {
        (c + 1) as u32
    }
}

/// Takes a port name.
pub open spec fn port_taken(m: MachineView) -> MachineView {
    MachineView { port_counter: next_port(m.port_counter), ..m }
}

/// Takes a port name.
fn take_port(m: &mut Machine) -> (r: u32)
    ensures
        r == old(m)@.port_counter,
        final(m)@ == port_taken(old(m)@),
{
    let name: u32 = m.port_counter;
    m.port_counter = if name == u32::MAX {
        0
    } else {
        name + 1
    };
    name
}

/// One tick per nanosecond.
pub open spec fn timebase() -> Seq<u8> {
    bytes::le32_bytes(1) + bytes::le32_bytes(1)
}

/// Traps that do nothing and succeed.
pub open spec fn is_stub(nr: u64) -> bool {
    nr == MACH_MSG_TRAP || nr == MACH_MSG2_TRAP || nr == KERNELRPC_MACH_PORT_DEALLOCATE || nr
        == KERNELRPC_MACH_PORT_MOD_REFS || nr == KERNELRPC_MACH_PORT_INSERT_RIGHT || nr
        == KERNELRPC_MACH_PORT_CONSTRUCT || nr == KERNELRPC_MACH_PORT_DESTRUCT || nr
        == SEMAPHORE_SIGNAL_TRAP || nr == SEMAPHORE_WAIT_TRAP || nr
        == KERNELRPC_MACH_VM_PROTECT_TRAP || nr == KERNELRPC_MACH_VM_DEALLOCATE_TRAP || nr
        == SWTCH_PRI_TRAP || nr == SWTCH_TRAP
}

/// What a Mach trap does; `ticks` is the time counter.
pub open spec fn mach_outcome(m: MachineView, f: Frame, nr: u64, ticks: u64) -> Outcome {
    if nr == MACH_ABSOLUTE_TIME {
        machine::done(m, machine::ret(f, ticks))
    } else if nr == MACH_TIMEBASE_INFO {
        info::gave(m, f, f.x[0], timebase())
    } else if nr == TASK_SELF_TRAP {
        machine::done(m, machine::ret(f, 1))
    } else if nr == THREAD_SELF_TRAP {
        machine::done(m, machine::ret(f, 2))
    } else if nr == HOST_SELF_TRAP {
        machine::done(m, machine::ret(f, 3))
    } else if nr == MACH_REPLY_PORT {
        machine::done(port_taken(m), machine::ret(f, m.port_counter as u64))
    } else if nr == KERNELRPC_MACH_PORT_ALLOCATE {
        info::gave(port_taken(m), f, f.x[2], bytes::le32_bytes(m.port_counter))
    } else if nr == KERNELRPC_MACH_VM_ALLOCATE_TRAP {
        memory::vm_outcome(m, f, "xnu-rs: vm_allocate size=0x"@)
    } else if nr == KERNELRPC_MACH_VM_MAP_TRAP {
        memory::vm_outcome(m, f, "xnu-rs: vm_map size=0x"@)
    } else if is_stub(nr) {
        machine::done(m, machine::ret(f, 0))
    } else {
        machine::done(
            m.say("xnu-rs: mach x16="@).hex(nr).say("\n"@),
            machine::ret(f, u64::MAX),
        )
    }
}

/// Carries out a Mach trap.
pub fn dispatch_mach(m: &mut Machine, frame: &mut TrapFrame, nr: u64, ticks: u64) -> (r: Flow)
    ensures
        machine::outcome(*final(m), *final(frame), r) == mach_outcome(
            old(m)@,
            old(frame)@,
            nr,
            ticks,
        ),
{
    match nr {
        MACH_ABSOLUTE_TIME => {
            machine::set_result(frame, ticks);
            Flow::Resume
        },
        MACH_TIMEBASE_INFO => {
            let mut b: Vec<u8> = Vec::new();
            bytes::push_le32(&mut b, 1);
            bytes::push_le32(&mut b, 1);
            assert(b@ =~= timebase());
            info::give(m, frame, frame.x[0], &b)
        },
        TASK_SELF_TRAP => {
            machine::set_result(frame, 1);
            Flow::Resume
        },
        THREAD_SELF_TRAP => {
            machine::set_result(frame, 2);
            Flow::Resume
        },
        HOST_SELF_TRAP => {
            machine::set_result(frame, 3);
            Flow::Resume
        },
        MACH_REPLY_PORT => {
            let name: u32 = take_port(m);
            machine::set_result(frame, name as u64);
            Flow::Resume
        },
        KERNELRPC_MACH_PORT_ALLOCATE => {
            let name: u32 = take_port(m);
            let mut b: Vec<u8> = Vec::new();
            bytes::push_le32(&mut b, name);
            assert(b@ =~= bytes::le32_bytes(name));
            info::give(m, frame, frame.x[2], &b)
        },
        KERNELRPC_MACH_VM_ALLOCATE_TRAP => memory::vm_allocate(
            m,
            frame,
            "xnu-rs: vm_allocate size=0x",
        ),
        KERNELRPC_MACH_VM_MAP_TRAP => memory::vm_allocate(m, frame, "xnu-rs: vm_map size=0x"),
        MACH_MSG_TRAP
        | MACH_MSG2_TRAP
        | KERNELRPC_MACH_PORT_DEALLOCATE
        | KERNELRPC_MACH_PORT_MOD_REFS
        | KERNELRPC_MACH_PORT_INSERT_RIGHT
        | KERNELRPC_MACH_PORT_CONSTRUCT
        | KERNELRPC_MACH_PORT_DESTRUCT
        | SEMAPHORE_SIGNAL_TRAP
        | SEMAPHORE_WAIT_TRAP
        | KERNELRPC_MACH_VM_PROTECT_TRAP
        | KERNELRPC_MACH_VM_DEALLOCATE_TRAP
        | SWTCH_PRI_TRAP
        | SWTCH_TRAP => {
            machine::set_result(frame, 0);
            Flow::Resume
        },
        _ => {
            m.say("xnu-rs: mach x16=");
            m.hex(nr);
            m.say("\n");
            machine::set_result(frame, u64::MAX);
            Flow::Resume
        },
    }
}

/// What the platform call does: cache maintenance and the thread pointer.
pub open spec fn platform_outcome(m: MachineView, f: Frame) -> Outcome {
    let code = f.x[3] as u32;
    if code == 0 || code == 1 {
        machine::done(m, machine::ret(f, 0))
    } else if code == 2 {
        machine::done(MachineView { thread_pointer: f.x[0], ..m }, machine::ret(f, 0))
    } else if code == 3 {
        machine::done(m, machine::ret(f, m.thread_pointer))
    } else {
        machine::done(
            m.say("xnu-rs: unknown platform syscall code="@).hex(code as u64).say("\n"@),
            machine::ret(f, u64::MAX),
        )
    }
}

/// Carries out the platform call.
pub fn dispatch_platform(m: &mut Machine, frame: &mut TrapFrame) -> (r: Flow)
    ensures
        machine::outcome(*final(m), *final(frame), r) == platform_outcome(old(m)@, old(frame)@),
{
    let code: u32 = frame.x[3] as u32;
    match code {
        0 | 1 => {
            machine::set_result(frame, 0);
        },
        2 => {
            m.thread_pointer = frame.x[0];
            machine::set_result(frame, 0);
        },
        3 => {
            machine::set_result(frame, m.thread_pointer);
        },
        _ => {
            m.say("xnu-rs: unknown platform syscall code=");
            m.hex(code as u64);
            m.say("\n");
            machine::set_result(frame, u64::MAX);
        },
    }
    Flow::Resume
}

} // verus!
