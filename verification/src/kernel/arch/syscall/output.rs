//! System calls that print: write, writev, exit, abort_with_payload.

use crate::kernel::arch::context::{Frame, TrapFrame};
use crate::kernel::arch::machine;
use crate::kernel::arch::machine::{Flow, FlowView, Machine, MachineView, Outcome};
use crate::kernel::arch::syscall::files::{DEV_CONSOLE_FD, EBADF};
use crate::kernel::arch::uart;
use crate::mem::Stop;
use vstd::prelude::*;

verus! {

/// The most bytes that one write prints.
pub const MAX_WRITE: u64 = 65536;

/// The most buffers that one `writev` prints.
pub const MAX_BUFFERS: u64 = 64;

/// The most bytes of an abort reason that are printed.
pub const MAX_REASON: u64 = 1024;

/// With bytes behind the log.
pub open spec fn printed(m: MachineView, s: Seq<u8>) -> MachineView {
    MachineView { log: m.log + s, ..m }
}

/// `write` and `pwrite`: to the console.
pub open spec fn write_outcome(m: MachineView, f: Frame) -> Outcome {
    let fd = f.x[0];
    let buf = f.x[1];
    let len = f.x[2];
    if (fd == 1 || fd == 2 || fd == DEV_CONSOLE_FD) && buf != 0 && len <= MAX_WRITE {
        match m.span(buf, len) {
            Err(e) => machine::stopped(m, f, e),
            Ok(s) => machine::done(printed(m, s), machine::ret(f, len)),
        }
    } else {
        machine::done(m, machine::fail(f, EBADF))
    }
}

/// `write` and `pwrite`.
pub fn sys_write(m: &mut Machine, frame: &mut TrapFrame) -> (r: Flow)
    ensures
        machine::outcome(*final(m), *final(frame), r) == write_outcome(old(m)@, old(frame)@),
{
    let fd: u64 = frame.x[0];
    let buf: u64 = frame.x[1];
    let len: u64 = frame.x[2];
    if (fd == 1 || fd == 2 || fd == DEV_CONSOLE_FD) && buf != 0 && len <= MAX_WRITE {
        match m.print_span(buf, len) {
            Err(e) => {
                return Flow::Stopped(e);
            },
            Ok(()) => {},
        }
        machine::set_result(frame, len);
    } else {
        machine::syscall_error(frame, EBADF);
    }
    Flow::Resume
}

/// The 64-bit number at `addr`, an address that may be too large.
pub open spec fn word_at(m: MachineView, addr: int) -> Result<u64, Stop> {
    if addr > u64::MAX {
        Err(Stop::Overflow)
    } else {
        match m.mem.get64(addr) {
            None => Err(Stop::Fault(addr as u64)),
            Some(v) => Ok(v as u64),
        }
    }
}

/// Prints the buffers from `i` to `cnt` of the list at `iov`; gives how many
/// bytes were printed in all, `total` of them before. Null buffers and buffers
/// that are too long are passed over.
pub open spec fn buffers_printed(m: MachineView, iov: u64, cnt: u64, i: int, total: int) -> (
    MachineView,
    Result<int, Stop>,
)
    decreases cnt - i,
{
    if i >= cnt {
        (m, Ok(total))
    } else {
        match word_at(m, iov + 16 * i) {
            Err(e) => (m, Err(e)),
            Ok(base) => match word_at(m, iov + 16 * i + 8) {
                Err(e) => (m, Err(e)),
                Ok(len) => if base != 0 && len <= MAX_WRITE {
                    match m.span(base, len) {
                        Err(e) => (m, Err(e)),
                        Ok(s) => buffers_printed(printed(m, s), iov, cnt, i + 1, total + len),
                    }
                } else {
                    buffers_printed(m, iov, cnt, i + 1, total)
                },
            },
        }
    }
}

/// `writev`: to the console; other descriptors take nothing.
pub open spec fn writev_outcome(m: MachineView, f: Frame) -> Outcome {
    let fd = f.x[0];
    if (fd == 1 || fd == 2) && f.x[1] != 0 && f.x[2] <= MAX_BUFFERS {
        let (n, r) = buffers_printed(m, f.x[1], f.x[2], 0, 0);
        match r {
            Err(e) => machine::stopped(n, f, e),
            Ok(total) => machine::done(n, machine::ret(f, total as u64)),
        }
    } else {
        machine::done(m, machine::ret(f, 0))
    }
}

/// Reads the 64-bit number `off` bytes after `base`.
fn load_word(m: &Machine, base: u64, off: u64) -> (r: Result<u64, Stop>)
    ensures
        r == word_at(m@, base + off),
{
    match base.checked_add(off) {
        None => Err(Stop::Overflow),
        Some(a) => m.mem.load64(a),
    }
}

/// Prints the `cnt` buffers listed at `iov`.
fn print_buffers(m: &mut Machine, iov: u64, cnt: u64) -> (r: Result<u64, Stop>)
    requires
        cnt <= MAX_BUFFERS,
    ensures
        final(m)@ == buffers_printed(old(m)@, iov, cnt, 0, 0).0,
        match r {
            Ok(total) => buffers_printed(old(m)@, iov, cnt, 0, 0).1 == Ok::<int, Stop>(
                total as int,
            ),
            Err(e) => buffers_printed(old(m)@, iov, cnt, 0, 0).1 == Err::<int, Stop>(e),
        },
{
    let mut total: u64 = 0;
    let mut i: u64 = 0;
    while i < cnt
        invariant
            i <= cnt <= MAX_BUFFERS,
            total <= i * MAX_WRITE,
            buffers_printed(m@, iov, cnt, i as int, total as int) == buffers_printed(
                old(m)@,
                iov,
                cnt,
                0,
                0,
            ),
        decreases cnt - i,
    {
        let base: u64 = match load_word(m, iov, 16 * i) {
            Ok(v) => v,
            Err(e) => {
                return Err(e);
            },
        };
        let len: u64 = match load_word(m, iov, 16 * i + 8) {
            Ok(v) => v,
            Err(e) => {
                return Err(e);
            },
        };
        if base != 0 && len <= MAX_WRITE {
            match m.print_span(base, len) {
                Err(e) => {
                    return Err(e);
                },
                Ok(()) => {},
            }
            total = total + len;
        }
        i = i + 1;
    }
    Ok(total)
}

/// `writev`.
pub fn sys_writev(m: &mut Machine, frame: &mut TrapFrame) -> (r: Flow)
    ensures
        machine::outcome(*final(m), *final(frame), r) == writev_outcome(old(m)@, old(frame)@),
{
    let fd: u64 = frame.x[0];
    let iov: u64 = frame.x[1];
    let cnt: u64 = frame.x[2];
    if (fd == 1 || fd == 2) && iov != 0 && cnt <= MAX_BUFFERS {
        match print_buffers(m, iov, cnt) {
            Err(e) => {
                return Flow::Stopped(e);
            },
            Ok(total) => {
                machine::set_result(frame, total);
            },
        }
    } else {
        machine::set_result(frame, 0);
    }
    Flow::Resume
}

/// `exit`: a note, and no return.
pub open spec fn exit_outcome(m: MachineView, f: Frame) -> Outcome {
    Outcome {
        m: m.say("xnu-rs: user exit(0x"@).hex(f.x[0]).say(")\n"@),
        f,
        flow: FlowView::Halt,
    }
}

/// `exit`.
pub fn sys_exit(m: &mut Machine, frame: &mut TrapFrame) -> (r: Flow)
    ensures
        machine::outcome(*final(m), *final(frame), r) == exit_outcome(old(m)@, old(frame)@),
{
    m.say("xnu-rs: user exit(0x");
    m.hex(frame.x[0]);
    m.say(")\n");
    Flow::Halt
}

/// Prints the reason at `ptr` from byte `i` on, up to a zero byte or
/// `MAX_REASON` bytes.
pub open spec fn reason_printed(m: MachineView, ptr: u64, i: int) -> (MachineView, Option<Stop>)
    decreases MAX_REASON - i,
{
    if i >= MAX_REASON {
        (m, None)
    } else if ptr + i > u64::MAX {
        (m, Some(Stop::Overflow))
    } else {
        match m.mem.get8(ptr + i) {
            None => (m, Some(Stop::Fault((ptr + i) as u64))),
            Some(b) => if b == 0 {
                (m, None)
            } else {
                reason_printed(MachineView { log: m.log.push(b as u8), ..m }, ptr, i + 1)
            },
        }
    }
}

/// Prints the reason at `ptr`.
fn print_reason(m: &mut Machine, ptr: u64) -> (r: Result<(), Stop>)
    ensures
        final(m)@ == reason_printed(old(m)@, ptr, 0).0,
        match r {
            Ok(()) => reason_printed(old(m)@, ptr, 0).1 is None,
            Err(e) => reason_printed(old(m)@, ptr, 0).1 == Some(e),
        },
{
    let mut i: u64 = 0;
    while i < MAX_REASON
        invariant
            i <= MAX_REASON,
            reason_printed(m@, ptr, i as int) == reason_printed(old(m)@, ptr, 0),
        decreases MAX_REASON - i,
    {
        let addr: u64 = match ptr.checked_add(i) {
            None => {
                return Err(Stop::Overflow);
            },
            Some(a) => a,
        };
        let b: u8 = match m.mem.load8(addr) {
            Err(e) => {
                return Err(e);
            },
            Ok(b) => b,
        };
        if b == 0 {
            return Ok(());
        }
        uart::write_byte(&mut m.console, b);
        i = i + 1;
    }
    Ok(())
}

/// `abort_with_payload`: a note with the reason, and no return.
pub open spec fn abort_outcome(m: MachineView, f: Frame) -> Outcome {
    let n = m.say("\n*** xnu-rs user abort_with_payload: ns="@).hex(f.x[0]).say(" code="@).hex(
        f.x[1],
    ).say(" payload_sz="@).hex(f.x[3]);
    if f.x[4] == 0 {
        Outcome { m: n.say(" ***\n"@), f, flow: FlowView::Halt }
    } else {
        let (p, stop) = reason_printed(n.say(" reason=\""@), f.x[4], 0);
        match stop {
            Some(e) => machine::stopped(p, f, e),
            None => Outcome { m: p.say("\""@).say(" ***\n"@), f, flow: FlowView::Halt },
        }
    }
}

/// `abort_with_payload`.
pub fn sys_abort(m: &mut Machine, frame: &mut TrapFrame) -> (r: Flow)
    ensures
        machine::outcome(*final(m), *final(frame), r) == abort_outcome(old(m)@, old(frame)@),
{
    m.say("\n*** xnu-rs user abort_with_payload: ns=");
    m.hex(frame.x[0]);
    m.say(" code=");
    m.hex(frame.x[1]);
    m.say(" payload_sz=");
    m.hex(frame.x[3]);
    if frame.x[4] != 0 {
        m.say(" reason=\"");
        match print_reason(m, frame.x[4]) {
            Err(e) => {
                return Flow::Stopped(e);
            },
            Ok(()) => {},
        }
        m.say("\"");
    }
    m.say(" ***\n");
    Flow::Halt
}

proof fn lemma_buffers_keep(m: MachineView, iov: u64, cnt: u64, i: int, total: int)
    ensures
        buffers_printed(m, iov, cnt, i, total).0.mmap_base == m.mmap_base,
    decreases cnt - i,
{
    if i < cnt {
        if let (Ok(base), Ok(len)) = (word_at(m, iov + 16 * i), word_at(m, iov + 16 * i + 8)) {
            if base != 0 && len <= MAX_WRITE {
                if let Ok(s) = m.span(base, len) {
                    lemma_buffers_keep(printed(m, s), iov, cnt, i + 1, total + len);
                }
            } else {
                lemma_buffers_keep(m, iov, cnt, i + 1, total);
            }
        }
    }
}

proof fn lemma_reason_keeps(m: MachineView, ptr: u64, i: int)
    ensures
        reason_printed(m, ptr, i).0.mmap_base == m.mmap_base,
    decreases MAX_REASON - i,
{
    if i < MAX_REASON && ptr + i <= u64::MAX {
        if let Some(b) = m.mem.get8(ptr + i) {
            if b != 0 {
                lemma_reason_keeps(MachineView { log: m.log.push(b as u8), ..m }, ptr, i + 1);
            }
        }
    }
}

/// Printing leaves the mappings alone.
pub proof fn lemma_output_keeps_mappings(m: MachineView, f: Frame)
    ensures
        exit_outcome(m, f).m.mmap_base == m.mmap_base,
        write_outcome(m, f).m.mmap_base == m.mmap_base,
        writev_outcome(m, f).m.mmap_base == m.mmap_base,
        abort_outcome(m, f).m.mmap_base == m.mmap_base,
{
    lemma_buffers_keep(m, f.x[1], f.x[2], 0, 0);
    let n = m.say("\n*** xnu-rs user abort_with_payload: ns="@).hex(f.x[0]).say(" code="@).hex(
        f.x[1],
    ).say(" payload_sz="@).hex(f.x[3]);
    lemma_reason_keeps(n.say(" reason=\""@), f.x[4], 0);
}

} // verus!
