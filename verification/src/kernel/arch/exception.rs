//! What an exception leads to.

use crate::kernel::arch::context::{Frame, TrapFrame};
use crate::kernel::arch::machine;
use crate::kernel::arch::machine::{Flow, FlowView, Machine, MachineView, Outcome};
use crate::kernel::arch::syscall::dispatch;
use crate::kernel::arch::uart;
use crate::kernel::arch::uart::Console;
use vstd::prelude::*;

verus! {

/// Class of an exception: a system call.
pub const EC_SVC64: u64 = 0x15;

/// Class of an exception: a data abort in user space.
pub const EC_DATA_ABORT_LOWER: u64 = 0x24;

/// Class of an exception: a data abort in the kernel.
pub const EC_DATA_ABORT_SAME: u64 = 0x25;

/// The class of an exception, in bits 31 to 26 of the syndrome.
pub open spec fn class_of(esr: u64) -> u64 {
    esr / 0x400_0000 % 64
}

/// What a fault status code means.
pub open spec fn fault_name(dfsc: u64) -> Seq<char> {
    if dfsc == 0x04 {
        "translation L0"@
    } else if dfsc == 0x05 {
        "translation L1"@
    } else if dfsc == 0x06 {
        "translation L2"@
    } else if dfsc == 0x07 {
        "translation L3"@
    } else if dfsc == 0x09 {
        "access flag L1"@
    } else if dfsc == 0x0a {
        "access flag L2"@
    } else if dfsc == 0x0b {
        "access flag L3"@
    } else if dfsc == 0x0d {
        "permission L1"@
    } else if dfsc == 0x0e {
        "permission L2"@
    } else if dfsc == 0x0f {
        "permission L3"@
    } else if dfsc == 0x10 {
        "external sync"@
    } else if dfsc == 0x21 {
        "alignment"@
    } else {
        "other"@
    }
}

/// What a fault status code means.
fn name_fault(dfsc: u64) -> (r: &'static str)
    ensures
        r@ == fault_name(dfsc),
{
    match dfsc {
        0x04 => "translation L0",
        0x05 => "translation L1",
        0x06 => "translation L2",
        0x07 => "translation L3",
        0x09 => "access flag L1",
        0x0a => "access flag L2",
        0x0b => "access flag L3",
        0x0d => "permission L1",
        0x0e => "permission L2",
        0x0f => "permission L3",
        0x10 => "external sync",
        0x21 => "alignment",
        _ => "other",
    }
}

/// `log` with the kind of a data abort.
pub open spec fn put_abort(log: Seq<u8>, esr: u64) -> Seq<u8> {
    let a = uart::put_str(
        uart::put_str(log, "  "@),
        if esr / 64 % 2 != 0 {
            "WRITE"@
        } else {
            "READ"@
        },
    );
    let b = uart::put_hex(uart::put_str(a, " fault, DFSC=0x"@), esr % 64);
    uart::put_str(
        uart::put_str(uart::put_str(b, " ("@), fault_name(esr % 64)),
        ")\n"@,
    )
}

/// `log` with a number below 100 in decimal digits.
pub open spec fn put_index(log: Seq<u8>, i: int) -> Seq<u8> {
    if i < 10 {
        log.push((0x30 + i) as u8)
    } else {
        log.push((0x30 + i / 10) as u8).push((0x30 + i % 10) as u8)
    }
}

/// `log` with the first `n` registers, four in a line.
pub open spec fn put_registers(log: Seq<u8>, x: Seq<u64>, n: int) -> Seq<u8>
    decreases n,
{
    if n <= 0 {
        log
    } else {
        let i = n - 1;
        let a = put_index(uart::put_str(put_registers(log, x, i), " x"@), i);
        let b = uart::put_hex(uart::put_str(a, "=0x"@), x[i]);
        if i % 4 == 3 {
            uart::put_str(b, "\n"@)
        } else {
            b
        }
    }
}

/// `log` with the report of an exception that is no system call.
pub open spec fn put_report(log: Seq<u8>, f: Frame, esr: u64, far: u64) -> Seq<u8> {
    let a = uart::put_hex(
        uart::put_str(log, "xnu-rs: unexpected lower-EL sync exception EC=0x"@),
        class_of(esr),
    );
    let b = uart::put_hex(uart::put_str(a, " ESR=0x"@), esr);
    let c = uart::put_hex(uart::put_str(b, " FAR=0x"@), far);
    let d = uart::put_str(uart::put_hex(uart::put_str(c, " ELR=0x"@), f.pc), "\n"@);
    let e = if class_of(esr) == EC_DATA_ABORT_LOWER || class_of(esr) == EC_DATA_ABORT_SAME {
        put_abort(d, esr)
    } else {
        d
    };
    let g = put_registers(e, f.x, 31);
    uart::put_str(uart::put_hex(uart::put_str(g, "\n sp=0x"@), f.sp), "\n"@)
}

/// Writes the kind of a data abort.
fn report_abort(console: &mut Console, esr: u64)
    ensures
        final(console)@ == put_abort(old(console)@, esr),
{
    uart::write_str(console, "  ");
    if esr / 64 % 2 != 0 {
        uart::write_str(console, "WRITE");
    } else {
        uart::write_str(console, "READ");
    }
    uart::write_str(console, " fault, DFSC=0x");
    uart::write_hex_u64(console, esr % 64);
    uart::write_str(console, " (");
    uart::write_str(console, name_fault(esr % 64));
    uart::write_str(console, ")\n");
}

/// Writes the registers.
fn report_registers(console: &mut Console, frame: &TrapFrame)
    ensures
        final(console)@ == put_registers(old(console)@, frame@.x, 31),
{
    let mut i: usize = 0;
    while i < 31
        invariant
            i <= 31,
            console@ == put_registers(old(console)@, frame@.x, i as int),
        decreases 31 - i,
    {
        uart::write_str(console, " x");
        if i < 10 {
            uart::write_byte(console, 0x30 + i as u8);
        } else {
            uart::write_byte(console, 0x30 + (i / 10) as u8);
            uart::write_byte(console, 0x30 + (i % 10) as u8);
        }
        uart::write_str(console, "=0x");
        uart::write_hex_u64(console, frame.x[i]);
        if i % 4 == 3 {
            uart::write_str(console, "\n");
        }
        i += 1;
    }
}

/// Writes the report of an exception that is no system call.
fn report(console: &mut Console, frame: &TrapFrame, esr: u64, far: u64)
    ensures
        final(console)@ == put_report(old(console)@, frame@, esr, far),
{
    let ec: u64 = esr / 0x400_0000 % 64;
    uart::write_str(console, "xnu-rs: unexpected lower-EL sync exception EC=0x");
    uart::write_hex_u64(console, ec);
    uart::write_str(console, " ESR=0x");
    uart::write_hex_u64(console, esr);
    uart::write_str(console, " FAR=0x");
    uart::write_hex_u64(console, far);
    uart::write_str(console, " ELR=0x");
    uart::write_hex_u64(console, frame.pc);
    uart::write_str(console, "\n");
    if ec == EC_DATA_ABORT_LOWER || ec == EC_DATA_ABORT_SAME {
        report_abort(console, esr);
    }
    report_registers(console, frame);
    uart::write_str(console, "\n sp=0x");
    uart::write_hex_u64(console, frame.sp);
    uart::write_str(console, "\n");
}

/// What a synchronous exception in user space leads to: a system call is carried
/// out, and all else is reported and stops the machine.
pub open spec fn sync_outcome(m: MachineView, f: Frame, esr: u64, far: u64, ticks: u64) -> Outcome {
    if class_of(esr) == EC_SVC64 {
        dispatch::dispatch_outcome(m, f, ticks)
    } else {
        Outcome {
            m: MachineView { log: put_report(m.log, f, esr, far), ..m },
            f,
            flow: FlowView::Halt,
        }
    }
}

/// Handles a synchronous exception in user space. `esr` is the syndrome, `far`
/// the address of a fault, `ticks` the time counter.
pub fn exception_lower_el_sync(
    m: &mut Machine,
    frame: &mut TrapFrame,
    esr: u64,
    far: u64,
    ticks: u64,
) -> (r: Flow)
    ensures
        machine::outcome(*final(m), *final(frame), r) == sync_outcome(
            old(m)@,
            old(frame)@,
            esr,
            far,
            ticks,
        ),
{
    if esr / 0x400_0000 % 64 == EC_SVC64 {
        dispatch::dispatch(m, frame, ticks)
    } else {
        report(&mut m.console, frame, esr, far);
        Flow::Halt
    }
}

/// Reports an exception in the kernel, which stops the machine.
pub fn exception_el1_sync(console: &mut Console, frame: &TrapFrame, esr: u64)
    ensures
        final(console)@ == uart::put_str(
            uart::put_hex(
                uart::put_str(
                    uart::put_hex(
                        uart::put_str(old(console)@, "xnu-rs: kernel sync exception ESR=0x"@),
                        esr,
                    ),
                    " ELR=0x"@,
                ),
                frame@.pc,
            ),
            "\n"@,
        ),
{
    uart::write_str(console, "xnu-rs: kernel sync exception ESR=0x");
    uart::write_hex_u64(console, esr);
    uart::write_str(console, " ELR=0x");
    uart::write_hex_u64(console, frame.pc);
    uart::write_str(console, "\n");
}

/// A system call in user space is carried out; any other exception stops the
/// machine, and nothing but the log changes. The class of an exception is six
/// bits of its syndrome.
#[verifier::spinoff_prover]
pub proof fn law_only_system_calls_go_on(
    m: MachineView,
    f: Frame,
    rest: u64,
    class: u64,
    low: u64,
    far: u64,
    ticks: u64,
)
    requires
        class < 64,
        low < 0x400_0000,
        rest < 0x1_0000_0000,
    ensures
        ({
            let esr = (rest * 0x1_0000_0000 + class * 0x400_0000 + low) as u64;
            let o = sync_outcome(m, f, esr, far, ticks);
            &&& class == 0x15 ==> o == dispatch::dispatch_outcome(m, f, ticks)
            &&& class != 0x15 ==> {
                &&& o.flow == FlowView::Halt
                &&& o.f == f
                &&& o.m == MachineView { log: o.m.log, ..m }
            }
        }),
{
    let esr = (rest * 0x1_0000_0000 + class * 0x400_0000 + low) as u64;
    lemma_class(rest, class, low);
    if class != 0x15 {
        assert(sync_outcome(m, f, esr, far, ticks) == (Outcome {
            m: MachineView { log: put_report(m.log, f, esr, far), ..m },
            f,
            flow: FlowView::Halt,
        }));
    }
}

proof fn lemma_class(rest: u64, class: u64, low: u64)
    requires
        class < 64,
        low < 0x400_0000,
        rest < 0x1_0000_0000,
    ensures
        class_of((rest * 0x1_0000_0000 + class * 0x400_0000 + low) as u64) == class,
{
    let esr = (rest * 0x1_0000_0000 + class * 0x400_0000 + low) as u64;
    assert(esr == (rest * 64 + class) * 0x400_0000 + low);
    assert(esr / 0x400_0000 == rest * 64 + class);
}

/// The label of a register: an x and its number.
pub open spec fn register_label(i: int) -> Seq<u8> {
    uart::put_str(
        if i < 10 {
            uart::put_str(Seq::empty(), " x"@) + seq![(0x30 + i) as u8]
        } else {
            uart::put_str(Seq::empty(), " x"@) + seq![(0x30 + i / 10) as u8, (0x30 + i % 10) as u8]
        },
        "=0x"@,
    )
}

/// The registers from `n` on, in order: each its label and then its value, and a
/// line end behind every fourth.
pub open spec fn registers_text(x: Seq<u64>, n: int) -> Seq<u8>
    decreases x.len() - n,
{
    if n < 0 || n >= x.len() {
        Seq::empty()
    } else {
        register_label(n) + uart::put_hex(Seq::empty(), x[n]) + (if n % 4 == 3 {
            uart::put_str(Seq::empty(), "\n"@)
        } else {
            Seq::empty()
        }) + registers_text(x, n + 1)
    }
}

/// The report holds the values of all registers.
pub proof fn law_all_registers_are_reported(log: Seq<u8>, x: Seq<u64>)
    requires
        x.len() <= 31,
    ensures
        put_registers(log, x, x.len() as int) == log + registers_text(x, 0),
{
    assert(put_registers(log, x, 0) == log);
    lemma_registers_from(log, x, 0);
}

proof fn lemma_registers_from(log: Seq<u8>, x: Seq<u64>, n: int)
    requires
        0 <= n <= x.len() <= 31,
    ensures
        put_registers(log, x, x.len() as int) == put_registers(log, x, n) + registers_text(x, n),
    decreases x.len() - n,
{
    if n < x.len() {
        lemma_registers_from(log, x, n + 1);
        let before = put_registers(log, x, n);
        let one = register_label(n) + uart::put_hex(Seq::empty(), x[n]) + (if n % 4 == 3 {
            uart::put_str(Seq::empty(), "\n"@)
        } else {
            Seq::empty()
        });
        assert(put_registers(log, x, n + 1) =~= before + one);
        assert(before + one + registers_text(x, n + 1) =~= before + registers_text(x, n));
    } else {
        assert(put_registers(log, x, n) + Seq::<u8>::empty() =~= put_registers(log, x, n));
    }
}

} // verus!
