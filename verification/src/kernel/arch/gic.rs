//! The interrupt controller: which registers are written, and what an interrupt
//! leads to.

use crate::kernel::arch::uart;
use crate::kernel::arch::uart::Console;
use vstd::prelude::*;

verus! {

/// Address of the distributor.
pub const GICD_BASE: u64 = 0x0800_0000;

/// Address of the interface of a processor.
pub const GICC_BASE: u64 = 0x0801_0000;

pub const GICD_CTLR: u64 = 0x000;

pub const GICD_TYPER: u64 = 0x004;

pub const GICD_IGROUPR: u64 = 0x080;

pub const GICD_ISENABLER: u64 = 0x100;

pub const GICD_ICENABLER: u64 = 0x180;

pub const GICD_IPRIORITYR: u64 = 0x400;

pub const GICD_ITARGETSR: u64 = 0x800;

pub const GICD_SGIR: u64 = 0xf00;

pub const GICC_CTLR: u64 = 0x000;

pub const GICC_PMR: u64 = 0x004;

pub const GICC_BPR: u64 = 0x008;

pub const GICC_IAR: u64 = 0x00c;

pub const GICC_EOIR: u64 = 0x010;

/// The number of no interrupt.
pub const SPURIOUS: u32 = 1023;

/// A value for the register at an offset.
#[derive(Clone, Copy, Debug, PartialEq, Eq, Structural)]
pub struct RegWrite {
    pub offset: u64,
    pub val: u32,
}

/// The same value for `n` registers from `base` on.
pub open spec fn block(base: u64, n: int, val: u32) -> Seq<RegWrite> {
    Seq::new(n as nat, |i: int| RegWrite { offset: (base + 4 * i) as u64, val })
}

/// How many interrupts there are, by the type register.
pub open spec fn irq_count(typer: u32) -> int {
    (typer as int % 32 + 1) * 32
}

/// What is written to the distributor, once it is disabled and its type is read:
/// all interrupts in group 1, disabled, of medium priority and for processor 0;
/// then it is enabled.
pub open spec fn distributor_writes(typer: u32) -> Seq<RegWrite> {
    let n = irq_count(typer);
    block(GICD_IGROUPR, n / 32, 0xffff_ffff) + block(GICD_ICENABLER, n / 32, 0xffff_ffff) + block(
        GICD_IPRIORITYR,
        n / 4,
        0xa0a0_a0a0,
    ) + block(GICD_ITARGETSR, n / 4, 0x0101_0101) + seq![RegWrite { offset: GICD_CTLR, val: 1 }]
}

/// Adds the same value for `n` registers from `base` on.
fn push_block(out: &mut Vec<RegWrite>, base: u64, n: u32, val: u32)
    requires
        n <= 256,
        base <= 0x1000,
    ensures
        final(out)@ == old(out)@ + block(base, n as int, val),
{
    let mut i: u32 = 0;
    assert(out@ =~= old(out)@ + block(base, 0, val));
    while i < n
        invariant
            i <= n <= 256,
            base <= 0x1000,
            out@ == old(out)@ + block(base, i as int, val),
        decreases n - i,
    {
        out.push(RegWrite { offset: base + i as u64 * 4, val });
        assert(out@ =~= old(out)@ + block(base, i + 1, val));
        i += 1;
    }
}

/// What is written to the distributor, once it is disabled and its type is read.
pub fn init_distributor(typer: u32) -> (r: Vec<RegWrite>)
    ensures
        r@ == distributor_writes(typer),
{
    let num_irqs: u32 = (typer % 32 + 1) * 32;
    let num_words: u32 = num_irqs / 32;
    let mut out: Vec<RegWrite> = Vec::new();
    push_block(&mut out, GICD_IGROUPR, num_words, 0xffff_ffff);
    push_block(&mut out, GICD_ICENABLER, num_words, 0xffff_ffff);
    push_block(&mut out, GICD_IPRIORITYR, num_irqs / 4, 0xa0a0_a0a0);
    push_block(&mut out, GICD_ITARGETSR, num_irqs / 4, 0x0101_0101);
    out.push(RegWrite { offset: GICD_CTLR, val: 1 });
    assert(out@ =~= distributor_writes(typer));
    out
}

/// What is written to the interface of a processor: let all priorities through,
/// use all their bits, and enable it.
pub fn init_cpu_interface() -> (r: Vec<RegWrite>)
    ensures
        r@ == seq![
            RegWrite { offset: GICC_PMR, val: 0xff },
            RegWrite { offset: GICC_BPR, val: 0 },
            RegWrite { offset: GICC_CTLR, val: 1 },
        ],
{
    let mut out: Vec<RegWrite> = Vec::new();
    out.push(RegWrite { offset: GICC_PMR, val: 0xff });
    out.push(RegWrite { offset: GICC_BPR, val: 0 });
    out.push(RegWrite { offset: GICC_CTLR, val: 1 });
    assert(out@ =~= seq![
        RegWrite { offset: GICC_PMR, val: 0xff },
        RegWrite { offset: GICC_BPR, val: 0 },
        RegWrite { offset: GICC_CTLR, val: 1 },
    ]);
    out
}

/// The write that enables an interrupt: one bit in the register of its 32.
pub fn enable_irq(irq: u32) -> (r: RegWrite)
    ensures
        r == (RegWrite {
            offset: (GICD_ISENABLER + irq / 32 * 4) as u64,
            val: 1u32 << (irq % 32),
        }),
{
    RegWrite { offset: GICD_ISENABLER + (irq / 32) as u64 * 4, val: 1u32 << (irq % 32) }
}

/// The write that disables an interrupt.
pub fn disable_irq(irq: u32) -> (r: RegWrite)
    ensures
        r == (RegWrite {
            offset: (GICD_ICENABLER + irq / 32 * 4) as u64,
            val: 1u32 << (irq % 32),
        }),
{
    RegWrite { offset: GICD_ICENABLER + (irq / 32) as u64 * 4, val: 1u32 << (irq % 32) }
}

/// The number of the interrupt in what the acknowledge register holds.
pub fn ack(iar: u32) -> (r: u32)
    ensures
        r == iar as int % 1024,
{
    iar % 1024
}

/// The write that ends an interrupt.
pub fn eoi(irq: u32) -> (r: RegWrite)
    ensures
        r == (RegWrite { offset: GICC_EOIR, val: irq }),
{
    RegWrite { offset: GICC_EOIR, val: irq }
}

/// The write that sends interrupt 0 to the processors of a mask.
pub fn send_ipi(target_cpu_mask: u8) -> (r: RegWrite)
    ensures
        r == (RegWrite { offset: GICD_SGIR, val: (target_cpu_mask * 0x1_0000) as u32 }),
{
    RegWrite { offset: GICD_SGIR, val: target_cpu_mask as u32 * 0x1_0000 }
}

/// What the console says of an interrupt.
pub open spec fn irq_log(log: Seq<u8>, irq: int) -> Seq<u8> {
    if irq == SPURIOUS || irq == 0 {
        log
    } else {
        uart::put_str(
            uart::put_hex(uart::put_str(log, "xnu-rs: unhandled IRQ "@), irq as u64),
            "\n"@,
        )
    }
}

/// Handles the interrupt that the acknowledge register gave: the write that ends
/// it, none for a spurious one. Interrupt 0 is a call from another processor;
/// all others are told to the console.
pub fn handle_irq(console: &mut Console, iar: u32) -> (r: Option<RegWrite>)
    ensures
        final(console)@ == irq_log(old(console)@, iar as int % 1024),
        r == if iar as int % 1024 == SPURIOUS {
            None
        } else {
            Some(RegWrite { offset: GICC_EOIR, val: (iar as int % 1024) as u32 })
        },
{
    let irq: u32 = ack(iar);
    if irq == SPURIOUS {
        return None;
    }
    if irq != 0 {
        uart::write_str(console, "xnu-rs: unhandled IRQ ");
        uart::write_hex_u64(console, irq as u64);
        uart::write_str(console, "\n");
    }
    Some(eoi(irq))
}

/// Whether a value is written to a register.
pub open spec fn writes(ws: Seq<RegWrite>, offset: int, val: u32) -> bool {
    exists|i: int| 0 <= i < ws.len() && (#[trigger] ws[i]).offset == offset && ws[i].val == val
}

/// The set-up of the distributor reaches every interrupt that there is: its bit
/// is written in the registers of groups and of disabling, its byte in those of
/// priorities and of targets. The last write enables the distributor, and there
/// are no others.
pub proof fn law_every_interrupt_is_set_up(typer: u32, irq: int)
    requires
        0 <= irq < (typer as int % 32 + 1) * 32,
    ensures
        ({
            let ws = distributor_writes(typer);
            let n = typer as int % 32 + 1;
            &&& writes(ws, 0x80 + irq / 32 * 4, 0xffff_ffff)
            &&& writes(ws, 0x180 + irq / 32 * 4, 0xffff_ffff)
            &&& writes(ws, 0x400 + irq / 4 * 4, 0xa0a0_a0a0)
            &&& writes(ws, 0x800 + irq / 4 * 4, 0x0101_0101)
            &&& ws.len() == 2 * n + 2 * (8 * n) + 1
            &&& ws.last() == (RegWrite { offset: 0, val: 1 })
        }),
{
    let ws = distributor_writes(typer);
    let n = typer as int % 32 + 1;
    let a = irq / 32;
    let b = irq / 4;
    assert(ws[a].offset == 0x80 + a * 4 && ws[a].val == 0xffff_ffff);
    assert(ws[n + a].offset == 0x180 + a * 4 && ws[n + a].val == 0xffff_ffff);
    assert(ws[2 * n + b].offset == 0x400 + b * 4 && ws[2 * n + b].val == 0xa0a0_a0a0);
    assert(ws[2 * n + 8 * n + b].offset == 0x800 + b * 4 && ws[2 * n + 8 * n + b].val
        == 0x0101_0101);
}

} // verus!
