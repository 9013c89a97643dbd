//! Starting the other processors.

use crate::kernel::arch::uart;
use crate::kernel::arch::uart::Console;
use vstd::prelude::*;

verus! {

/// Firmware function that starts a processor.
pub const PSCI_CPU_ON: u64 = 0x8400_0003;

/// How many processors there are at most.
pub const MAX_CPUS: u32 = 4;

/// Bytes of the stack of a processor.
pub const CPU_STACK_SIZE: u64 = 0x1_0000;

/// The number of the processor, by its affinity register.
pub fn this_cpu(mpidr: u64) -> (r: u32)
    ensures
        r == mpidr as int % 256,
{
    (mpidr % 256) as u32
}

/// A call of the firmware.
#[derive(Clone, Copy, Debug, PartialEq, Eq, Structural)]
pub struct PsciCall {
    pub func: u64,
    pub arg1: u64,
    pub arg2: u64,
    pub arg3: u64,
}

/// The call that starts processor `cpu` at `entry`, with the stack of 64 KiB that
/// starts at `stack`.
pub fn cpu_on(cpu: u32, entry: u64, stack: u64) -> (r: PsciCall)
    requires
        stack + CPU_STACK_SIZE <= u64::MAX,
    ensures
        r == (PsciCall {
            func: PSCI_CPU_ON,
            arg1: cpu as u64,
            arg2: entry,
            arg3: (stack + CPU_STACK_SIZE) as u64,
        }),
{
    PsciCall { func: PSCI_CPU_ON, arg1: cpu as u64, arg2: entry, arg3: stack + CPU_STACK_SIZE }
}

/// The processors to start when `count` are wanted: all but the first, and at
/// most three.
pub fn boot_secondaries(count: u32) -> (r: Vec<u32>)
    ensures
        r@ == Seq::new(
            (if count > MAX_CPUS {
                3
            } else if count > 0 {
                count - 1
            } else {
                0
            }) as nat,
            |i: int| (i + 1) as u32,
        ),
{
    let mut out: Vec<u32> = Vec::new();
    let mut cpu: u32 = 1;
    while cpu < count && cpu < MAX_CPUS
        invariant
            1 <= cpu <= MAX_CPUS,
            cpu <= count || cpu == 1,
            out@.len() == cpu - 1,
            forall|i: int| 0 <= i < out@.len() ==> #[trigger] out@[i] == i + 1,
        decreases MAX_CPUS - cpu,
    {
        out.push(cpu);
        cpu += 1;
    }
    out
}

/// What the console says of a processor that was started.
pub open spec fn started_log(log: Seq<u8>, cpu: u32, ret: u64) -> Seq<u8> {
    let a = uart::put_hex(uart::put_str(log, "xnu-rs: cpu"@), cpu as u64);
    if ret == 0 {
        uart::put_str(a, " online\n"@)
    } else {
        uart::put_str(uart::put_hex(uart::put_str(a, " psci_call failed ret="@), ret), "\n"@)
    }
}

/// Tells the console what the firmware returned.
pub fn report_start(console: &mut Console, cpu: u32, ret: u64)
    ensures
        final(console)@ == started_log(old(console)@, cpu, ret),
{
    uart::write_str(console, "xnu-rs: cpu");
    uart::write_hex_u64(console, cpu as u64);
    if ret == 0 {
        uart::write_str(console, " online\n");
    } else {
        uart::write_str(console, " psci_call failed ret=");
        uart::write_hex_u64(console, ret);
        uart::write_str(console, "\n");
    }
}

/// Tells the console that a processor has got going.
pub fn secondary_main(console: &mut Console, mpidr: u64)
    ensures
        final(console)@ == uart::put_str(
            uart::put_hex(
                uart::put_str(old(console)@, "xnu-rs: cpu"@),
                (mpidr as int % 256) as u64,
            ),
            " secondary_main\n"@,
        ),
{
    uart::write_str(console, "xnu-rs: cpu");
    uart::write_hex_u64(console, this_cpu(mpidr) as u64);
    uart::write_str(console, " secondary_main\n");
}

} // verus!
