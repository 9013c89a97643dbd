//! What the kernel tells the console when it starts.

use crate::bytes;
use crate::kernel::arch::uart;
use crate::kernel::arch::uart::Console;
use crate::kernel::boot_args::{BootArgs, KBOOT_ARGS_REVISION2, KBOOT_ARGS_VERSION2};
use crate::kernel::device_tree;
use crate::mem::{Memory, PhysMem, Stop};
use vstd::prelude::*;

verus! {

/// What the console says of the arguments.
pub open spec fn args_log(log: Seq<u8>, a: BootArgs) -> Seq<u8> {
    let b = uart::put_hex(
        uart::put_str(log, "xnu-rs: boot_args revision="@),
        a.revision as u64,
    );
    let c = uart::put_str(
        uart::put_hex(uart::put_str(b, " version="@), a.version as u64),
        "\n"@,
    );
    let d = if a.revision != KBOOT_ARGS_REVISION2 || a.version != KBOOT_ARGS_VERSION2 {
        uart::put_str(c, "xnu-rs: unsupported boot_args revision/version\n"@)
    } else {
        c
    };
    let e = uart::put_hex(uart::put_str(d, "xnu-rs: phys_base="@), a.phys_base);
    let f = uart::put_hex(uart::put_str(e, " mem_size="@), a.mem_size);
    let g = uart::put_str(
        uart::put_hex(uart::put_str(f, " top_of_kernel_data="@), a.top_of_kernel_data),
        "\n"@,
    );
    let h = uart::put_hex(uart::put_str(g, "xnu-rs: device_tree_p="@), a.device_tree_p);
    uart::put_str(
        uart::put_hex(uart::put_str(h, " length="@), a.device_tree_length as u64),
        "\n"@,
    )
}

/// What the console says of a device tree.
pub open spec fn tree_log(log: Seq<u8>, tree: Seq<u8>) -> Seq<u8> {
    let a = uart::put_hex(
        uart::put_str(log, "xnu-rs: adt root properties="@),
        bytes::le32(tree, 0) as u64,
    );
    let b = uart::put_hex(uart::put_str(a, " children="@), bytes::le32(tree, 4) as u64);
    device_tree::dumped(uart::put_str(b, "\n"@), tree)
}

/// What the console says at the start, and whether the device tree could be read.
pub open spec fn start_log(log: Seq<u8>, mem: Memory, args: Option<BootArgs>) -> (
    Seq<u8>,
    Result<(), Stop>,
) {
    match args {
        None => (uart::put_str(log, "xnu-rs: boot_args=NULL\n"@), Ok(())),
        Some(a) => {
            let said = args_log(log, a);
            let p = a.device_tree_p as int;
            let n = a.device_tree_length as int;
            if p == 0 || n < 8 {
                (uart::put_str(said, "xnu-rs: no Apple device tree\n"@), Ok(()))
            } else if !mem.covers(p, n) {
                (said, Err(Stop::Fault(a.device_tree_p)))
            } else {
                (tree_log(said, mem.slice(p, n)), Ok(()))
            }
        },
    }
}

/// Tells the console about the arguments.
fn log_args(console: &mut Console, args: &BootArgs)
    ensures
        final(console)@ == args_log(old(console)@, *args),
{
    uart::write_str(console, "xnu-rs: boot_args revision=");
    uart::write_hex_u64(console, args.revision as u64);
    uart::write_str(console, " version=");
    uart::write_hex_u64(console, args.version as u64);
    uart::write_str(console, "\n");
    if args.revision != KBOOT_ARGS_REVISION2 || args.version != KBOOT_ARGS_VERSION2 {
        uart::write_str(console, "xnu-rs: unsupported boot_args revision/version\n");
    }
    uart::write_str(console, "xnu-rs: phys_base=");
    uart::write_hex_u64(console, args.phys_base);
    uart::write_str(console, " mem_size=");
    uart::write_hex_u64(console, args.mem_size);
    uart::write_str(console, " top_of_kernel_data=");
    uart::write_hex_u64(console, args.top_of_kernel_data);
    uart::write_str(console, "\n");
    uart::write_str(console, "xnu-rs: device_tree_p=");
    uart::write_hex_u64(console, args.device_tree_p);
    uart::write_str(console, " length=");
    uart::write_hex_u64(console, args.device_tree_length as u64);
    uart::write_str(console, "\n");
}

/// Tells the console about the device tree.
fn dump_apple_device_tree(console: &mut Console, tree: &[u8])
    requires
        8 <= tree@.len() < usize::MAX,
    ensures
        final(console)@ == tree_log(old(console)@, tree@),
{
    uart::write_str(console, "xnu-rs: adt root properties=");
    uart::write_hex_u64(console, bytes::read_le32(tree, 0) as u64);
    uart::write_str(console, " children=");
    uart::write_hex_u64(console, bytes::read_le32(tree, 4) as u64);
    uart::write_str(console, "\n");
    device_tree::dump(console, tree);
}

/// Tells the console what the boot loader said, and about the device tree in
/// memory.
pub fn validate_boot_args(console: &mut Console, mem: &PhysMem, args: Option<BootArgs>) -> (r:
    Result<(), Stop>)
    requires
        mem@.bytes.len() < usize::MAX,
    ensures
        (final(console)@, r) == start_log(old(console)@, mem@, args),
{
    let args: BootArgs = match args {
        None => {
            uart::write_str(console, "xnu-rs: boot_args=NULL\n");
            return Ok(());
        },
        Some(a) => a,
    };
    log_args(console, &args);
    let p: u64 = args.device_tree_p;
    let n: u32 = args.device_tree_length;
    if p == 0 || n < 8 {
        uart::write_str(console, "xnu-rs: no Apple device tree\n");
        return Ok(());
    }
    if !mem.covers(p, n as u64) {
        return Err(Stop::Fault(p));
    }
    let at: usize = (p - mem.base) as usize;
    let end: usize = at + n as usize;
    let tree: &[u8] = &mem.bytes[at..end];
    assert(tree@ =~= mem@.slice(p as int, n as int));
    dump_apple_device_tree(console, tree);
    Ok(())
}

} // verus!
