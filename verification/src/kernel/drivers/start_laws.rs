//! How the block device is found and started.

use crate::kernel::arch::uart;
use crate::kernel::drivers::blk;
use crate::kernel::drivers::blk::Probe;
use crate::kernel::drivers::transport;
use crate::kernel::drivers::transport::RegOp;
use vstd::prelude::*;
use vstd::utf8::*;

verus! {

/// Where a search is that has passed over `n` slots.
pub open spec fn after_slots(n: nat) -> Probe
    decreases n,
{
    if n == 0 {
        Probe::Magic(0)
    } else {
        match after_slots((n - 1) as nat) {
            Probe::Magic(s) => blk::next_slot(s),
            other => other,
        }
    }
}

/// The search passes over each of the 32 slots once, in order, and ends behind
/// the last.
pub proof fn law_every_slot_is_searched(n: nat)
    ensures
        n < 32 ==> after_slots(n) == Probe::Magic(n as u32),
        n >= 32 ==> after_slots(n) == Probe::NotFound,
    decreases n,
{
    if n > 0 {
        law_every_slot_is_searched((n - 1) as nat);
    }
}

/// A block device is one that says it is a virtio device, of either version, and
/// of the kind that is looked for.
pub proof fn law_device_says_what_it_is(magic: u32, version: u32, device_id: u32, expected: u32)
    ensures
        transport::is_device(magic, version, device_id, expected) <==> magic == 0x7472_6976 && 1
            <= version <= 2 && device_id == expected,
{
}

/// What a register holds after some accesses, if one of them wrote it.
pub open spec fn last_write(ops: Seq<RegOp>, at: u64) -> Option<u32>
    decreases ops.len(),
{
    if ops.len() == 0 {
        None
    } else {
        match ops.last() {
            RegOp::Write { offset, val } if offset == at => Some(val),
            _ => last_write(ops.drop_last(), at),
        }
    }
}

/// A device is reset first; then it is told that there is a driver, that no
/// features are used, that pages have 4096 bytes, and that the first queue is
/// meant.
pub proof fn law_device_is_set_up()
    ensures
        ({
            let ops = transport::setup_ops();
            &&& ops[0] == (RegOp::Write { offset: 0x70, val: 0 })
            &&& last_write(ops, 0x70) == Some(3u32)
            &&& last_write(ops, 0x20) == Some(0u32)
            &&& last_write(ops, 0x28) == Some(4096u32)
            &&& last_write(ops, 0x30) == Some(0u32)
            &&& ops.len() == 6
        }),
{
    reveal_with_fuel(last_write, 7);
    let ops = transport::setup_ops();
    assert(ops.drop_last().drop_last().drop_last().drop_last().drop_last().drop_last().len() == 0);
}

/// A queue is started with 16 descriptors in the page that its memory starts in;
/// then the driver is ready.
pub proof fn law_queue_is_started(mem_pa: u64)
    requires
        mem_pa < 0x1000_0000_0000,
    ensures
        ({
            let ops = transport::start_ops(mem_pa);
            &&& last_write(ops, 0x38) == Some(16u32)
            &&& last_write(ops, 0x3c) == Some(4096u32)
            &&& last_write(ops, 0x40) matches Some(page) && page * 4096 <= mem_pa < (page + 1) * 4096
            &&& ops.last() == (RegOp::Write { offset: 0x70, val: 7 })
            &&& ops.len() == 4
        }),
{
    reveal_with_fuel(last_write, 5);
    let ops = transport::start_ops(mem_pa);
    assert(ops.drop_last().drop_last().drop_last().drop_last().len() == 0);
}

/// The console says where the device is, or that there is none.
pub proof fn law_search_is_told(log: Seq<u8>, slot: u32)
    ensures
        blk::probe_log(log, Some(slot)) == log + encode_utf8("xnu-rs: virtio-blk found at slot 0x"@)
            + uart::put_hex(Seq::empty(), slot as u64) + encode_utf8("\n"@),
        blk::probe_log(log, None) == log + encode_utf8("xnu-rs: no virtio-blk found\n"@),
{
    let a = log + encode_utf8("xnu-rs: virtio-blk found at slot 0x"@);
    assert(uart::put_hex(a, slot as u64) =~= a + uart::put_hex(Seq::empty(), slot as u64));
}

} // verus!
