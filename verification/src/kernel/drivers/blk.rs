//! The block device: requests, and the search for it.

use crate::kernel::arch::uart;
use crate::kernel::arch::uart::Console;
use crate::kernel::drivers::transport;
use crate::kernel::drivers::transport::{Chain, VirtioMmio, MAGIC};
use vstd::prelude::*;

verus! {

/// Read a sector.
pub const BLK_T_IN: u32 = 0;

/// Write a sector.
pub const BLK_T_OUT: u32 = 1;

/// The kind of device that a block device is.
pub const BLK_DEVICE_ID: u32 = 2;

/// How many slots are searched.
pub const SLOTS: u32 = 32;

/// What the status byte holds until the device writes it.
pub const STATUS_PENDING: u8 = 0xff;

/// The header of a request.
#[derive(Clone, Copy, Debug, PartialEq, Eq, Structural)]
pub struct BlkReq {
    /// Read or write.
    pub type_: u32,
    pub reserved: u32,
    /// The sector.
    pub sector: u64,
}

/// A block device.
pub struct VirtioBlk {
    /// The device and its queue.
    pub mmio: VirtioMmio,
}

/// What the device is handed: the header and the status byte are written to the
/// addresses that were given, then the device is told.
#[derive(Clone, Copy, Debug, PartialEq, Eq, Structural)]
pub struct Request {
    /// The header.
    pub header: BlkReq,
    /// The status byte.
    pub status: u8,
    /// The descriptors.
    pub chain: Chain,
}

impl VirtioBlk {
    /// Whether a request can be made.
    pub open spec fn ready(self) -> bool {
        self.mmio.queue@.has_room()
    }

    /// Starts reading a sector of 512 bytes into the buffer at `data_pa`.
    pub fn read_block(&mut self, sector: u64, req_pa: u64, data_pa: u64, status_pa: u64) -> (r:
        Request)
        requires
            old(self).ready(),
        ensures
            r.header == (BlkReq { type_: BLK_T_IN, reserved: 0, sector }),
            r.status == STATUS_PENDING,
            r.chain.first == old(self).mmio.queue@.free(0),
            r.chain.last == old(self).mmio.queue@.free(2),
            final(self).mmio.base == old(self).mmio.base,
            final(self).mmio.queue@ == old(self).mmio.queue@.submitted(
                req_pa,
                data_pa,
                status_pa,
                true,
            ),
    {
        self.do_request(BLK_T_IN, sector, req_pa, data_pa, status_pa, true)
    }

    /// Starts writing a sector of 512 bytes out of the buffer at `data_pa`.
    pub fn write_block(&mut self, sector: u64, req_pa: u64, data_pa: u64, status_pa: u64) -> (r:
        Request)
        requires
            old(self).ready(),
        ensures
            r.header == (BlkReq { type_: BLK_T_OUT, reserved: 0, sector }),
            r.status == STATUS_PENDING,
            r.chain.first == old(self).mmio.queue@.free(0),
            r.chain.last == old(self).mmio.queue@.free(2),
            final(self).mmio.base == old(self).mmio.base,
            final(self).mmio.queue@ == old(self).mmio.queue@.submitted(
                req_pa,
                data_pa,
                status_pa,
                false,
            ),
    {
        self.do_request(BLK_T_OUT, sector, req_pa, data_pa, status_pa, false)
    }

    fn do_request(
        &mut self,
        type_: u32,
        sector: u64,
        req_pa: u64,
        data_pa: u64,
        status_pa: u64,
        data_write: bool,
    ) -> (r: Request)
        requires
            old(self).ready(),
        ensures
            r.header == (BlkReq { type_, reserved: 0, sector }),
            r.status == STATUS_PENDING,
            r.chain.first == old(self).mmio.queue@.free(0),
            r.chain.last == old(self).mmio.queue@.free(2),
            final(self).mmio.base == old(self).mmio.base,
            final(self).mmio.queue@ == old(self).mmio.queue@.submitted(
                req_pa,
                data_pa,
                status_pa,
                data_write,
            ),
    {
        let chain = self.mmio.queue.submit(req_pa, data_pa, status_pa, data_write);
        Request { header: BlkReq { type_, reserved: 0, sector }, status: STATUS_PENDING, chain }
    }

    /// Ends a request that the device is done with. True if it succeeded, which
    /// the status byte says.
    pub fn finish(&mut self, request: Request, status: u8) -> (r: bool)
        requires
            request.chain.first < 16,
            request.chain.last < 16,
        ensures
            r == (status == 0),
            final(self).mmio.base == old(self).mmio.base,
            final(self).mmio.queue@ == old(self).mmio.queue@.released(
                request.chain.first as int,
                request.chain.last as int,
            ),
    {
        self.mmio.queue.release(request.chain);
        status == 0
    }
}

/// The search for the block device.
#[derive(Clone, Copy, Debug, PartialEq, Eq, Structural)]
pub enum Probe {
    /// Read the magic register of this slot.
    Magic(u32),
    /// Read the version and device registers of this slot.
    Kind(u32),
    /// Set the queue of this slot up.
    Queue(u32),
    /// The device is in this slot.
    Found(u32),
    /// There is none.
    NotFound,
}

/// The search goes on behind a slot.
pub open spec fn next_slot(slot: u32) -> Probe {
    if slot + 1 < SLOTS {
        Probe::Magic((slot + 1) as u32)
    } else {
        Probe::NotFound
    }
}

/// The search goes on behind a slot.
fn pass(slot: u32) -> (r: Probe)
    requires
        slot < SLOTS,
    ensures
        r == next_slot(slot),
{
    if slot + 1 < SLOTS {
        Probe::Magic(slot + 1)
    } else {
        Probe::NotFound
    }
}

impl Probe {
    /// Whether the search is at one of the slots.
    pub open spec fn wf(self) -> bool {
        match self {
            Probe::Magic(s) => s < SLOTS,
            Probe::Kind(s) => s < SLOTS,
            Probe::Queue(s) => s < SLOTS,
            _ => true,
        }
    }

    /// The search starts at the first slot.
    pub fn start() -> (r: Probe)
        ensures
            r == Probe::Magic(0),
            r.wf(),
    {
        Probe::Magic(0)
    }

    /// Goes on with the magic number.
    pub fn on_magic(self, magic: u32) -> (r: Probe)
        requires
            self.wf(),
        ensures
            r.wf(),
            r == match self {
                Probe::Magic(s) => if magic == MAGIC {
                    Probe::Kind(s)
                } else {
                    next_slot(s)
                },
                other => other,
            },
    {
        match self {
            Probe::Magic(s) => if magic == MAGIC {
                Probe::Kind(s)
            } else {
                pass(s)
            },
            other => other,
        }
    }

    /// Goes on with the version and the kind of the device.
    pub fn on_kind(self, version: u32, device_id: u32) -> (r: Probe)
        requires
            self.wf(),
        ensures
            r.wf(),
            r == match self {
                Probe::Kind(s) => if transport::is_device(
                    MAGIC,
                    version,
                    device_id,
                    BLK_DEVICE_ID,
                ) {
                    Probe::Queue(s)
                } else {
                    next_slot(s)
                },
                other => other,
            },
    {
        match self {
            Probe::Kind(s) => if (version == 1 || version == 2) && device_id == BLK_DEVICE_ID {
                Probe::Queue(s)
            } else {
                pass(s)
            },
            other => other,
        }
    }

    /// Goes on after the queue has been set up, or has not.
    pub fn on_queue(self, ok: bool) -> (r: Probe)
        requires
            self.wf(),
        ensures
            r.wf(),
            r == match self {
                Probe::Queue(s) => if ok {
                    Probe::Found(s)
                } else {
                    next_slot(s)
                },
                other => other,
            },
    {
        match self {
            Probe::Queue(s) => if ok {
                Probe::Found(s)
            } else {
                pass(s)
            },
            other => other,
        }
    }
}

/// What the console says of a search that is over.
pub open spec fn probe_log(log: Seq<u8>, found: Option<u32>) -> Seq<u8> {
    match found {
        Some(slot) => uart::put_str(
            uart::put_hex(
                uart::put_str(log, "xnu-rs: virtio-blk found at slot 0x"@),
                slot as u64,
            ),
            "\n"@,
        ),
        None => uart::put_str(log, "xnu-rs: no virtio-blk found\n"@),
    }
}

/// Tells the console how the search ended.
pub fn report_probe(console: &mut Console, found: Option<u32>)
    ensures
        final(console)@ == probe_log(old(console)@, found),
{
    match found {
        Some(slot) => {
            uart::write_str(console, "xnu-rs: virtio-blk found at slot 0x");
            uart::write_hex_u64(console, slot as u64);
            uart::write_str(console, "\n");
        },
        None => {
            uart::write_str(console, "xnu-rs: no virtio-blk found\n");
        },
    }
}

} // verus!
