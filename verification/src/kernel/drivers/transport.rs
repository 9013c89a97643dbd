//! The virtio transport: device registers and the queue of requests.

use vstd::prelude::*;

verus! {

/// Address of the registers of slot 0.
pub const MMIO_BASE: u64 = 0x0a00_0000;

/// Distance between the registers of two slots.
pub const MMIO_STRIDE: u64 = 0x200;

/// What the magic register of a virtio device holds.
pub const MAGIC: u32 = 0x7472_6976;

/// Descriptors of a queue.
pub const QUEUE_SIZE: usize = 16;

pub const REG_MAGIC: u64 = 0x000;

pub const REG_VERSION: u64 = 0x004;

pub const REG_DEVICE_ID: u64 = 0x008;

pub const REG_HOST_FEATURES: u64 = 0x010;

pub const REG_GUEST_FEATURES: u64 = 0x020;

pub const REG_GUEST_PAGE_SIZE: u64 = 0x028;

pub const REG_QUEUE_SEL: u64 = 0x030;

pub const REG_QUEUE_NUM_MAX: u64 = 0x034;

pub const REG_QUEUE_NUM: u64 = 0x038;

pub const REG_QUEUE_ALIGN: u64 = 0x03c;

pub const REG_QUEUE_PFN: u64 = 0x040;

pub const REG_QUEUE_NOTIFY: u64 = 0x050;

pub const REG_STATUS: u64 = 0x070;

/// The device has been noticed.
pub const STATUS_ACKNOWLEDGE: u32 = 1;

/// There is a driver for it.
pub const STATUS_DRIVER: u32 = 2;

/// The driver is ready.
pub const STATUS_DRIVER_OK: u32 = 4;

/// Another descriptor follows.
pub const VIRTQ_DESC_F_NEXT: u16 = 1;

/// The device writes the buffer.
pub const VIRTQ_DESC_F_WRITE: u16 = 2;

/// One buffer of a request.
#[derive(Clone, Copy, Debug, PartialEq, Eq, Structural)]
pub struct VirtqDesc {
    /// Address of the buffer.
    pub addr: u64,
    /// Bytes of the buffer.
    pub len: u32,
    /// How it is used.
    pub flags: u16,
    /// The descriptor that follows.
    pub next: u16,
}

/// The requests that the device has not looked at.
#[derive(Clone, Copy, Debug)]
pub struct VirtqAvail {
    pub flags: u16,
    /// How many requests there have been.
    pub idx: u16,
    /// Their first descriptors.
    pub ring: [u16; QUEUE_SIZE],
    pub used_event: u16,
}

/// A request that the device is done with.
#[derive(Clone, Copy, Debug, PartialEq, Eq, Structural)]
pub struct VirtqUsedElem {
    /// Its first descriptor.
    pub id: u32,
    /// How many bytes the device wrote.
    pub len: u32,
}

/// The requests that the device is done with.
#[derive(Clone, Copy, Debug)]
pub struct VirtqUsed {
    pub flags: u16,
    /// How many there have been.
    pub idx: u16,
    pub ring: [VirtqUsedElem; QUEUE_SIZE],
    pub avail_event: u16,
}

/// The queue of a device, as the driver sees it.
pub struct VirtQueue {
    /// Address of the queue's memory.
    pub base_pa: u64,
    /// The descriptors.
    pub desc: [VirtqDesc; QUEUE_SIZE],
    /// What the driver tells the device.
    pub avail: VirtqAvail,
    /// How many requests the driver has seen done.
    pub last_used_idx: u16,
    /// The first descriptor that is free.
    pub free_head: u16,
}

/// What a `VirtQueue` holds.
#[verifier::ext_equal]
pub struct QueueView {
    pub base_pa: u64,
    pub desc: Seq<VirtqDesc>,
    pub avail_flags: u16,
    pub avail_idx: u16,
    pub ring: Seq<u16>,
    pub used_event: u16,
    pub last_used_idx: u16,
    pub free_head: u16,
}

impl View for VirtQueue {
    type V = QueueView;

    open spec fn view(&self) -> QueueView {
        QueueView {
            base_pa: self.base_pa,
            desc: self.desc@,
            avail_flags: self.avail.flags,
            avail_idx: self.avail.idx,
            ring: self.avail.ring@,
            used_event: self.avail.used_event,
            last_used_idx: self.last_used_idx,
            free_head: self.free_head,
        }
    }
}

/// A device and its queue.
pub struct VirtioMmio {
    /// Address of its registers.
    pub base: u64,
    /// Its queue.
    pub queue: VirtQueue,
}

/// The number after `i` in a counter of 16 bits.
pub open spec fn next16(i: u16) -> u16 {
    if i == u16::MAX {
        0
    } else {
        (i + 1) as u16
    }
}

/// The number after `i` in a counter of 16 bits.
fn count16(i: u16) -> (r: u16)
    ensures
        r == next16(i),
{
    if i == u16::MAX {
        0
    } else {
        i + 1
    }
}

impl QueueView {
    /// The free descriptor `n` places behind the first one.
    pub open spec fn free(self, n: nat) -> int
        decreases n,
    {
        if n == 0 {
            self.free_head as int
        } else {
            self.desc[self.free((n - 1) as nat)].next as int
        }
    }

    /// Whether three different descriptors are free.
    pub open spec fn has_room(self) -> bool {
        let (a, b, c) = (self.free(0), self.free(1), self.free(2));
        &&& self.desc.len() == QUEUE_SIZE && self.ring.len() == QUEUE_SIZE
        &&& 0 <= a < QUEUE_SIZE && 0 <= b < QUEUE_SIZE && 0 <= c < QUEUE_SIZE
        &&& a != b && b != c && a != c
    }

    /// With a request of three buffers put before the device: a header that it
    /// reads, data that it reads or writes, and a status byte that it writes.
    pub open spec fn submitted(
        self,
        req_pa: u64,
        data_pa: u64,
        status_pa: u64,
        data_write: bool,
    ) -> QueueView {
        let (a, b, c) = (self.free(0), self.free(1), self.free(2));
        QueueView {
            desc: self.desc.update(
                a,
                VirtqDesc { addr: req_pa, len: 16, flags: VIRTQ_DESC_F_NEXT, next: b as u16 },
            ).update(
                b,
                VirtqDesc {
                    addr: data_pa,
                    len: 512,
                    flags: if data_write {
                        3
                    } else {
                        1
                    },
                    next: c as u16,
                },
            ).update(
                c,
                VirtqDesc { addr: status_pa, len: 1, flags: VIRTQ_DESC_F_WRITE, next: 0 },
            ),
            ring: self.ring.update(self.avail_idx as int % 16, a as u16),
            avail_idx: next16(self.avail_idx),
            free_head: self.free(3) as u16,
            ..self
        }
    }

    /// With the descriptors from `first` to `last` given back.
    pub open spec fn released(self, first: int, last: int) -> QueueView {
        QueueView {
            desc: self.desc.update(
                last,
                VirtqDesc { next: self.free_head, ..self.desc[last] },
            ),
            free_head: first as u16,
            ..self
        }
    }
}

/// A queue in memory at `base_pa` with all descriptors free, each leading to the
/// next, and nothing told to the device.
pub open spec fn empty_queue(base_pa: u64) -> QueueView {
    QueueView {
        base_pa,
        desc: Seq::new(
            16,
            |i: int| VirtqDesc { addr: 0, len: 0, flags: 0, next: (i + 1) as u16 },
        ),
        avail_flags: 0,
        avail_idx: 0,
        ring: Seq::new(16, |i: int| 0u16),
        used_event: 0,
        last_used_idx: 0,
        free_head: 0,
    }
}

/// The descriptors of a request.
#[derive(Clone, Copy, Debug, PartialEq, Eq, Structural)]
pub struct Chain {
    pub first: usize,
    pub last: usize,
}

impl VirtQueue {
    /// A queue in memory at `base_pa`, with all descriptors free: each leads to
    /// the next.
    pub fn new(base_pa: u64) -> (r: Self)
        ensures
            r@ == empty_queue(base_pa),
            r@.has_room(),
    {
        let empty = VirtqDesc { addr: 0, len: 0, flags: 0, next: 0 };
        let mut desc: [VirtqDesc; QUEUE_SIZE] = [empty;QUEUE_SIZE];
        let mut i: usize = 0;
        while i < QUEUE_SIZE
            invariant
                i <= 16,
                empty == (VirtqDesc { addr: 0, len: 0, flags: 0, next: 0 }),
                forall|k: int|
                    0 <= k < 16 ==> #[trigger] desc@[k] == (VirtqDesc {
                        next: if k < i {
                            (k + 1) as u16
                        } else {
                            0
                        },
                        ..empty
                    }),
            decreases 16 - i,
        {
            desc[i] = VirtqDesc { addr: 0, len: 0, flags: 0, next: (i + 1) as u16 };
            i += 1;
        }
        let avail = VirtqAvail { flags: 0, idx: 0, ring: [0u16;QUEUE_SIZE], used_event: 0 };
        let r = VirtQueue { base_pa, desc, avail, last_used_idx: 0, free_head: 0 };
        proof {
            assert(r@.desc =~= empty_queue(base_pa).desc);
            assert(r@.ring =~= empty_queue(base_pa).ring);
            reveal_with_fuel(QueueView::free, 3);
        }
        r
    }

    /// Puts a request before the device.
    pub fn submit(&mut self, req_pa: u64, data_pa: u64, status_pa: u64, data_write: bool) -> (r:
        Chain)
        requires
            old(self)@.has_room(),
        ensures
            final(self)@ == old(self)@.submitted(req_pa, data_pa, status_pa, data_write),
            r.first == old(self)@.free(0),
            r.last == old(self)@.free(2),
    {
        proof {
            reveal_with_fuel(QueueView::free, 4);
        }
        let d0: usize = self.free_head as usize;
        let d1: usize = self.desc[d0].next as usize;
        let d2: usize = self.desc[d1].next as usize;
        self.free_head = self.desc[d2].next;
        self.desc[d0] = VirtqDesc {
            addr: req_pa,
            len: 16,
            flags: VIRTQ_DESC_F_NEXT,
            next: d1 as u16,
        };
        let data_flags: u16 = if data_write {
            VIRTQ_DESC_F_NEXT + VIRTQ_DESC_F_WRITE
        } else {
            VIRTQ_DESC_F_NEXT
        };
        self.desc[d1] = VirtqDesc { addr: data_pa, len: 512, flags: data_flags, next: d2 as u16 };
        self.desc[d2] = VirtqDesc {
            addr: status_pa,
            len: 1,
            flags: VIRTQ_DESC_F_WRITE,
            next: 0,
        };
        let slot: usize = self.avail.idx as usize % QUEUE_SIZE;
        self.avail.ring[slot] = d0 as u16;
        self.avail.idx = count16(self.avail.idx);
        Chain { first: d0, last: d2 }
    }

    /// Gives the descriptors of a request back.
    pub fn release(&mut self, chain: Chain)
        requires
            chain.first < QUEUE_SIZE,
            chain.last < QUEUE_SIZE,
        ensures
            final(self)@ == old(self)@.released(chain.first as int, chain.last as int),
    {
        let mut d: VirtqDesc = self.desc[chain.last];
        d.next = self.free_head;
        self.desc[chain.last] = d;
        self.free_head = chain.first as u16;
    }

    /// Whether the device is done with a request that the driver has not seen
    /// done: the first descriptor of that request. `used` is what the device
    /// says.
    pub fn poll_used(&mut self, used: &VirtqUsed) -> (r: Option<u32>)
        ensures
            if used.idx == old(self)@.last_used_idx {
                r is None && final(self)@ == old(self)@
            } else {
                &&& r == Some(used.ring@[old(self)@.last_used_idx as int % 16].id)
                &&& final(self)@ == (QueueView {
                    last_used_idx: next16(old(self)@.last_used_idx),
                    ..old(self)@
                })
            },
    {
        if used.idx == self.last_used_idx {
            return None;
        }
        let slot: usize = self.last_used_idx as usize % QUEUE_SIZE;
        let id: u32 = used.ring[slot].id;
        self.last_used_idx = count16(self.last_used_idx);
        Some(id)
    }
}

/// Address of the registers of a slot.
pub fn slot_base(slot: u32) -> (r: u64)
    ensures
        r == MMIO_BASE + slot * MMIO_STRIDE,
{
    MMIO_BASE + slot as u64 * MMIO_STRIDE
}

/// Whether a device is there and of the expected kind.
pub open spec fn is_device(magic: u32, version: u32, device_id: u32, expected: u32) -> bool {
    magic == MAGIC && (version == 1 || version == 2) && device_id == expected
}

/// An access to a register.
#[derive(Clone, Copy, Debug, PartialEq, Eq, Structural)]
pub enum RegOp {
    /// Write a value.
    Write { offset: u64, val: u32 },
    /// Read, and drop what is read.
    Read { offset: u64 },
}

/// The register accesses before the size of the queue is read: reset, announce
/// the driver, accept no features, set the page size and select queue 0.
pub open spec fn setup_ops() -> Seq<RegOp> {
    seq![
        RegOp::Write { offset: REG_STATUS, val: 0 },
        RegOp::Write { offset: REG_STATUS, val: 3 },
        RegOp::Read { offset: REG_HOST_FEATURES },
        RegOp::Write { offset: REG_GUEST_FEATURES, val: 0 },
        RegOp::Write { offset: REG_GUEST_PAGE_SIZE, val: 4096 },
        RegOp::Write { offset: REG_QUEUE_SEL, val: 0 },
    ]
}

/// The register accesses after that: size, alignment and page number of the
/// queue, and that the driver is ready.
pub open spec fn start_ops(mem_pa: u64) -> Seq<RegOp> {
    seq![
        RegOp::Write { offset: REG_QUEUE_NUM, val: 16 },
        RegOp::Write { offset: REG_QUEUE_ALIGN, val: 4096 },
        RegOp::Write { offset: REG_QUEUE_PFN, val: (mem_pa / 4096) as u32 },
        RegOp::Write { offset: REG_STATUS, val: 7 },
    ]
}

/// The register accesses before the size of the queue is read.
pub fn setup_queue() -> (r: Vec<RegOp>)
    ensures
        r@ == setup_ops(),
{
    let mut v: Vec<RegOp> = Vec::new();
    v.push(RegOp::Write { offset: REG_STATUS, val: 0 });
    v.push(RegOp::Write { offset: REG_STATUS, val: STATUS_ACKNOWLEDGE + STATUS_DRIVER });
    v.push(RegOp::Read { offset: REG_HOST_FEATURES });
    v.push(RegOp::Write { offset: REG_GUEST_FEATURES, val: 0 });
    v.push(RegOp::Write { offset: REG_GUEST_PAGE_SIZE, val: 4096 });
    v.push(RegOp::Write { offset: REG_QUEUE_SEL, val: 0 });
    assert(v@ =~= setup_ops());
    v
}

/// The register accesses that start the queue in memory at `mem_pa`, and the
/// queue; none if the device has no queue of the needed size.
pub fn init_queue(queue_num_max: u32, mem_pa: u64) -> (r: Option<(Vec<RegOp>, VirtQueue)>)
    ensures
        match r {
            Some((ops, queue)) => {
                &&& queue_num_max >= 16
                &&& ops@ == start_ops(mem_pa)
                &&& queue@ == empty_queue(mem_pa)
                &&& queue@.has_room()
            },
            None => queue_num_max < 16,
        },
{
    if queue_num_max < 16 {
        return None;
    }
    let mut v: Vec<RegOp> = Vec::new();
    v.push(RegOp::Write { offset: REG_QUEUE_NUM, val: 16 });
    v.push(RegOp::Write { offset: REG_QUEUE_ALIGN, val: 4096 });
    v.push(RegOp::Write { offset: REG_QUEUE_PFN, val: (mem_pa / 4096) as u32 });
    v.push(
        RegOp::Write {
            offset: REG_STATUS,
            val: STATUS_ACKNOWLEDGE + STATUS_DRIVER + STATUS_DRIVER_OK,
        },
    );
    assert(v@ =~= start_ops(mem_pa));
    Some((v, VirtQueue::new(mem_pa)))
}

/// A request that is done leaves the free descriptors as they were before it,
/// each leading to the same next one, so that the queue never runs out.
pub proof fn law_release_undoes_submit(
    q: QueueView,
    req_pa: u64,
    data_pa: u64,
    status_pa: u64,
    data_write: bool,
)
    requires
        q.has_room(),
    ensures
        ({
            let done = q.submitted(req_pa, data_pa, status_pa, data_write).released(
                q.free(0),
                q.free(2),
            );
            &&& done.free_head == q.free_head
            &&& forall|i: int|
                0 <= i < 16 ==> (#[trigger] done.desc[i]).next == q.desc[i].next
            &&& done.has_room()
        }),
{
    reveal_with_fuel(QueueView::free, 4);
}

/// The device finds the request: the newest entry of the ring leads through the
/// three buffers in their order.
pub proof fn law_device_sees_request(
    q: QueueView,
    req_pa: u64,
    data_pa: u64,
    status_pa: u64,
    data_write: bool,
)
    requires
        q.has_room(),
    ensures
        ({
            let s = q.submitted(req_pa, data_pa, status_pa, data_write);
            let first = s.desc[s.ring[q.avail_idx as int % 16] as int];
            let second = s.desc[first.next as int];
            let third = s.desc[second.next as int];
            &&& s.avail_idx == next16(q.avail_idx)
            &&& first.addr == req_pa && first.flags == VIRTQ_DESC_F_NEXT
            &&& second.addr == data_pa && second.len == 512
            &&& third.addr == status_pa && third.flags == VIRTQ_DESC_F_WRITE
        }),
{
    reveal_with_fuel(QueueView::free, 4);
}

/// A request uses three descriptors and no others: 16 bytes that the device
/// reads, 512 that it reads or writes as was asked, and one that it writes, with
/// no more behind. It is told as one more entry of the ring.
pub proof fn law_request_uses_three_descriptors(
    q: QueueView,
    req_pa: u64,
    data_pa: u64,
    status_pa: u64,
    data_write: bool,
)
    requires
        q.has_room(),
    ensures
        ({
            let s = q.submitted(req_pa, data_pa, status_pa, data_write);
            let a = s.ring[q.avail_idx as int % 16] as int;
            let b = s.desc[a].next as int;
            let c = s.desc[b].next as int;
            &&& a == q.free_head
            &&& a != b && b != c && a != c
            &&& s.desc[a].len == 16 && s.desc[a].flags == 1
            &&& s.desc[b].len == 512 && s.desc[b].flags == if data_write {
                3u16
            } else {
                1u16
            }
            &&& s.desc[c].len == 1 && s.desc[c].flags == 2
            &&& forall|i: int|
                0 <= i < 16 && i != a && i != b && i != c ==> #[trigger] s.desc[i] == q.desc[i]
            &&& forall|i: int|
                0 <= i < 16 && i != q.avail_idx as int % 16 ==> #[trigger] s.ring[i] == q.ring[i]
            &&& s.free_head == q.desc[q.desc[q.desc[q.free_head as int].next as int].next as int].next
            &&& s.avail_idx == if q.avail_idx == 65535 {
                0
            } else {
                q.avail_idx + 1
            }
            &&& s.last_used_idx == q.last_used_idx
            &&& s.base_pa == q.base_pa
        }),
{
    reveal_with_fuel(QueueView::free, 4);
}

/// In a new queue all descriptors are free: the list of free ones leads through
/// each of them once.
pub proof fn law_new_queue_is_free(base_pa: u64, n: nat)
    requires
        n < 16,
    ensures
        empty_queue(base_pa).free(n) == n,
    decreases n,
{
    if n > 0 {
        law_new_queue_is_free(base_pa, (n - 1) as nat);
    }
}

} // verus!
