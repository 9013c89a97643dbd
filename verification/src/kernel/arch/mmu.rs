//! Page tables: 4 KiB pages, three levels, 39-bit addresses.

use crate::bytes;
use crate::kernel::mm::frame;
use crate::kernel::mm::frame::{FrameAllocator, Frames};
use crate::mem::{Memory, PhysMem, Stop};
use vstd::prelude::*;

verus! {

/// What a mapping allows.
#[derive(Clone, Copy, Debug, PartialEq, Eq, Structural)]
pub struct MapFlags {
    /// Reading.
    pub read: bool,
    /// Writing.
    pub write: bool,
    /// Execution.
    pub execute: bool,
    /// All of that from user space.
    pub user: bool,
}

/// Bytes of a page, and of a table.
pub const PAGE_SIZE: u64 = 4096;

/// Entries of a table.
pub const TABLE_ENTRIES: usize = 512;

/// An entry that is in use.
pub const DESC_VALID: u64 = 0x1;

/// An entry that leads to a table, or on the last level to a page.
pub const DESC_TABLE: u64 = 0x2;

/// Reading and writing, from user space too.
pub const ATTR_AP_RW_EL0: u64 = 0x40;

/// Reading and writing, by the kernel alone.
pub const ATTR_AP_RW_EL1: u64 = 0x0;

/// Reading, from user space too.
pub const ATTR_AP_RO_EL0: u64 = 0xc0;

/// Reading, by the kernel alone.
pub const ATTR_AP_RO_EL1: u64 = 0x80;

/// Inner shareable.
pub const ATTR_SH_INNER: u64 = 0x300;

/// Access flag.
pub const ATTR_AF: u64 = 0x400;

/// No execution from user space.
pub const ATTR_UXN: u64 = 0x40_0000_0000_0000;

/// No execution by the kernel.
pub const ATTR_PXN: u64 = 0x20_0000_0000_0000;

/// Memory kinds: 0 is normal write-back memory, 1 is a device.
pub const MAIR_VALUE: u64 = 0xff;

/// Translation control: 39-bit addresses in both halves, 4 KiB pages, shareable
/// write-back tables, 36-bit physical addresses, 16-bit address space numbers.
pub const TCR_VALUE: u64 = 0x11_b519_3519;

/// Attributes of a 2 MiB block of memory in the kernel's map.
pub const BLOCK_NORMAL: u64 = 0x40_0000_0000_0701;

/// Attributes of a 2 MiB block of device registers in the kernel's map.
pub const BLOCK_DEVICE: u64 = 0x60_0000_0000_0705;

/// Bytes of a block.
pub const BLOCK_SIZE: u64 = 0x20_0000;

/// The tables of the kernel's own map.
pub struct KernelTables {
    /// The root, with an entry for each GiB.
    pub l1: [u64; TABLE_ENTRIES],
    /// The blocks of the first GiB.
    pub l2_0gb: [u64; TABLE_ENTRIES],
    /// The blocks of the second GiB.
    pub l2_1gb: [u64; TABLE_ENTRIES],
    /// The blocks of the third GiB.
    pub l2_2gb: [u64; TABLE_ENTRIES],
}

impl KernelTables {
    /// Tables without entries.
    #[must_use]
    pub fn new() -> (r: Self)
        ensures
            forall|i: int| 0 <= i < 512 ==> #[trigger] r.l1@[i] == 0,
            forall|i: int| 0 <= i < 512 ==> #[trigger] r.l2_0gb@[i] == 0,
            forall|i: int| 0 <= i < 512 ==> #[trigger] r.l2_1gb@[i] == 0,
            forall|i: int| 0 <= i < 512 ==> #[trigger] r.l2_2gb@[i] == 0,
    {
        KernelTables {
            l1: [0u64;TABLE_ENTRIES],
            l2_0gb: [0u64;TABLE_ENTRIES],
            l2_1gb: [0u64;TABLE_ENTRIES],
            l2_2gb: [0u64;TABLE_ENTRIES],
        }
    }
}

/// Whether a table maps the GiB from `base` on to itself, in blocks.
pub open spec fn maps_blocks(table: Seq<u64>, base: int, attrs: u64) -> bool {
    forall|i: int| 0 <= i < 512 ==> #[trigger] table[i] == base + i * BLOCK_SIZE + attrs
}

/// Fills a table with the blocks of the GiB from `base` on.
fn fill_blocks(table: &mut [u64; TABLE_ENTRIES], base: u64, attrs: u64)
    requires
        base == 0 || base == 0x4000_0000 || base == 0x8000_0000,
        attrs == BLOCK_NORMAL || attrs == BLOCK_DEVICE,
    ensures
        maps_blocks(final(table)@, base as int, attrs),
{
    let mut i: usize = 0;
    while i < TABLE_ENTRIES
        invariant
            i <= 512,
            base == 0 || base == 0x4000_0000 || base == 0x8000_0000,
            attrs == BLOCK_NORMAL || attrs == BLOCK_DEVICE,
            forall|k: int| 0 <= k < i ==> #[trigger] table@[k] == base + k * BLOCK_SIZE + attrs,
        decreases 512 - i,
    {
        let pa: u64 = base + (i as u64) * BLOCK_SIZE;
        assert(pa | attrs == pa + attrs) by (bit_vector)
            requires
                pa % 0x20_0000 == 0,
                pa < 0x1_0000_0000,
                attrs == 0x40_0000_0000_0701 || attrs == 0x60_0000_0000_0705,
        ;
        table[i] = pa | attrs;
        i += 1;
    }
}

/// Fills the tables of the kernel's own map: the first GiB holds devices, the
/// next two hold memory, and all of it is mapped to itself. The arguments are
/// the addresses of the three lower tables.
pub fn init_kernel_tables(tables: &mut KernelTables, l2_0_pa: u64, l2_1_pa: u64, l2_2_pa: u64)
    ensures
        maps_blocks(final(tables).l2_0gb@, 0, BLOCK_DEVICE),
        maps_blocks(final(tables).l2_1gb@, 0x4000_0000, BLOCK_NORMAL),
        maps_blocks(final(tables).l2_2gb@, 0x8000_0000, BLOCK_NORMAL),
        final(tables).l1@ == old(tables).l1@.update(0, l2_0_pa | DESC_VALID | DESC_TABLE).update(
            1,
            l2_1_pa | DESC_VALID | DESC_TABLE,
        ).update(2, l2_2_pa | DESC_VALID | DESC_TABLE),
{
    fill_blocks(&mut tables.l2_0gb, 0, BLOCK_DEVICE);
    fill_blocks(&mut tables.l2_1gb, 0x4000_0000, BLOCK_NORMAL);
    fill_blocks(&mut tables.l2_2gb, 0x8000_0000, BLOCK_NORMAL);
    tables.l1[0] = l2_0_pa | DESC_VALID | DESC_TABLE;
    tables.l1[1] = l2_1_pa | DESC_VALID | DESC_TABLE;
    tables.l1[2] = l2_2_pa | DESC_VALID | DESC_TABLE;
    assert(tables.l1@ =~= old(tables).l1@.update(0, l2_0_pa | DESC_VALID | DESC_TABLE).update(
        1,
        l2_1_pa | DESC_VALID | DESC_TABLE,
    ).update(2, l2_2_pa | DESC_VALID | DESC_TABLE));
}

/// The attributes of a page.
pub open spec fn attributes(flags: MapFlags) -> u64 {
    let access: u64 = if flags.write {
        if flags.user {
            ATTR_AP_RW_EL0
        } else {
            ATTR_AP_RW_EL1
        }
    } else if flags.read && flags.user {
        ATTR_AP_RO_EL0
    } else {
        ATTR_AP_RO_EL1
    };
    let never: int = if !flags.execute {
        ATTR_UXN + ATTR_PXN
    } else if flags.user {
        ATTR_PXN as int
    } else {
        0
    };
    (ATTR_SH_INNER + ATTR_AF + access + never) as u64
}

/// The attributes of a page.
fn page_attrs(flags: MapFlags) -> (r: u64)
    ensures
        r == attributes(flags),
{
    let access: u64 = match (flags.read, flags.write, flags.user) {
        (_, true, true) => ATTR_AP_RW_EL0,
        (_, true, false) => ATTR_AP_RW_EL1,
        (true, false, true) => ATTR_AP_RO_EL0,
        _ => ATTR_AP_RO_EL1,
    };
    let never: u64 = if !flags.execute {
        ATTR_UXN + ATTR_PXN
    } else if flags.user {
        ATTR_PXN
    } else {
        0
    };
    ATTR_SH_INNER + ATTR_AF + access + never
}

/// Memory and the frames that are left of it.
#[verifier::ext_equal]
pub struct Space {
    pub mem: Memory,
    pub frames: Frames,
}

/// How the step from a table to the next one ends.
pub enum Walk {
    /// At a table.
    Table(int, Space),
    /// Without a frame for a new table.
    NoFrame(Space),
    /// Outside memory.
    Stopped(Stop),
}

/// How a mapping ends.
pub enum Mapping {
    /// The pages are mapped.
    Done(Space),
    /// There was no frame for a table; the pages before are mapped.
    NoFrame(Space),
    /// Outside memory.
    Stopped(Stop),
}

/// Whether an entry is in use.
pub open spec fn is_valid(entry: int) -> bool {
    entry % 2 == 1
}

/// The address that an entry leads to: bits 47 to 12.
pub open spec fn target(entry: int) -> int {
    entry / 4096 % 0x10_0000_0000 * 4096
}

/// The place of an address in the tables of each level.
pub open spec fn index1(va: int) -> int {
    va / 0x4000_0000 % 512
}

pub open spec fn index2(va: int) -> int {
    va / 0x20_0000 % 512
}

pub open spec fn index3(va: int) -> int {
    va / 0x1000 % 512
}

/// The table that the entry at `slot` leads to. An entry that is not in use is
/// made to lead to a new table without entries.
#[verifier::opaque]
pub open spec fn next_table(s: Space, slot: int) -> Walk {
    if slot > u64::MAX {
        Walk::Stopped(Stop::Overflow)
    } else {
        match s.mem.get64(slot) {
            None => Walk::Stopped(Stop::Fault(slot as u64)),
            Some(entry) => if is_valid(entry) {
                Walk::Table(target(entry), s)
            } else {
                match s.frames.take() {
                    None => Walk::NoFrame(s),
                    Some((pa, frames)) => if !s.mem.covers(pa, 4096) {
                        Walk::Stopped(Stop::Fault(pa as u64))
                    } else {
                        Walk::Table(
                            pa,
                            Space {
                                mem: s.mem.put(pa, bytes::zeros(4096)).put(
                                    slot,
                                    bytes::le64_bytes(pa as u64 | DESC_VALID | DESC_TABLE),
                                ),
                                frames,
                            },
                        )
                    },
                }
            },
        }
    }
}

/// Memory after the page of `va` has been mapped to `pa` by the tables at `root`.
#[verifier::opaque]
pub open spec fn page_mapped(s: Space, root: int, va: int, pa: u64, attrs: u64) -> Mapping {
    match next_table(s, root + 8 * index1(va)) {
        Walk::NoFrame(s) => Mapping::NoFrame(s),
        Walk::Stopped(e) => Mapping::Stopped(e),
        Walk::Table(l2, s) => match next_table(s, l2 + 8 * index2(va)) {
            Walk::NoFrame(s) => Mapping::NoFrame(s),
            Walk::Stopped(e) => Mapping::Stopped(e),
            Walk::Table(l3, s) => {
                let slot = l3 + 8 * index3(va);
                if slot > u64::MAX {
                    Mapping::Stopped(Stop::Overflow)
                } else if !s.mem.covers(slot, 8) {
                    Mapping::Stopped(Stop::Fault(slot as u64))
                } else {
                    Mapping::Done(
                        Space {
                            mem: s.mem.put(
                                slot,
                                bytes::le64_bytes(pa | attrs | DESC_VALID | DESC_TABLE),
                            ),
                            ..s
                        },
                    )
                }
            },
        },
    }
}

/// Memory after the pages from `offset` to `size` have been mapped.
pub open spec fn pages_mapped(
    s: Space,
    root: int,
    va: int,
    pa: int,
    size: int,
    offset: int,
    attrs: u64,
) -> Mapping
    decreases size - offset + 4096,
{
    if offset >= size {
        Mapping::Done(s)
    } else if va + offset > u64::MAX || pa + offset > u64::MAX {
        Mapping::Stopped(Stop::Overflow)
    } else {
        match page_mapped(s, root, va + offset, (pa + offset) as u64, attrs) {
            Mapping::Done(s) => if offset + 4096 > u64::MAX {
                Mapping::Stopped(Stop::Overflow)
            } else {
                pages_mapped(s, root, va, pa, size, offset + 4096, attrs)
            },
            other => other,
        }
    }
}

/// Whether memory and frames are what a step leaves behind.
pub open spec fn is_space(mem: Memory, frames: Frames, s: Space) -> bool {
    mem == s.mem && frames == s.frames
}

/// Finds the table that the entry at `table + 8 * index` leads to.
fn ensure_table(
    mem: &mut PhysMem,
    frames: &mut FrameAllocator,
    table: u64,
    index: u64,
) -> (r: Result<Option<u64>, Stop>)
    requires
        old(frames)@.wf(),
        index < 512,
    ensures
        final(frames)@.wf(),
        match next_table(Space { mem: old(mem)@, frames: old(frames)@ }, table + 8 * index) {
            Walk::Table(pa, s) => {
                &&& r matches Ok(Some(p)) && p == pa
                &&& is_space(final(mem)@, final(frames)@, s)
            },
            Walk::NoFrame(s) => {
                &&& r matches Ok(None)
                &&& is_space(final(mem)@, final(frames)@, s)
            },
            Walk::Stopped(e) => r matches Err(f) && f == e,
        },
{
    reveal(next_table);
    let slot: u64 = match table.checked_add(8 * index) {
        Some(s) => s,
        None => {
            return Err(Stop::Overflow);
        },
    };
    let entry: u64 = match mem.load64(slot) {
        Ok(v) => v,
        Err(e) => {
            return Err(e);
        },
    };
    if entry % 2 == 1 {
        return Ok(Some(entry / PAGE_SIZE % 0x10_0000_0000 * PAGE_SIZE));
    }
    proof {
        if frames@.take() is Some {
            frame::law_taken_frame_was_free(frames@);
        }
    }
    let pa: u64 = match frame::alloc_frame(frames) {
        Some(p) => p,
        None => {
            return Ok(None);
        },
    };
    match mem.clear(pa, PAGE_SIZE) {
        Ok(()) => {},
        Err(e) => {
            return Err(e);
        },
    }
    match mem.store64(slot, pa | DESC_VALID | DESC_TABLE) {
        Ok(()) => Ok(Some(pa)),
        Err(e) => Err(e),
    }
}

/// The page tables of a process.
#[derive(Clone, Copy, Debug, PartialEq, Eq, Structural)]
pub struct ProcessPageTable {
    /// The address of the root table.
    pub root_pa: u64,
    /// The number of the address space.
    pub asid: u16,
}

impl ProcessPageTable {
    /// Takes a frame for a root table without entries.
    pub fn new(mem: &mut PhysMem, frames: &mut FrameAllocator, asid: u16) -> (r: Result<
        Option<Self>,
        Stop,
    >)
        requires
            old(frames)@.wf(),
        ensures
            final(frames)@.wf(),
            match old(frames)@.take() {
                None => r matches Ok(None) && final(mem)@ == old(mem)@ && final(frames)@ == old(
                    frames,
                )@,
                Some((pa, rest)) => if old(mem)@.covers(pa, 4096) {
                    &&& r matches Ok(Some(t)) && t.root_pa == pa && t.asid == asid
                    &&& final(mem)@ == old(mem)@.put(pa, bytes::zeros(4096))
                    &&& final(frames)@ == rest
                } else {
                    r matches Err(Stop::Fault(a)) && a == pa
                },
            },
    {
        proof {
            if frames@.take() is Some {
                frame::law_taken_frame_was_free(frames@);
            }
        }
        let root_pa: u64 = match frame::alloc_frame(frames) {
            Some(p) => p,
            None => {
                return Ok(None);
            },
        };
        match mem.clear(root_pa, PAGE_SIZE) {
            Ok(()) => Ok(Some(ProcessPageTable { root_pa, asid })),
            Err(e) => Err(e),
        }
    }

    /// Maps `size` bytes at `va` to `pa`, page by page. False if there is no
    /// frame for a table.
    pub fn map(
        &self,
        mem: &mut PhysMem,
        frames: &mut FrameAllocator,
        va: u64,
        pa: u64,
        size: u64,
        flags: MapFlags,
    ) -> (r: Result<bool, Stop>)
        requires
            old(frames)@.wf(),
        ensures
            final(frames)@.wf(),
            match pages_mapped(
                Space { mem: old(mem)@, frames: old(frames)@ },
                self.root_pa as int,
                va as int,
                pa as int,
                size as int,
                0,
                attributes(flags),
            ) {
                Mapping::Done(s) => {
                    &&& r matches Ok(true)
                    &&& is_space(final(mem)@, final(frames)@, s)
                },
                Mapping::NoFrame(s) => {
                    &&& r matches Ok(false)
                    &&& is_space(final(mem)@, final(frames)@, s)
                },
                Mapping::Stopped(e) => r matches Err(f) && f == e,
            },
    {
        let attrs: u64 = page_attrs(flags);
        let ghost whole = pages_mapped(
            Space { mem: mem@, frames: frames@ },
            self.root_pa as int,
            va as int,
            pa as int,
            size as int,
            0,
            attrs,
        );
        let mut offset: u64 = 0;
        while offset < size
            invariant
                frames@.wf(),
                attrs == attributes(flags),
                whole == pages_mapped(
                    Space { mem: old(mem)@, frames: old(frames)@ },
                    self.root_pa as int,
                    va as int,
                    pa as int,
                    size as int,
                    0,
                    attrs,
                ),
                whole == pages_mapped(
                    Space { mem: mem@, frames: frames@ },
                    self.root_pa as int,
                    va as int,
                    pa as int,
                    size as int,
                    offset as int,
                    attrs,
                ),
            decreases size - offset + 4096,
        {
            let (page_va, page_pa) = match (va.checked_add(offset), pa.checked_add(offset)) {
                (Some(v), Some(p)) => (v, p),
                _ => {
                    return Err(Stop::Overflow);
                },
            };
            match self.map_page(mem, frames, page_va, page_pa, attrs) {
                Ok(true) => {},
                Ok(false) => {
                    return Ok(false);
                },
                Err(e) => {
                    return Err(e);
                },
            }
            offset = match offset.checked_add(PAGE_SIZE) {
                Some(o) => o,
                None => {
                    return Err(Stop::Overflow);
                },
            };
        }
        Ok(true)
    }

    /// Maps the page of `va` to `pa`.
    fn map_page(
        &self,
        mem: &mut PhysMem,
        frames: &mut FrameAllocator,
        va: u64,
        pa: u64,
        attrs: u64,
    ) -> (r: Result<bool, Stop>)
        requires
            old(frames)@.wf(),
        ensures
            final(frames)@.wf(),
            match page_mapped(
                Space { mem: old(mem)@, frames: old(frames)@ },
                self.root_pa as int,
                va as int,
                pa,
                attrs,
            ) {
                Mapping::Done(s) => {
                    &&& r matches Ok(true)
                    &&& is_space(final(mem)@, final(frames)@, s)
                },
                Mapping::NoFrame(s) => {
                    &&& r matches Ok(false)
                    &&& is_space(final(mem)@, final(frames)@, s)
                },
                Mapping::Stopped(e) => r matches Err(f) && f == e,
            },
    {
        reveal(page_mapped);
        let l2_pa: u64 = match ensure_table(mem, frames, self.root_pa, va / 0x4000_0000 % 512) {
            Ok(Some(t)) => t,
            Ok(None) => {
                return Ok(false);
            },
            Err(e) => {
                return Err(e);
            },
        };
        let l3_pa: u64 = match ensure_table(mem, frames, l2_pa, va / 0x20_0000 % 512) {
            Ok(Some(t)) => t,
            Ok(None) => {
                return Ok(false);
            },
            Err(e) => {
                return Err(e);
            },
        };
        let slot: u64 = match l3_pa.checked_add(8 * (va / 0x1000 % 512)) {
            Some(s) => s,
            None => {
                return Err(Stop::Overflow);
            },
        };
        match mem.store64(slot, pa | attrs | DESC_VALID | DESC_TABLE) {
            Ok(()) => Ok(true),
            Err(e) => Err(e),
        }
    }

    /// What the translation table register is set to for these tables.
    #[must_use]
    pub fn activate(&self) -> (r: u64)
        ensures
            r == self.root_pa | ((self.asid as u64) << 48u64),
    {
        self.root_pa | ((self.asid as u64) << 48u64)
    }
}

} // verus!
