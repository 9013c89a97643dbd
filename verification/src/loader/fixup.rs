//! Chained fixups of an image that is loaded into memory, for 64-bit
//! authenticated userland pointers (pointer format 12).
//!
//! Each 8-byte slot of a chain holds, from the top: bit 63, set for an
//! authenticated pointer; bit 62, set for an import, which is left alone; 11
//! bits of stride to the next slot in units of 8 bytes, 0 at the end of the
//! chain; and the target in the low 32 bits. In a plain pointer bits 39 to 32
//! are the top byte of the result.

use crate::bytes;
use crate::loader::load_cmd;
use crate::loader::load_cmd::LC_DYLD_CHAINED_FIXUPS;
use crate::loader::records;
use crate::mem::{Memory, PhysMem, Stop};
use vstd::prelude::*;

verus! {

/// The pointer format that is handled.
pub const PTR_FORMAT_ARM64E_USERLAND: u16 = 12;

/// The page start that marks a page without fixups.
pub const NO_FIXUPS: u16 = 0xffff;

/// What an operation on memory leaves behind.
#[verifier::ext_equal]
pub struct Applied {
    /// Memory afterwards.
    pub mem: Memory,
    /// Why it ended early, if it did.
    pub stop: Option<Stop>,
}

/// The outcome of an operation that returned `r`.
pub open spec fn applied(mem: Memory, r: Result<(), Stop>) -> Applied {
    Applied {
        mem,
        stop: match r {
            Ok(()) => None,
            Err(e) => Some(e),
        },
    }
}

/// The number of slots to the next fixup; 0 at the end of a chain.
pub open spec fn stride(val: int) -> int {
    val / 0x8_0000_0000_0000 % 0x800
}

/// Whether a slot is an import.
pub open spec fn is_bind(val: int) -> bool {
    val / 0x4000_0000_0000_0000 % 2 == 1
}

/// Whether a slot is an authenticated pointer.
pub open spec fn is_auth(val: int) -> bool {
    val / 0x8000_0000_0000_0000 % 2 == 1
}

/// What a pointer slot becomes when the image slides by `slide`.
pub open spec fn rebased(val: int, slide: int) -> int {
    if is_auth(val) {
        slide + val % 0x1_0000_0000
    } else {
        slide + val % 0x1_0000_0000 + (val / 0x1_0000_0000 % 0x100) * 0x100_0000_0000_0000
    }
}

/// The 16-bit number at `addr`, an address that may be too large.
pub open spec fn read16(mem: Memory, addr: int) -> Result<int, Stop> {
    if addr > u64::MAX {
        Err(Stop::Overflow)
    } else {
        match mem.get16(addr) {
            Some(v) => Ok(v),
            None => Err(Stop::Fault(addr as u64)),
        }
    }
}

/// The 32-bit number at `addr`, an address that may be too large.
pub open spec fn read32(mem: Memory, addr: int) -> Result<int, Stop> {
    if addr > u64::MAX {
        Err(Stop::Overflow)
    } else {
        match mem.get32(addr) {
            Some(v) => Ok(v),
            None => Err(Stop::Fault(addr as u64)),
        }
    }
}

/// The 64-bit number at `addr`, an address that may be too large.
pub open spec fn read64(mem: Memory, addr: int) -> Result<int, Stop> {
    if addr > u64::MAX {
        Err(Stop::Overflow)
    } else {
        match mem.get64(addr) {
            Some(v) => Ok(v),
            None => Err(Stop::Fault(addr as u64)),
        }
    }
}

/// What rebasing one slot leaves behind.
#[verifier::ext_equal]
pub struct SlotApplied {
    /// Memory afterwards.
    pub mem: Memory,
    /// The next slot of the chain, if there is one.
    pub next: Result<Option<int>, Stop>,
}

/// Rebases the slot at `addr`.
pub open spec fn slot_applied(mem: Memory, addr: int, slide: int) -> SlotApplied {
    match read64(mem, addr) {
        Err(e) => SlotApplied { mem, next: Err(e) },
        Ok(val) => if !is_bind(val) && rebased(val, slide) > u64::MAX {
            SlotApplied { mem, next: Err(Stop::Overflow) }
        } else {
            SlotApplied {
                mem: if is_bind(val) {
                    mem
                } else {
                    mem.put(addr, bytes::le64_bytes(rebased(val, slide) as u64))
                },
                next: if stride(val) == 0 {
                    Ok(None)
                } else if addr + stride(val) * 8 > u64::MAX {
                    Err(Stop::Overflow)
                } else {
                    Ok(Some(addr + stride(val) * 8))
                },
            }
        },
    }
}

/// Rebases the chain that starts at `addr`.
pub open spec fn chain_applied(mem: Memory, addr: int, slide: int) -> Applied
    decreases 0x1_0000_0000_0000_0000 - addr,
{
    let s = slot_applied(mem, addr, slide);
    match s.next {
        Err(e) => Applied { mem: s.mem, stop: Some(e) },
        Ok(None) => Applied { mem: s.mem, stop: None },
        Ok(Some(next)) => chain_applied(s.mem, next, slide),
    }
}

/// Where the fixups of one segment are and how they are laid out.
pub struct SegmentStarts {
    /// Address of the segment's record.
    pub info: int,
    /// Bytes per page.
    pub page_size: int,
    /// Offset of the segment from the load address.
    pub segment_offset: int,
    /// How many pages have an entry.
    pub page_count: int,
}

/// Rebases the chains of the pages from `page` on.
pub open spec fn pages_applied(
    mem: Memory,
    load_base: int,
    slide: int,
    seg: SegmentStarts,
    page: int,
) -> Applied
    decreases seg.page_count - page,
{
    if page >= seg.page_count {
        Applied { mem, stop: None }
    } else {
        match read16(mem, seg.info + 22 + page * 2) {
            Err(e) => Applied { mem, stop: Some(e) },
            Ok(start) => if start == NO_FIXUPS {
                pages_applied(mem, load_base, slide, seg, page + 1)
            } else {
                let a = chain_applied(
                    mem,
                    load_base + seg.segment_offset + page * seg.page_size + start,
                    slide,
                );
                if a.stop is Some {
                    a
                } else {
                    pages_applied(a.mem, load_base, slide, seg, page + 1)
                }
            },
        }
    }
}

/// Reads the record of a segment at `info`, unless its pointer format is
/// another one.
pub open spec fn segment_starts(mem: Memory, info: int) -> Result<Option<SegmentStarts>, Stop> {
    match read16(mem, info + 4) {
        Err(e) => Err(e),
        Ok(page_size) => match read16(mem, info + 6) {
            Err(e) => Err(e),
            Ok(format) => match read64(mem, info + 8) {
                Err(e) => Err(e),
                Ok(segment_offset) => match read16(mem, info + 20) {
                    Err(e) => Err(e),
                    Ok(page_count) => if format != PTR_FORMAT_ARM64E_USERLAND {
                        Ok(None)
                    } else {
                        Ok(Some(SegmentStarts { info, page_size, segment_offset, page_count }))
                    },
                },
            },
        },
    }
}

/// Rebases the chains of segment `seg`, whose record is listed at `starts`.
pub open spec fn segment_applied(
    mem: Memory,
    load_base: int,
    slide: int,
    starts: int,
    seg: int,
) -> Applied {
    match read32(mem, starts + 4 + seg * 4) {
        Err(e) => Applied { mem, stop: Some(e) },
        Ok(off) => if off == 0 {
            Applied { mem, stop: None }
        } else {
            match segment_starts(mem, starts + off) {
                Err(e) => Applied { mem, stop: Some(e) },
                Ok(None) => Applied { mem, stop: None },
                Ok(Some(s)) => pages_applied(mem, load_base, slide, s, 0),
            }
        },
    }
}

/// Rebases the chains of the segments from `seg` to `count`.
pub open spec fn segments_applied(
    mem: Memory,
    load_base: int,
    slide: int,
    starts: int,
    seg: int,
    count: int,
) -> Applied
    decreases count - seg,
{
    if seg >= count {
        Applied { mem, stop: None }
    } else {
        let a = segment_applied(mem, load_base, slide, starts, seg);
        if a.stop is Some {
            a
        } else {
            segments_applied(a.mem, load_base, slide, starts, seg + 1, count)
        }
    }
}

/// Rebases all chains that the fixups at file offset `foff` list.
pub open spec fn image_applied(mem: Memory, load_base: int, slide: int, foff: int) -> Applied {
    let header = load_base + foff;
    match read32(mem, header + 4) {
        Err(e) => Applied { mem, stop: Some(e) },
        Ok(starts_offset) => match read32(mem, header + starts_offset) {
            Err(e) => Applied { mem, stop: Some(e) },
            Ok(count) => segments_applied(
                mem,
                load_base,
                slide,
                header + starts_offset,
                0,
                count,
            ),
        },
    }
}

/// The file offset that the first `LC_DYLD_CHAINED_FIXUPS` command gives; none
/// if there is no such command or the first is too short.
pub open spec fn fixups_offset(cmds: Seq<Seq<u8>>) -> Option<int>
    decreases cmds.len(),
{
    if cmds.len() == 0 {
        None
    } else if load_cmd::is_cmd(cmds[0], LC_DYLD_CHAINED_FIXUPS, 0) {
        match load_cmd::chained_of(cmds[0]) {
            Some(c) => Some(c.dataoff as int),
            None => None,
        }
    } else {
        fixups_offset(cmds.drop_first())
    }
}

/// The sum of two addresses, unless it overflows.
fn offset(base: u64, off: u64) -> (r: Result<u64, Stop>)
    ensures
        match r {
            Ok(a) => a == base + off,
            Err(e) => base + off > u64::MAX && e == Stop::Overflow,
        },
{
    match base.checked_add(off) {
        Some(a) => Ok(a),
        None => Err(Stop::Overflow),
    }
}

/// Reads the 16-bit number `off` bytes after `base`.
fn load16(mem: &PhysMem, base: u64, off: u64) -> (r: Result<u16, Stop>)
    ensures
        match r {
            Ok(v) => read16(mem@, base + off) == Ok::<int, Stop>(v as int),
            Err(e) => read16(mem@, base + off) == Err::<int, Stop>(e),
        },
{
    match offset(base, off) {
        Ok(a) => mem.load16(a),
        Err(e) => Err(e),
    }
}

/// Reads the 32-bit number `off` bytes after `base`.
fn load32(mem: &PhysMem, base: u64, off: u64) -> (r: Result<u32, Stop>)
    ensures
        match r {
            Ok(v) => read32(mem@, base + off) == Ok::<int, Stop>(v as int),
            Err(e) => read32(mem@, base + off) == Err::<int, Stop>(e),
        },
{
    match offset(base, off) {
        Ok(a) => mem.load32(a),
        Err(e) => Err(e),
    }
}

/// Reads the 64-bit number `off` bytes after `base`.
fn load64(mem: &PhysMem, base: u64, off: u64) -> (r: Result<u64, Stop>)
    ensures
        match r {
            Ok(v) => read64(mem@, base + off) == Ok::<int, Stop>(v as int),
            Err(e) => read64(mem@, base + off) == Err::<int, Stop>(e),
        },
{
    match offset(base, off) {
        Ok(a) => mem.load64(a),
        Err(e) => Err(e),
    }
}

/// What a pointer slot becomes; an error if that overflows.
fn rebase(val: u64, slide: u64) -> (r: Result<u64, Stop>)
    ensures
        match r {
            Ok(v) => v == rebased(val as int, slide as int),
            Err(e) => rebased(val as int, slide as int) > u64::MAX && e == Stop::Overflow,
        },
{
    assert(val & 0xFFFF_FFFF == val % 0x1_0000_0000 && (val >> 32u32) & 0xFF == (val
        / 0x1_0000_0000) % 0x100 && (val >> 63u32) & 1 == (val / 0x8000_0000_0000_0000) % 2)
        by (bit_vector);
    let target: u64 = val & 0xFFFF_FFFF;
    let high8: u64 = (val >> 32u32) & 0xFF;
    let low: u64 = match slide.checked_add(target) {
        Some(x) => x,
        None => {
            return Err(Stop::Overflow);
        },
    };
    if (val >> 63u32) & 1 != 0 {
        Ok(low)
    } else {
        assert(high8 << 56u32 == high8 * 0x100_0000_0000_0000) by (bit_vector)
            requires
                high8 < 0x100,
        ;
        match low.checked_add(high8 << 56u32) {
            Some(x) => Ok(x),
            None => Err(Stop::Overflow),
        }
    }
}

/// The number of slots to the next fixup.
fn next_stride(val: u64) -> (r: u64)
    ensures
        r == stride(val as int),
        r < 0x800,
{
    assert((val >> 51u32) & 0x7FF == (val / 0x8_0000_0000_0000) % 0x800) by (bit_vector);
    (val >> 51u32) & 0x7FF
}

/// Whether a slot is an import.
fn bind_bit(val: u64) -> (r: bool)
    ensures
        r == is_bind(val as int),
{
    assert((val >> 62u32) & 1 == (val / 0x4000_0000_0000_0000) % 2) by (bit_vector);
    (val >> 62u32) & 1 != 0
}

/// Rebases the slot at `addr` and gives the next slot of the chain.
fn apply_slot(mem: &mut PhysMem, addr: u64, slide: u64) -> (r: Result<Option<u64>, Stop>)
    ensures
        final(mem)@ == slot_applied(old(mem)@, addr as int, slide as int).mem,
        match r {
            Ok(Some(a)) => slot_applied(old(mem)@, addr as int, slide as int).next == Ok::<
                Option<int>,
                Stop,
            >(Some(a as int)) && a > addr,
            Ok(None) => slot_applied(old(mem)@, addr as int, slide as int).next == Ok::<
                Option<int>,
                Stop,
            >(None),
            Err(e) => slot_applied(old(mem)@, addr as int, slide as int).next == Err::<
                Option<int>,
                Stop,
            >(e),
        },
{
    let val: u64 = match mem.load64(addr) {
        Ok(v) => v,
        Err(e) => {
            return Err(e);
        },
    };
    if !bind_bit(val) {
        match rebase(val, slide) {
            Ok(v) => {
                match mem.store64(addr, v) {
                    Ok(()) => {},
                    Err(e) => {
                        return Err(e);
                    },
                }
            },
            Err(e) => {
                return Err(e);
            },
        }
    }
    let next: u64 = next_stride(val);
    if next == 0 {
        return Ok(None);
    }
    match offset(addr, next * 8) {
        Ok(a) => Ok(Some(a)),
        Err(e) => Err(e),
    }
}

/// Rebases the chain that starts at `start`.
fn apply_chain(mem: &mut PhysMem, start: u64, slide: u64) -> (r: Result<(), Stop>)
    ensures
        applied(final(mem)@, r) == chain_applied(old(mem)@, start as int, slide as int),
{
    let mut addr: u64 = start;
    loop
        invariant
            chain_applied(mem@, addr as int, slide as int) == chain_applied(
                old(mem)@,
                start as int,
                slide as int,
            ),
        decreases u64::MAX - addr,
    {
        match apply_slot(mem, addr, slide) {
            Ok(Some(a)) => {
                addr = a;
            },
            Ok(None) => {
                return Ok(());
            },
            Err(e) => {
                return Err(e);
            },
        }
    }
}

/// Rebases the chains of the pages of one segment.
fn apply_pages(
    mem: &mut PhysMem,
    load_base: u64,
    slide: u64,
    info: u64,
    page_size: u16,
    segment_offset: u64,
    page_count: u16,
) -> (r: Result<(), Stop>)
    ensures
        applied(final(mem)@, r) == pages_applied(
            old(mem)@,
            load_base as int,
            slide as int,
            SegmentStarts {
                info: info as int,
                page_size: page_size as int,
                segment_offset: segment_offset as int,
                page_count: page_count as int,
            },
            0,
        ),
{
    let ghost seg = SegmentStarts {
        info: info as int,
        page_size: page_size as int,
        segment_offset: segment_offset as int,
        page_count: page_count as int,
    };
    let mut page: u64 = 0;
    while page < page_count as u64
        invariant
            page <= page_count,
            seg == (SegmentStarts {
                info: info as int,
                page_size: page_size as int,
                segment_offset: segment_offset as int,
                page_count: page_count as int,
            }),
            pages_applied(mem@, load_base as int, slide as int, seg, page as int) == pages_applied(
                old(mem)@,
                load_base as int,
                slide as int,
                seg,
                0,
            ),
        decreases page_count - page,
    {
        let start: u16 = match load16(mem, info, 22 + page * 2) {
            Ok(v) => v,
            Err(e) => {
                return Err(e);
            },
        };
        if start != NO_FIXUPS {
            assert(page * page_size <= 0xffff * 0xffff) by (nonlinear_arith)
                requires
                    page <= 0xffff,
                    page_size <= 0xffff,
            ;
            let in_segment: u64 = page * (page_size as u64) + start as u64;
            let ghost sum = load_base + segment_offset + in_segment;
            let base: u64 = match offset(load_base, segment_offset) {
                Ok(a) => a,
                Err(e) => {
                    assert(read64(mem@, sum) == Err::<int, Stop>(Stop::Overflow));
                    return Err(e);
                },
            };
            let addr: u64 = match offset(base, in_segment) {
                Ok(a) => a,
                Err(e) => {
                    assert(read64(mem@, sum) == Err::<int, Stop>(Stop::Overflow));
                    return Err(e);
                },
            };
            match apply_chain(mem, addr, slide) {
                Ok(()) => {},
                Err(e) => {
                    return Err(e);
                },
            }
        }
        page = page + 1;
    }
    Ok(())
}

/// Rebases the chains of segment `seg`, whose record is listed at `starts`.
fn apply_segment(mem: &mut PhysMem, load_base: u64, slide: u64, starts: u64, seg: u32) -> (r: Result<
    (),
    Stop,
>)
    ensures
        applied(final(mem)@, r) == segment_applied(
            old(mem)@,
            load_base as int,
            slide as int,
            starts as int,
            seg as int,
        ),
{
    let off: u32 = match load32(mem, starts, 4 + (seg as u64) * 4) {
        Ok(v) => v,
        Err(e) => {
            return Err(e);
        },
    };
    if off == 0 {
        return Ok(());
    }
    let info: u64 = match offset(starts, off as u64) {
        Ok(a) => a,
        Err(e) => {
            return Err(e);
        },
    };
    let page_size: u16 = match load16(mem, info, 4) {
        Ok(v) => v,
        Err(e) => {
            return Err(e);
        },
    };
    let format: u16 = match load16(mem, info, 6) {
        Ok(v) => v,
        Err(e) => {
            return Err(e);
        },
    };
    let segment_offset: u64 = match load64(mem, info, 8) {
        Ok(v) => v,
        Err(e) => {
            return Err(e);
        },
    };
    let page_count: u16 = match load16(mem, info, 20) {
        Ok(v) => v,
        Err(e) => {
            return Err(e);
        },
    };
    if format != PTR_FORMAT_ARM64E_USERLAND {
        return Ok(());
    }
    apply_pages(mem, load_base, slide, info, page_size, segment_offset, page_count)
}

/// Rebases the chains of the `count` segments listed at `starts`.
fn apply_segments(
    mem: &mut PhysMem,
    load_base: u64,
    slide: u64,
    starts: u64,
    count: u32,
) -> (r: Result<(), Stop>)
    ensures
        applied(final(mem)@, r) == segments_applied(
            old(mem)@,
            load_base as int,
            slide as int,
            starts as int,
            0,
            count as int,
        ),
{
    let mut seg: u32 = 0;
    while seg < count
        invariant
            seg <= count,
            segments_applied(
                mem@,
                load_base as int,
                slide as int,
                starts as int,
                seg as int,
                count as int,
            ) == segments_applied(
                old(mem)@,
                load_base as int,
                slide as int,
                starts as int,
                0,
                count as int,
            ),
        decreases count - seg,
    {
        match apply_segment(mem, load_base, slide, starts, seg) {
            Ok(()) => {},
            Err(e) => {
                return Err(e);
            },
        }
        seg = seg + 1;
    }
    Ok(())
}

/// Rebases all chains of an image loaded at `load_base`, whose fixups header is
/// `foff` bytes from there.
pub fn apply_chains(mem: &mut PhysMem, load_base: u64, slide: u64, foff: u32) -> (r: Result<
    (),
    Stop,
>)
    ensures
        applied(final(mem)@, r) == image_applied(
            old(mem)@,
            load_base as int,
            slide as int,
            foff as int,
        ),
{
    let header: u64 = match offset(load_base, foff as u64) {
        Ok(a) => a,
        Err(e) => {
            return Err(e);
        },
    };
    let starts_offset: u32 = match load32(mem, header, 4) {
        Ok(v) => v,
        Err(e) => {
            return Err(e);
        },
    };
    let count: u32 = match load32(mem, header, starts_offset as u64) {
        Ok(v) => v,
        Err(e) => {
            return Err(e);
        },
    };
    let starts: u64 = header + starts_offset as u64;
    apply_segments(mem, load_base, slide, starts, count)
}

/// The file offset of the fixups that `cmds` give.
pub fn find_fixups(cmds: &Vec<&[u8]>) -> (r: Option<u32>)
    ensures
        match r {
            Some(o) => fixups_offset(records::slices(cmds@)) == Some(o as int),
            None => fixups_offset(records::slices(cmds@)) is None,
        },
{
    let ghost all = records::slices(cmds@);
    let mut i: usize = 0;
    assert(all.skip(0) =~= all);
    while i < cmds.len()
        invariant
            i <= cmds@.len(),
            all == records::slices(cmds@),
            fixups_offset(all) == fixups_offset(all.skip(i as int)),
        decreases cmds@.len() - i,
    {
        let raw: &[u8] = cmds[i];
        assert(all.skip(i as int)[0] == raw@);
        assert(all.skip(i as int).drop_first() =~= all.skip(i + 1));
        if load_cmd::has_cmd(raw, LC_DYLD_CHAINED_FIXUPS, 0) {
            return match load_cmd::parse_chained(raw) {
                Some(c) => Some(c.dataoff),
                None => None,
            };
        }
        i = i + 1;
    }
    None
}

/// Rebases all chains of the image `file_bytes` that is loaded at `load_base`.
/// Does nothing if the image has no chained fixups.
pub fn apply_arm64e_userland(
    file_bytes: &[u8],
    mem: &mut PhysMem,
    load_base: u64,
    slide: u64,
) -> (r: Result<(), Stop>)
    ensures
        applied(final(mem)@, r) == match records::load_commands(file_bytes@) {
            Some(cmds) => match fixups_offset(cmds) {
                Some(foff) => if records::macho_parses(file_bytes@) {
                    image_applied(old(mem)@, load_base as int, slide as int, foff)
                } else {
                    Applied { mem: old(mem)@, stop: None }
                },
                None => Applied { mem: old(mem)@, stop: None },
            },
            None => Applied { mem: old(mem)@, stop: None },
        },
{
    match records::macho_commands(file_bytes) {
        Some(cmds) => match find_fixups(&cmds) {
            Some(foff) => apply_chains(mem, load_base, slide, foff),
            None => Ok(()),
        },
        None => Ok(()),
    }
}

} // verus!
