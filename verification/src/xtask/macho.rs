//! Turning an ELF executable into a Mach-O executable.

use crate::align;
use crate::bytes;
use crate::loader::fat::CPU_TYPE_ARM64;
use crate::loader::load_cmd;
use crate::loader::load_cmd::{LC_MAIN, LC_SEGMENT_64};
use crate::loader::records;
use crate::xtask::elf;
use crate::xtask::elf::ElfSegment;
use vstd::prelude::*;

verus! {

/// The type of a loadable program header.
pub const PT_LOAD: u32 = 1;

/// The number at the start of a 64-bit Mach-O file.
pub const MH_MAGIC_64: u32 = 0xfeed_facf;

/// The file type of an executable.
pub const MH_EXECUTE: u32 = 2;

/// Bytes in the file header.
pub const HEADER_SIZE: u64 = 32;

/// Bytes in a segment command.
pub const SEGMENT_SIZE: u64 = 72;

/// Bytes in an entry point command.
pub const MAIN_SIZE: u64 = 24;

/// Why an ELF file could not be turned into a Mach-O file.
#[derive(Clone, Copy, Debug, PartialEq, Eq, Structural)]
pub enum ConvertError {
    /// The file is no ELF file.
    NotElf,
    /// No program header is loadable.
    NoLoadSegments,
    /// The size of the commands overflowed.
    CommandSizeOverflow,
    /// Rounding a file offset up overflowed.
    AlignmentOverflow,
    /// A file offset is too large for this machine.
    ElfOffsetOverflow,
    /// A segment's file size is too large for this machine.
    ElfFileSizeOverflow,
    /// The file's size overflowed.
    FileSizeOverflow,
    /// No segment is executable.
    NoText,
    /// The entry address lies before the text segment's base.
    BadEntry,
    /// There are more commands than the header can count.
    TooManyCommands,
    /// The commands are larger than the header can say.
    CommandsTooLarge,
    /// A segment's bytes do not lie inside the file.
    SegmentOutsideFile,
}

/// A segment of the Mach-O file.
#[derive(Clone, Copy, Debug)]
pub struct MachSegmentLayout {
    pub segname: [u8; 16],
    pub vmaddr: u64,
    pub vmsize: u64,
    pub fileoff: u64,
    pub filesize: u64,
    pub maxprot: u32,
    pub initprot: u32,
    pub source_offset: u64,
}

/// What a `MachSegmentLayout` says.
#[verifier::ext_equal]
pub struct SegmentPlan {
    pub segname: Seq<u8>,
    pub vmaddr: u64,
    pub vmsize: u64,
    pub fileoff: u64,
    pub filesize: u64,
    pub maxprot: u32,
    pub initprot: u32,
    pub source_offset: u64,
}

impl View for MachSegmentLayout {
    type V = SegmentPlan;

    open spec fn view(&self) -> SegmentPlan {
        SegmentPlan {
            segname: self.segname@,
            vmaddr: self.vmaddr,
            vmsize: self.vmsize,
            fileoff: self.fileoff,
            filesize: self.filesize,
            maxprot: self.maxprot,
            initprot: self.initprot,
            source_offset: self.source_offset,
        }
    }
}

/// The views of a sequence of segments.
pub open spec fn plans(v: Seq<MachSegmentLayout>) -> Seq<SegmentPlan> {
    Seq::new(v.len(), |i: int| v[i]@)
}

/// The decimal digits of `n`.
pub open spec fn decimal(n: nat) -> Seq<u8>
    decreases n,
{
    if n < 10 {
        seq![(0x30 + n) as u8]
    } else {
        decimal(n / 10).push((0x30 + n % 10) as u8)
    }
}

/// The decimal digits of `n`.
pub fn decimal_digits(n: u64) -> (r: Vec<u8>)
    ensures
        r@ == decimal(n as nat),
    decreases n,
{
    if n < 10 {
        let mut v: Vec<u8> = Vec::new();
        v.push(0x30 + n as u8);
        assert(v@ =~= decimal(n as nat));
        v
    } else {
        let mut v: Vec<u8> = decimal_digits(n / 10);
        v.push(0x30 + (n % 10) as u8);
        v
    }
}

/// `s` cut or padded with zero bytes to sixteen bytes.
pub open spec fn field16(s: Seq<u8>) -> Seq<u8> {
    Seq::new(
        16,
        |i: int|
            if i < s.len() {
                s[i]
            } else {
                0u8
            },
    )
}

/// Makes a sixteen-byte field.
fn make_field(s: &[u8]) -> (r: [u8; 16])
    ensures
        r@ == field16(s@),
{
    let mut f: [u8; 16] = [0u8; 16];
    let mut i: usize = 0;
    while i < 16 && i < s.len()
        invariant
            i <= 16,
            i <= s@.len(),
            f@.len() == 16,
            forall|k: int| 0 <= k < i ==> f@[k] == s@[k],
            forall|k: int| i <= k < 16 ==> f@[k] == 0,
        decreases 16 - i,
    {
        f[i] = s[i];
        i = i + 1;
    }
    assert(f@ =~= field16(s@));
    f
}

/// The name of segment `index`: `__TEXT` if it is executable, else `__DATA` if
/// it is writable, else `__SEG` and its index.
pub open spec fn name_of(index: nat, flags: u32) -> Seq<u8> {
    if flags & 0x1 != 0 {
        field16(seq![0x5f, 0x5f, 0x54, 0x45, 0x58, 0x54])
    } else if flags & 0x2 != 0 {
        field16(seq![0x5f, 0x5f, 0x44, 0x41, 0x54, 0x41])
    } else {
        field16(seq![0x5fu8, 0x5f, 0x53, 0x45, 0x47] + decimal(index))
    }
}

/// The name of segment `index`.
pub fn segment_name(index: u64, flags: u32) -> (r: [u8; 16])
    ensures
        r@ == name_of(index as nat, flags),
{
    if flags & 0x1 != 0 {
        let n: [u8; 6] = [0x5f, 0x5f, 0x54, 0x45, 0x58, 0x54];
        assert(n@ =~= seq![0x5f, 0x5f, 0x54, 0x45, 0x58, 0x54]);
        make_field(n.as_slice())
    } else if flags & 0x2 != 0 {
        let n: [u8; 6] = [0x5f, 0x5f, 0x44, 0x41, 0x54, 0x41];
        assert(n@ =~= seq![0x5f, 0x5f, 0x44, 0x41, 0x54, 0x41]);
        make_field(n.as_slice())
    } else {
        let mut n: Vec<u8> = Vec::new();
        n.push(0x5f);
        n.push(0x5f);
        n.push(0x53);
        n.push(0x45);
        n.push(0x47);
        let d: Vec<u8> = decimal_digits(index);
        bytes::push_bytes(&mut n, &d);
        assert(n@ =~= seq![0x5fu8, 0x5f, 0x53, 0x45, 0x47] + decimal(index as nat));
        make_field(&n)
    }
}

/// The Mach-O protection for ELF permissions: readable is bit 0, writable bit 1
/// and executable bit 2, where ELF has them the other way round.
pub open spec fn prot_of(flags: u32) -> u32 {
    ((if flags & 0x4 != 0 {
        1int
    } else {
        0
    }) + (if flags & 0x2 != 0 {
        2int
    } else {
        0
    }) + (if flags & 0x1 != 0 {
        4int
    } else {
        0
    })) as u32
}

/// The Mach-O protection for ELF permissions.
pub fn vm_prot(flags: u32) -> (r: u32)
    ensures
        r == prot_of(flags),
{
    let mut prot: u32 = 0;
    if flags & 0x4 != 0 {
        prot = prot + 1;
    }
    if flags & 0x2 != 0 {
        prot = prot + 2;
    }
    if flags & 0x1 != 0 {
        prot = prot + 4;
    }
    prot
}

/// Rounds a file offset up to whole pages.
pub fn align_usize(value: u64) -> (r: Result<u64, ConvertError>)
    ensures
        match r {
            Ok(a) => a == align::page_up(value as int) && value + 0xfff <= usize::MAX,
            Err(e) => value + 0xfff > usize::MAX && e == ConvertError::AlignmentOverflow,
        },
{
    match align::page_align(value) {
        None => Err(ConvertError::AlignmentOverflow),
        Some(a) => if value > usize::MAX as u64 - 0xfff {
            Err(ConvertError::AlignmentOverflow)
        } else {
            Ok(a)
        },
    }
}

/// Whether a program header is loaded.
pub open spec fn loadable(s: ElfSegment) -> bool {
    s.p_type == PT_LOAD && s.p_memsz != 0
}

/// The program headers that are loaded.
pub open spec fn loaded(segs: Seq<ElfSegment>) -> Seq<ElfSegment>
    decreases segs.len(),
{
    if segs.len() == 0 {
        Seq::empty()
    } else if loadable(segs.last()) {
        loaded(segs.drop_last()).push(segs.last())
    } else {
        loaded(segs.drop_last())
    }
}

/// Picks the program headers that are loaded.
fn pick_loaded(segs: &Vec<ElfSegment>) -> (r: Vec<ElfSegment>)
    ensures
        r@ == loaded(segs@),
{
    let mut out: Vec<ElfSegment> = Vec::new();
    let mut i: usize = 0;
    assert(segs@.take(0) =~= Seq::<ElfSegment>::empty());
    while i < segs.len()
        invariant
            i <= segs@.len(),
            out@ == loaded(segs@.take(i as int)),
        decreases segs@.len() - i,
    {
        assert(segs@.take(i + 1).drop_last() =~= segs@.take(i as int));
        if segs[i].p_type == PT_LOAD && segs[i].p_memsz != 0 {
            out.push(segs[i]);
        }
        i = i + 1;
    }
    assert(segs@.take(i as int) =~= segs@);
    out
}

/// The size of the commands for `n` segments.
pub open spec fn commands_size(n: int) -> int {
    SEGMENT_SIZE * n + MAIN_SIZE
}

/// Where the file ends once the first `i` of the segments are placed: each at
/// a page boundary behind the one before it, the first behind the commands.
pub open spec fn end_after(segs: Seq<ElfSegment>, i: int) -> Result<int, ConvertError>
    decreases i,
{
    let before = if i <= 0 {
        Ok(HEADER_SIZE + commands_size(segs.len() as int))
    } else {
        end_after(segs, i - 1)
    };
    match before {
        Err(e) => Err(e),
        Ok(end) => if end + 0xfff > usize::MAX {
            Err(ConvertError::AlignmentOverflow)
        } else if i <= 0 {
            Ok(align::page_up(end))
        } else if segs[i - 1].p_offset > usize::MAX {
            Err(ConvertError::ElfOffsetOverflow)
        } else if segs[i - 1].p_filesz > usize::MAX {
            Err(ConvertError::ElfFileSizeOverflow)
        } else if align::page_up(end) + segs[i - 1].p_filesz > usize::MAX {
            Err(ConvertError::FileSizeOverflow)
        } else {
            Ok(align::page_up(end) + segs[i - 1].p_filesz)
        },
    }
}

/// The file offset of segment `i`.
pub open spec fn fileoff(segs: Seq<ElfSegment>, i: int) -> int {
    align::page_up(end_after(segs, i)->Ok_0)
}

/// The plan of segment `i`.
pub open spec fn segment_plan(segs: Seq<ElfSegment>, i: int) -> SegmentPlan {
    SegmentPlan {
        segname: name_of(i as nat, segs[i].p_flags),
        vmaddr: segs[i].p_vaddr,
        vmsize: segs[i].p_memsz,
        fileoff: fileoff(segs, i) as u64,
        filesize: segs[i].p_filesz,
        maxprot: prot_of(segs[i].p_flags),
        initprot: prot_of(segs[i].p_flags),
        source_offset: segs[i].p_offset,
    }
}

/// The last executable segment of the first `n`.
pub open spec fn last_text(segs: Seq<ElfSegment>, n: int) -> Option<int>
    decreases n,
{
    if n <= 0 {
        None
    } else if segs[n - 1].p_flags & 0x1 != 0 {
        Some(n - 1)
    } else {
        last_text(segs, n - 1)
    }
}

/// A number, or zero if it is negative.
pub open spec fn at_least_zero(x: int) -> int {
    if x < 0 {
        0
    } else {
        x
    }
}

/// The layout of a Mach-O file.
pub struct Layout {
    /// The segments, in order.
    pub segments: Vec<MachSegmentLayout>,
    /// The entry point's file offset.
    pub entryoff: u64,
    /// The file's size.
    pub size: u64,
}

/// What a `Layout` says.
#[verifier::ext_equal]
pub struct LayoutView {
    pub segments: Seq<SegmentPlan>,
    pub entryoff: u64,
    pub size: u64,
}

impl View for Layout {
    type V = LayoutView;

    open spec fn view(&self) -> LayoutView {
        LayoutView {
            segments: plans(self.segments@),
            entryoff: self.entryoff,
            size: self.size,
        }
    }
}

/// The layout of the Mach-O file for loaded program headers `segs` and entry
/// address `entry`.
pub open spec fn layout_of(segs: Seq<ElfSegment>, entry: u64) -> Result<LayoutView, ConvertError> {
    let n = segs.len() as int;
    if n == 0 {
        Err(ConvertError::NoLoadSegments)
    } else if commands_size(n) > usize::MAX {
        Err(ConvertError::CommandSizeOverflow)
    } else {
        match end_after(segs, n) {
            Err(e) => Err(e),
            Ok(end) => match last_text(segs, n) {
                None => Err(ConvertError::NoText),
                Some(t) => {
                    let base = at_least_zero(segs[t].p_vaddr - fileoff(segs, t));
                    if entry < base {
                        Err(ConvertError::BadEntry)
                    } else if n + 1 > u32::MAX {
                        Err(ConvertError::TooManyCommands)
                    } else if commands_size(n) > u32::MAX {
                        Err(ConvertError::CommandsTooLarge)
                    } else {
                        Ok(
                            LayoutView {
                                segments: Seq::new(n as nat, |i: int| segment_plan(segs, i)),
                                entryoff: (entry - base) as u64,
                                size: end as u64,
                            },
                        )
                    }
                },
            },
        }
    }
}

/// What an error of the first `i` placements is, it is for all.
proof fn lemma_end_error(segs: Seq<ElfSegment>, i: int, n: int)
    requires
        0 <= i <= n,
        end_after(segs, i) is Err,
    ensures
        end_after(segs, n) == end_after(segs, i),
    decreases n - i,
{
    if i < n {
        lemma_end_error(segs, i, n - 1);
    }
}

/// Lays the Mach-O file out.
pub fn plan_macho(segs: &Vec<ElfSegment>, entry: u64) -> (r: Result<Layout, ConvertError>)
    ensures
        match r {
            Ok(l) => layout_of(segs@, entry) == Ok::<LayoutView, ConvertError>(l@),
            Err(e) => layout_of(segs@, entry) == Err::<LayoutView, ConvertError>(e),
        },
{
    let ghost s = segs@;
    assert(segs@.len() == segs.len());
    if segs.len() == 0 {
        return Err(ConvertError::NoLoadSegments);
    }
    let n: u64 = segs.len() as u64;
    let size: u64 = match n.checked_mul(SEGMENT_SIZE) {
        None => {
            return Err(ConvertError::CommandSizeOverflow);
        },
        Some(x) => match x.checked_add(MAIN_SIZE) {
            None => {
                return Err(ConvertError::CommandSizeOverflow);
            },
            Some(y) => if y > usize::MAX as u64 {
                return Err(ConvertError::CommandSizeOverflow);
            } else {
                y
            },
        },
    };
    let start: u64 = match HEADER_SIZE.checked_add(size) {
        None => {
            proof {
                lemma_end_error(s, 0, n as int);
            }
            return Err(ConvertError::AlignmentOverflow);
        },
        Some(x) => x,
    };
    let mut end: u64 = match align_usize(start) {
        Err(e) => {
            proof {
                lemma_end_error(s, 0, n as int);
            }
            return Err(e);
        },
        Ok(a) => a,
    };
    let mut segments: Vec<MachSegmentLayout> = Vec::new();
    let mut text: Option<(u64, u64)> = None;
    let mut i: usize = 0;
    while i < segs.len()
        invariant
            i <= segs@.len(),
            s == segs@,
            s.len() == n,
            commands_size(n as int) <= usize::MAX,
            n > 0,
            segments@.len() == i,
            forall|k: int| 0 <= k < i ==> #[trigger] segments@[k]@ == segment_plan(s, k),
            end_after(s, i as int) == Ok::<int, ConvertError>(end as int),
            match text {
                None => last_text(s, i as int) is None,
                Some((va, off)) => last_text(s, i as int) matches Some(t) && 0 <= t < i && va
                    == s[t].p_vaddr && off == fileoff(s, t),
            },
        decreases segs@.len() - i,
    {
        let h: ElfSegment = segs[i];
        let at: u64 = match align_usize(end) {
            Err(e) => {
                proof {
                    lemma_end_error(s, i + 1, n as int);
                }
                return Err(e);
            },
            Ok(a) => a,
        };
        if h.p_flags & 0x1 != 0 {
            text = Some((h.p_vaddr, at));
        }
        if h.p_offset > usize::MAX as u64 {
            proof {
                lemma_end_error(s, i + 1, n as int);
            }
            return Err(ConvertError::ElfOffsetOverflow);
        }
        let plan = MachSegmentLayout {
            segname: segment_name(i as u64, h.p_flags),
            vmaddr: h.p_vaddr,
            vmsize: h.p_memsz,
            fileoff: at,
            filesize: h.p_filesz,
            maxprot: vm_prot(h.p_flags),
            initprot: vm_prot(h.p_flags),
            source_offset: h.p_offset,
        };
        assert(plan@ =~= segment_plan(s, i as int));
        segments.push(plan);
        if h.p_filesz > usize::MAX as u64 {
            proof {
                lemma_end_error(s, i + 1, n as int);
            }
            return Err(ConvertError::ElfFileSizeOverflow);
        }
        end = match at.checked_add(h.p_filesz) {
            None => {
                proof {
                    lemma_end_error(s, i + 1, n as int);
                }
                return Err(ConvertError::FileSizeOverflow);
            },
            Some(x) => if x > usize::MAX as u64 {
                proof {
                    lemma_end_error(s, i + 1, n as int);
                }
                return Err(ConvertError::FileSizeOverflow);
            } else {
                x
            },
        };
        i = i + 1;
    }
    let (va, off) = match text {
        None => {
            return Err(ConvertError::NoText);
        },
        Some(t) => t,
    };
    let entryoff: u64 = match entry.checked_sub(va.saturating_sub(off)) {
        None => {
            return Err(ConvertError::BadEntry);
        },
        Some(x) => x,
    };
    if n >= u32::MAX as u64 {
        return Err(ConvertError::TooManyCommands);
    }
    if size > u32::MAX as u64 {
        return Err(ConvertError::CommandsTooLarge);
    }
    let l = Layout { segments, entryoff, size: end };
    assert(l@.segments =~= Seq::new(n as nat, |i: int| segment_plan(s, i)));
    Ok(l)
}

/// A segment command.
#[verifier::opaque]
pub open spec fn segment_bytes(p: SegmentPlan) -> Seq<u8> {
    bytes::le32_bytes(LC_SEGMENT_64) + bytes::le32_bytes(72) + p.segname + bytes::le64_bytes(
        p.vmaddr,
    ) + bytes::le64_bytes(p.vmsize) + bytes::le64_bytes(p.fileoff) + bytes::le64_bytes(p.filesize)
        + bytes::le32_bytes(p.maxprot) + bytes::le32_bytes(p.initprot) + bytes::le32_bytes(0)
        + bytes::le32_bytes(0)
}

/// The entry point command.
#[verifier::opaque]
pub open spec fn main_bytes(entryoff: u64) -> Seq<u8> {
    bytes::le32_bytes(LC_MAIN) + bytes::le32_bytes(24) + bytes::le64_bytes(entryoff)
        + bytes::le64_bytes(0)
}

/// The file header for `n` segments.
#[verifier::opaque]
pub open spec fn header_bytes(n: int) -> Seq<u8> {
    bytes::le32_bytes(MH_MAGIC_64) + bytes::le32_bytes(CPU_TYPE_ARM64) + bytes::le32_bytes(0)
        + bytes::le32_bytes(MH_EXECUTE) + bytes::le32_bytes((n + 1) as u32) + bytes::le32_bytes(
        commands_size(n) as u32,
    ) + bytes::le32_bytes(1) + bytes::le32_bytes(0)
}

/// The first `n` segment commands.
pub open spec fn segments_bytes(segments: Seq<SegmentPlan>, n: int) -> Seq<u8>
    decreases n,
{
    if n <= 0 {
        Seq::empty()
    } else {
        segments_bytes(segments, n - 1) + segment_bytes(segments[n - 1])
    }
}

/// The header and all commands.
pub open spec fn front_bytes(l: LayoutView) -> Seq<u8> {
    header_bytes(l.segments.len() as int) + segments_bytes(
        l.segments,
        l.segments.len() as int,
    ) + main_bytes(l.entryoff)
}

/// `file` padded with zero bytes up to `at`, and `data` behind that.
pub open spec fn placed_at(file: Seq<u8>, at: int, data: Seq<u8>) -> Seq<u8> {
    file + bytes::zeros((at - file.len()) as nat) + data
}

/// The bytes of the source that belong to a segment.
pub open spec fn source_bytes(elf: Seq<u8>, p: SegmentPlan) -> Seq<u8> {
    elf.subrange(p.source_offset as int, p.source_offset + p.filesize)
}

/// The file with the bytes of the first `n` segments in place.
pub open spec fn file_upto(elf: Seq<u8>, l: LayoutView, n: int) -> Seq<u8>
    decreases n,
{
    if n <= 0 {
        front_bytes(l)
    } else {
        placed_at(
            file_upto(elf, l, n - 1),
            l.segments[n - 1].fileoff as int,
            source_bytes(elf, l.segments[n - 1]),
        )
    }
}

/// The whole file.
pub open spec fn macho_bytes(elf: Seq<u8>, l: LayoutView) -> Seq<u8> {
    file_upto(elf, l, l.segments.len() as int)
}

/// Whether the bytes of every segment lie inside the source.
pub open spec fn inside(elf: Seq<u8>, l: LayoutView) -> bool {
    forall|i: int|
        0 <= i < l.segments.len() ==> (#[trigger] l.segments[i]).source_offset
            + l.segments[i].filesize <= elf.len()
}

/// Whether the segments lie at page boundaries, behind each other and behind
/// the commands.
pub open spec fn ordered(l: LayoutView) -> bool {
    &&& l.size <= usize::MAX
    &&& l.segments.len() < u32::MAX
    &&& commands_size(l.segments.len() as int) <= u32::MAX
    &&& forall|i: int|
        0 <= i < l.segments.len() ==> {
            let at = (#[trigger] l.segments[i]).fileoff as int;
            &&& l.segments[i].segname.len() == 16
            &&& at + l.segments[i].filesize <= l.size
            &&& at % 0x1000 == 0
            &&& at >= end_before(l, i)
        }
}

/// Where the file ends before segment `i` is placed.
pub open spec fn end_before(l: LayoutView, i: int) -> int {
    if i <= 0 {
        HEADER_SIZE + commands_size(l.segments.len() as int)
    } else {
        l.segments[i - 1].fileoff + l.segments[i - 1].filesize
    }
}

/// Placements only grow.
pub proof fn lemma_end_grows(segs: Seq<ElfSegment>, i: int, n: int)
    requires
        0 <= i <= n,
        end_after(segs, n) is Ok,
    ensures
        end_after(segs, i) is Ok,
        end_after(segs, i)->Ok_0 <= end_after(segs, n)->Ok_0,
        end_after(segs, i)->Ok_0 >= HEADER_SIZE + commands_size(segs.len() as int),
        i < n ==> fileoff(segs, i) + segs[i].p_filesz == end_after(segs, i + 1)->Ok_0,
        i < n ==> fileoff(segs, i) + 0 <= usize::MAX,
        end_after(segs, n)->Ok_0 <= usize::MAX,
    decreases n,
{
    if i < n {
        lemma_end_grows(segs, i, n - 1);
        if i < n - 1 {
        }
    } else if n > 0 {
        lemma_end_grows(segs, n - 1, n - 1);
    }
}

/// A layout that was planned is in order, and ends with its last segment.
pub proof fn lemma_layout_ordered(segs: Seq<ElfSegment>, entry: u64, l: LayoutView)
    requires
        layout_of(segs, entry) == Ok::<LayoutView, ConvertError>(l),
    ensures
        l.segments.len() == segs.len(),
        l.segments.len() > 0,
        ordered(l),
        l.size == end_before(l, l.segments.len() as int),
{
    let n = segs.len() as int;
    lemma_end_grows(segs, n, n);
    lemma_end_grows(segs, n - 1, n);
    assert(l.segments[n - 1] == segment_plan(segs, n - 1));
    assert forall|i: int| 0 <= i < l.segments.len() implies {
        let at = (#[trigger] l.segments[i]).fileoff as int;
        &&& l.segments[i].segname.len() == 16
        &&& at + l.segments[i].filesize <= l.size
        &&& at % 0x1000 == 0
        &&& at >= end_before(l, i)
    } by {
        assert(l.segments[i] == segment_plan(segs, i));
        lemma_end_grows(segs, i, n);
        lemma_end_grows(segs, i + 1, n);
        if i > 0 {
            assert(l.segments[i - 1] == segment_plan(segs, i - 1));
            lemma_end_grows(segs, i - 1, n);
        }
    }
}

/// The commands have the sizes that their headers say.
proof fn lemma_front_len(l: LayoutView, n: int)
    requires
        0 <= n <= l.segments.len(),
        forall|i: int| 0 <= i < l.segments.len() ==> (#[trigger] l.segments[i]).segname.len() == 16,
    ensures
        segments_bytes(l.segments, n).len() == 72 * n,
        n == l.segments.len() ==> front_bytes(l).len() == HEADER_SIZE + commands_size(n),
    decreases n,
{
    if n > 0 {
        lemma_front_len(l, n - 1);
        assert(l.segments[n - 1].segname.len() == 16);
    }
    reveal(segment_bytes);
    reveal(main_bytes);
    reveal(header_bytes);
}

/// The file ends where its last segment ends.
proof fn lemma_file_len(elf: Seq<u8>, l: LayoutView, n: int)
    requires
        ordered(l),
        inside(elf, l),
        0 <= n <= l.segments.len(),
    ensures
        file_upto(elf, l, n).len() == end_before(l, n),
        file_upto(elf, l, n).take(end_before(l, 0)) == front_bytes(l),
        end_before(l, 0) <= end_before(l, n),
    decreases n,
{
    lemma_front_len(l, l.segments.len() as int);
    if n > 0 {
        lemma_file_len(elf, l, n - 1);
        assert(l.segments[n - 1].fileoff >= end_before(l, n - 1));
        assert(file_upto(elf, l, n).take(end_before(l, 0)) =~= file_upto(elf, l, n - 1).take(
            end_before(l, 0),
        ));
    } else {
        assert(front_bytes(l).take(end_before(l, 0)) =~= front_bytes(l));
    }
}

/// The bytes of a segment stand at its file offset.
proof fn lemma_file_data(elf: Seq<u8>, l: LayoutView, i: int, n: int)
    requires
        ordered(l),
        inside(elf, l),
        0 <= i < n <= l.segments.len(),
    ensures
        ({
            let p = l.segments[i];
            &&& p.fileoff + p.filesize <= file_upto(elf, l, n).len()
            &&& file_upto(elf, l, n).subrange(p.fileoff as int, p.fileoff + p.filesize)
                == source_bytes(elf, p)
        }),
    decreases n,
{
    let p = l.segments[i];
    let whole = file_upto(elf, l, n);
    lemma_file_len(elf, l, n);
    lemma_file_len(elf, l, n - 1);
    assert(l.segments[n - 1].fileoff >= end_before(l, n - 1));
    if i < n - 1 {
        lemma_file_data(elf, l, i, n - 1);
        let before = file_upto(elf, l, n - 1);
        assert(whole.subrange(p.fileoff as int, p.fileoff + p.filesize) =~= before.subrange(
            p.fileoff as int,
            p.fileoff + p.filesize,
        ));
    } else {
        assert(whole.subrange(p.fileoff as int, p.fileoff + p.filesize) =~= source_bytes(elf, p));
    }
}

/// Appends a segment command.
fn push_segment(out: &mut Vec<u8>, p: &MachSegmentLayout)
    ensures
        final(out)@ == old(out)@ + segment_bytes(p@),
{
    let ghost before = out@;
    reveal(segment_bytes);
    bytes::push_le32(out, LC_SEGMENT_64);
    bytes::push_le32(out, 72);
    bytes::push_bytes(out, p.segname.as_slice());
    bytes::push_le64(out, p.vmaddr);
    bytes::push_le64(out, p.vmsize);
    bytes::push_le64(out, p.fileoff);
    bytes::push_le64(out, p.filesize);
    bytes::push_le32(out, p.maxprot);
    bytes::push_le32(out, p.initprot);
    bytes::push_le32(out, 0);
    bytes::push_le32(out, 0);
    assert(out@ =~= before + segment_bytes(p@));
}

/// Writes the header and all commands.
fn emit_front(l: &Layout) -> (r: Vec<u8>)
    requires
        ordered(l@),
    ensures
        r@ == front_bytes(l@),
{
    let ghost view = l@;
    assert(l.segments@.len() == l.segments.len());
    let n: u32 = l.segments.len() as u32;
    let mut out: Vec<u8> = Vec::new();
    bytes::push_le32(&mut out, MH_MAGIC_64);
    bytes::push_le32(&mut out, CPU_TYPE_ARM64);
    bytes::push_le32(&mut out, 0);
    bytes::push_le32(&mut out, MH_EXECUTE);
    bytes::push_le32(&mut out, n + 1);
    bytes::push_le32(&mut out, 72 * n + 24);
    bytes::push_le32(&mut out, 1);
    bytes::push_le32(&mut out, 0);
    assert(out@ =~= header_bytes(n as int)) by {
        reveal(header_bytes);
    }
    let mut i: usize = 0;
    assert(out@ =~= header_bytes(n as int) + segments_bytes(view.segments, 0));
    while i < l.segments.len()
        invariant
            i <= l.segments@.len(),
            view == l@,
            out@ == header_bytes(n as int) + segments_bytes(view.segments, i as int),
        decreases l.segments@.len() - i,
    {
        push_segment(&mut out, &l.segments[i]);
        proof {
            assert(view.segments[i as int] == l.segments@[i as int]@);
            assert(out@ =~= header_bytes(n as int) + segments_bytes(view.segments, i + 1));
        }
        i = i + 1;
    }
    bytes::push_le32(&mut out, LC_MAIN);
    bytes::push_le32(&mut out, 24);
    bytes::push_le64(&mut out, l.entryoff);
    bytes::push_le64(&mut out, 0);
    assert(out@ =~= front_bytes(view)) by {
        reveal(main_bytes);
    }
    out
}

/// Writes the Mach-O file that was laid out for `elf_bytes`.
pub fn emit_macho(elf_bytes: &[u8], l: &Layout) -> (r: Vec<u8>)
    requires
        ordered(l@),
        inside(elf_bytes@, l@),
    ensures
        r@ == macho_bytes(elf_bytes@, l@),
{
    let ghost view = l@;
    assert(elf_bytes@.len() == elf_bytes.len());
    let mut out: Vec<u8> = emit_front(l);
    let mut i: usize = 0;
    while i < l.segments.len()
        invariant
            i <= l.segments@.len(),
            view == l@,
            ordered(view),
            inside(elf_bytes@, view),
            elf_bytes@.len() == elf_bytes.len(),
            out@ == file_upto(elf_bytes@, view, i as int),
        decreases l.segments@.len() - i,
    {
        let p: &MachSegmentLayout = &l.segments[i];
        proof {
            assert(view.segments[i as int] == p@);
            lemma_file_len(elf_bytes@, view, i as int);
            assert(view.segments[i as int].fileoff >= end_before(view, i as int));
            assert(out@.len() == out.len());
        }
        let pad: u64 = p.fileoff - out.len() as u64;
        bytes::push_zeros(&mut out, pad as usize);
        let from: usize = p.source_offset as usize;
        bytes::push_bytes(&mut out, &elf_bytes[from..from + p.filesize as usize]);
        i = i + 1;
    }
    out
}

/// Whether the bytes of every segment lie inside the source.
fn check_inside(elf_bytes: &[u8], l: &Layout) -> (r: bool)
    ensures
        r == inside(elf_bytes@, l@),
{
    let ghost view = l@;
    assert(elf_bytes@.len() == elf_bytes.len());
    let len: u64 = elf_bytes.len() as u64;
    let mut i: usize = 0;
    while i < l.segments.len()
        invariant
            i <= l.segments@.len(),
            view == l@,
            len == elf_bytes@.len(),
            forall|k: int|
                0 <= k < i ==> (#[trigger] view.segments[k]).source_offset
                    + view.segments[k].filesize <= elf_bytes@.len(),
        decreases l.segments@.len() - i,
    {
        let p: &MachSegmentLayout = &l.segments[i];
        assert(view.segments[i as int] == p@);
        match p.source_offset.checked_add(p.filesize) {
            None => {
                return false;
            },
            Some(end) => {
                if end > len {
                    return false;
                }
            },
        }
        i = i + 1;
    }
    true
}

/// Turns an ELF executable into a Mach-O executable: its loadable segments at
/// page boundaries behind the commands that describe them.
pub fn convert_elf_to_macho(elf_bytes: &[u8]) -> (r: Result<Vec<u8>, ConvertError>)
    ensures
        !elf::elf_parses(elf_bytes@) <==> r == Err::<Vec<u8>, ConvertError>(ConvertError::NotElf),
        elf::elf_parses(elf_bytes@) ==> ({
            let segs = loaded(elf::headers(elf_bytes@));
            match layout_of(segs, bytes::le64(elf_bytes@, 24) as u64) {
                Err(e) => r == Err::<Vec<u8>, ConvertError>(e),
                Ok(l) => if inside(elf_bytes@, l) {
                    r matches Ok(v) && v@ == macho_bytes(elf_bytes@, l)
                } else {
                    r == Err::<Vec<u8>, ConvertError>(ConvertError::SegmentOutsideFile)
                },
            }
        }),
{
    let headers: Vec<ElfSegment> = match elf::elf_segments(elf_bytes) {
        None => {
            return Err(ConvertError::NotElf);
        },
        Some(h) => h,
    };
    let entry: u64 = match elf::elf_entry(elf_bytes) {
        None => {
            return Err(ConvertError::NotElf);
        },
        Some(e) => e,
    };
    let segs: Vec<ElfSegment> = pick_loaded(&headers);
    proof {
        lemma_no_not_elf(segs@, entry);
    }
    let l: Layout = match plan_macho(&segs, entry) {
        Err(e) => {
            return Err(e);
        },
        Ok(l) => l,
    };
    proof {
        lemma_layout_ordered(segs@, entry, l@);
    }
    if !check_inside(elf_bytes, &l) {
        return Err(ConvertError::SegmentOutsideFile);
    }
    Ok(emit_macho(elf_bytes, &l))
}

/// Laying out never reports a file that is no ELF file.
proof fn lemma_no_not_elf(segs: Seq<ElfSegment>, entry: u64)
    ensures
        layout_of(segs, entry) != Err::<LayoutView, ConvertError>(ConvertError::NotElf),
{
    lemma_end_not_elf(segs, segs.len() as int);
}

proof fn lemma_end_not_elf(segs: Seq<ElfSegment>, i: int)
    ensures
        end_after(segs, i) != Err::<int, ConvertError>(ConvertError::NotElf),
    decreases i,
{
    if i > 0 {
        lemma_end_not_elf(segs, i - 1);
    }
}

/// A segment command reads back as the segment that it was written for.
pub proof fn lemma_segment_reads(file: Seq<u8>, p: SegmentPlan)
    requires
        p.segname.len() == 16,
    ensures
        ({
            let raw = segment_bytes(p);
            let s = records::segment_of(file, raw);
            &&& raw.len() == 72
            &&& bytes::le32(raw, 0) == LC_SEGMENT_64
            &&& bytes::le32(raw, 4) == 72
            &&& raw.subrange(8, 24) == p.segname
            &&& s.vmaddr == p.vmaddr
            &&& s.vmsize == p.vmsize
            &&& s.file_range == (p.fileoff, p.filesize)
            &&& s.maxprot == p.maxprot
            &&& s.initprot == p.initprot
            &&& s.data == records::file_bytes(file, p.fileoff as int, p.filesize as int)
            &&& bytes::le32(raw, 64) == 0
        }),
{
    reveal(segment_bytes);
    let raw = segment_bytes(p);
    bytes::lemma_le32_roundtrip(LC_SEGMENT_64);
    bytes::lemma_le32_roundtrip(72);
    bytes::lemma_le32_roundtrip(p.maxprot);
    bytes::lemma_le32_roundtrip(p.initprot);
    bytes::lemma_le32_roundtrip(0);
    bytes::lemma_le64_roundtrip(p.vmaddr);
    bytes::lemma_le64_roundtrip(p.vmsize);
    bytes::lemma_le64_roundtrip(p.fileoff);
    bytes::lemma_le64_roundtrip(p.filesize);
    bytes::lemma_le_window(raw, 0, bytes::le32_bytes(LC_SEGMENT_64), 0, 4);
    bytes::lemma_le_window(raw, 4, bytes::le32_bytes(72), 0, 4);
    bytes::lemma_le_window(raw, 24, bytes::le64_bytes(p.vmaddr), 0, 8);
    bytes::lemma_le_window(raw, 32, bytes::le64_bytes(p.vmsize), 0, 8);
    bytes::lemma_le_window(raw, 40, bytes::le64_bytes(p.fileoff), 0, 8);
    bytes::lemma_le_window(raw, 48, bytes::le64_bytes(p.filesize), 0, 8);
    bytes::lemma_le_window(raw, 56, bytes::le32_bytes(p.maxprot), 0, 4);
    bytes::lemma_le_window(raw, 60, bytes::le32_bytes(p.initprot), 0, 4);
    bytes::lemma_le_window(raw, 64, bytes::le32_bytes(0), 0, 4);
    assert(raw.subrange(8, 24) =~= p.segname);
}

/// The entry point command reads back.
proof fn lemma_main_reads(entryoff: u64)
    ensures
        main_bytes(entryoff).len() == 24,
        bytes::le32(main_bytes(entryoff), 0) == LC_MAIN,
        bytes::le32(main_bytes(entryoff), 4) == 24,
        load_cmd::main_of(main_bytes(entryoff)) == Some(entryoff),
{
    reveal(main_bytes);
    let raw = main_bytes(entryoff);
    bytes::lemma_le32_roundtrip(LC_MAIN);
    bytes::lemma_le32_roundtrip(24);
    bytes::lemma_le64_roundtrip(entryoff);
    bytes::lemma_le_window(raw, 0, bytes::le32_bytes(LC_MAIN), 0, 4);
    bytes::lemma_le_window(raw, 4, bytes::le32_bytes(24), 0, 4);
    bytes::lemma_le_window(raw, 8, bytes::le64_bytes(entryoff), 0, 8);
}

/// The commands of a layout: one per segment, then the entry point.
pub open spec fn commands(l: LayoutView) -> Seq<Seq<u8>> {
    Seq::new(l.segments.len(), |i: int| segment_bytes(l.segments[i])).push(main_bytes(l.entryoff))
}

/// The table of commands holds segment command `i` at its place.
proof fn lemma_table_at(l: LayoutView, i: int, n: int)
    requires
        0 <= i < n <= l.segments.len(),
        forall|k: int| 0 <= k < l.segments.len() ==> (#[trigger] l.segments[k]).segname.len() == 16,
    ensures
        segments_bytes(l.segments, n).len() == 72 * n,
        segments_bytes(l.segments, n).subrange(72 * i, 72 * i + 72) == segment_bytes(
            l.segments[i],
        ),
    decreases n,
{
    lemma_front_len(l, n);
    lemma_front_len(l, n - 1);
    assert(l.segments[i].segname.len() == 16);
    assert(l.segments[n - 1].segname.len() == 16);
    let whole = segments_bytes(l.segments, n);
    let before = segments_bytes(l.segments, n - 1);
    if i < n - 1 {
        lemma_table_at(l, i, n - 1);
        assert(whole.subrange(72 * i, 72 * i + 72) =~= before.subrange(72 * i, 72 * i + 72));
    } else {
        assert(whole.subrange(72 * i, 72 * i + 72) =~= segment_bytes(l.segments[i]));
    }
}

/// Reading commands from `c` and what follows it gives `c` first.
proof fn lemma_command_first(c: Seq<u8>, tail: Seq<u8>, m: int)
    requires
        m > 0,
        c.len() >= 8,
        bytes::le32(c, 4) == c.len(),
    ensures
        records::commands_in(c + tail, m) == seq![c] + records::commands_in(tail, m - 1),
{
    let rest = c + tail;
    bytes::lemma_le_window(rest, 4, c, 4, 4);
    assert(rest.take(c.len() as int) =~= c);
    assert(rest.skip(c.len() as int) =~= tail);
}

/// From segment command `i` on, the table is that command and the rest.
proof fn lemma_table_split(l: LayoutView, table: Seq<u8>, i: int)
    requires
        0 <= i < l.segments.len(),
        forall|k: int| 0 <= k < l.segments.len() ==> (#[trigger] l.segments[k]).segname.len() == 16,
        table == segments_bytes(l.segments, l.segments.len() as int) + main_bytes(l.entryoff),
    ensures
        table.skip(72 * i) == segment_bytes(l.segments[i]) + table.skip(72 * (i + 1)),
{
    let n = l.segments.len() as int;
    lemma_table_at(l, i, n);
    let all = segments_bytes(l.segments, n);
    let c = all.subrange(72 * i, 72 * i + 72);
    assert(table.skip(72 * i) =~= c + table.skip(72 * (i + 1)));
}

/// Reading the table of commands from segment command `i` on gives the commands
/// from there on.
proof fn lemma_commands_from(l: LayoutView, table: Seq<u8>, i: int)
    requires
        0 <= i <= l.segments.len(),
        forall|k: int| 0 <= k < l.segments.len() ==> (#[trigger] l.segments[k]).segname.len() == 16,
        table == segments_bytes(l.segments, l.segments.len() as int) + main_bytes(l.entryoff),
    ensures
        records::commands_in(table.skip(72 * i), l.segments.len() + 1 - i) == commands(l).skip(i),
    decreases l.segments.len() - i,
{
    let n = l.segments.len() as int;
    if i < n {
        lemma_commands_from(l, table, i + 1);
        let c = segment_bytes(l.segments[i]);
        assert(c.len() == 72 && bytes::le32(c, 4) == 72) by {
            assert(l.segments[i].segname.len() == 16);
            lemma_segment_reads(Seq::empty(), l.segments[i]);
        }
        lemma_table_split(l, table, i);
        lemma_command_first(c, table.skip(72 * (i + 1)), n + 1 - i);
        assert(commands(l)[i] == c);
        assert(seq![c] + commands(l).skip(i + 1) =~= commands(l).skip(i));
    } else {
        let c = main_bytes(l.entryoff);
        assert(c.len() == 24 && bytes::le32(c, 4) == 24) by {
            lemma_main_reads(l.entryoff);
        }
        lemma_front_len(l, n);
        assert(table.skip(72 * i) =~= c + Seq::<u8>::empty());
        lemma_command_first(c, Seq::empty(), 1);
        assert(seq![c] + Seq::<Seq<u8>>::empty() =~= commands(l).skip(i));
    }
}

/// A file that was converted reads back as it was laid out: its load commands
/// are the segments in order and the entry point, and the bytes of each segment
/// are those of the source.
pub proof fn law_converted_reads_back(elf: Seq<u8>, segs: Seq<ElfSegment>, entry: u64, l: LayoutView)
    requires
        layout_of(segs, entry) == Ok::<LayoutView, ConvertError>(l),
        inside(elf, l),
    ensures
        ({
            let file = macho_bytes(elf, l);
            &&& file.len() == l.size
            &&& bytes::le32(file, 0) == MH_MAGIC_64
            &&& records::load_commands(file) == Some(commands(l))
            &&& load_cmd::main_of(commands(l)[segs.len() as int]) == Some(l.entryoff)
            &&& forall|i: int|
                0 <= i < segs.len() ==> {
                    let s = records::segment_of(file, #[trigger] commands(l)[i]);
                    &&& s.vmaddr == segs[i].p_vaddr
                    &&& s.vmsize == segs[i].p_memsz
                    &&& s.file_range.1 == segs[i].p_filesz
                    &&& s.data == Some(
                        elf.subrange(
                            segs[i].p_offset as int,
                            segs[i].p_offset + segs[i].p_filesz,
                        ),
                    )
                }
        }),
{
    let n = segs.len() as int;
    let file = macho_bytes(elf, l);
    lemma_layout_ordered(segs, entry, l);
    lemma_file_len(elf, l, n);
    lemma_front_len(l, n);
    lemma_main_reads(l.entryoff);
    let table = segments_bytes(l.segments, n) + main_bytes(l.entryoff);
    let front = front_bytes(l);
    let h = header_bytes(n);
    assert(front =~= h + table);
    lemma_header_reads(n);
    assert forall|k: int| 0 <= k < front.len() implies file[k] == front[k] by {
        assert(file.take(end_before(l, 0))[k] == file[k]);
    }
    assert forall|k: int| 0 <= k < 4 implies file[0 + k] == #[trigger] h[0 + k] by {
        assert(file[k] == front[k]);
    }
    assert forall|k: int| 0 <= k < 4 implies file[16 + k] == #[trigger] h[16 + k] by {
        assert(file[16 + k] == front[16 + k]);
    }
    assert forall|k: int| 0 <= k < 4 implies file[20 + k] == #[trigger] h[20 + k] by {
        assert(file[20 + k] == front[20 + k]);
    }
    bytes::lemma_le_window(file, 0, h, 0, 4);
    bytes::lemma_le_window(file, 16, h, 16, 4);
    bytes::lemma_le_window(file, 20, h, 20, 4);
    assert(file.subrange(32, 32 + commands_size(n)) =~= table) by {
        assert forall|k: int| 0 <= k < table.len() implies file[32 + k] == table[k] by {
            assert(file[32 + k] == front[32 + k]);
        }
    }
    lemma_commands_from(l, table, 0);
    assert(table.skip(0) =~= table);
    assert(commands(l).skip(0) =~= commands(l));
    assert forall|i: int| 0 <= i < segs.len() implies {
        let s = records::segment_of(file, #[trigger] commands(l)[i]);
        &&& s.vmaddr == segs[i].p_vaddr
        &&& s.vmsize == segs[i].p_memsz
        &&& s.file_range.1 == segs[i].p_filesz
        &&& s.data == Some(
            elf.subrange(segs[i].p_offset as int, segs[i].p_offset + segs[i].p_filesz),
        )
    } by {
        assert(l.segments[i] == segment_plan(segs, i));
        lemma_segment_reads(file, l.segments[i]);
        lemma_file_data(elf, l, i, n);
        if segs[i].p_filesz == 0 {
            assert(elf.subrange(segs[i].p_offset as int, segs[i].p_offset + segs[i].p_filesz)
                =~= Seq::<u8>::empty());
        }
    }
}

/// The file header reads back.
proof fn lemma_header_reads(n: int)
    requires
        0 <= n < u32::MAX,
        0 <= commands_size(n) <= u32::MAX,
    ensures
        header_bytes(n).len() == 32,
        bytes::le32(header_bytes(n), 0) == MH_MAGIC_64,
        bytes::le32(header_bytes(n), 16) == n + 1,
        bytes::le32(header_bytes(n), 20) == commands_size(n),
{
    reveal(header_bytes);
    let h = header_bytes(n);
    let a = bytes::le32_bytes(MH_MAGIC_64);
    let b = bytes::le32_bytes((n + 1) as u32);
    let c = bytes::le32_bytes(commands_size(n) as u32);
    bytes::lemma_le32_roundtrip(MH_MAGIC_64);
    bytes::lemma_le32_roundtrip((n + 1) as u32);
    bytes::lemma_le32_roundtrip(commands_size(n) as u32);
    bytes::lemma_le_window(h, 0, a, 0, 4);
    bytes::lemma_le_window(h, 16, b, 0, 4);
    bytes::lemma_le_window(h, 20, c, 0, 4);
}

} // verus!
