//! The kernel image that the boot loader starts, and what `goblin` finds in it.

use crate::bytes;
use crate::loader::records;
use goblin::elf::Elf;
use goblin::mach;
use vstd::prelude::*;

verus! {

/// Load command of a 32-bit segment.
pub const LC_SEGMENT: u32 = 0x1;

/// Load command of a 64-bit segment.
pub const LC_SEGMENT_64: u32 = 0x19;

/// Load command of the entry point.
pub const LC_MAIN: u32 = 0x8000_0028;

/// The file is not what it is taken for.
#[derive(Clone, Copy, Debug, PartialEq, Eq, Structural)]
pub struct ParseError;

/// A segment of a kernel image.
#[derive(Clone, Copy)]
pub struct KernelSegment<'a> {
    /// Link-time address.
    pub vmaddr: u64,
    /// Size in memory.
    pub vmsize: u64,
    /// Offset in the file.
    pub fileoff: u64,
    /// Size in the file.
    pub filesize: u64,
    /// The file bytes.
    pub data: &'a [u8],
}

/// A kernel image.
pub struct KernelImage<'a> {
    /// Address of the entry point.
    pub entry: u64,
    /// The segments, in the order of their commands.
    pub segments: Vec<KernelSegment<'a>>,
}

/// What a `KernelSegment` says.
#[verifier::ext_equal]
pub struct SegmentView {
    pub vmaddr: u64,
    pub vmsize: u64,
    pub fileoff: u64,
    pub filesize: u64,
    pub data: Seq<u8>,
}

impl<'a> View for KernelSegment<'a> {
    type V = SegmentView;

    open spec fn view(&self) -> SegmentView {
        SegmentView {
            vmaddr: self.vmaddr,
            vmsize: self.vmsize,
            fileoff: self.fileoff,
            filesize: self.filesize,
            data: self.data@,
        }
    }
}

/// The views of a sequence of segments.
pub open spec fn segment_views(v: Seq<KernelSegment>) -> Seq<SegmentView> {
    Seq::new(v.len(), |i: int| v[i]@)
}

/// Byte order and width of a Mach-O header.
#[derive(Clone, Copy, Debug, PartialEq, Eq, Structural)]
pub struct Format {
    /// Whether numbers are little-endian.
    pub little: bool,
    /// Whether the header is that of a 64-bit file.
    pub wide: bool,
}

/// The format that the magic number of a file gives, if it is that of a Mach-O
/// file of one architecture and a header fits.
pub open spec fn format_of(file: Seq<u8>) -> Option<Format> {
    let magic = bytes::be32(file, 0);
    if file.len() < 32 {
        None
    } else if magic == 0xcffa_edfe {
        Some(Format { little: true, wide: true })
    } else if magic == 0xcefa_edfe {
        Some(Format { little: true, wide: false })
    } else if magic == 0xfeed_facf {
        Some(Format { little: false, wide: true })
    } else if magic == 0xfeed_face {
        Some(Format { little: false, wide: false })
    } else {
        None
    }
}

/// The 32-bit number at `at`.
pub open spec fn num32(file: Seq<u8>, at: int, little: bool) -> int {
    if little {
        bytes::le32(file, at)
    } else {
        bytes::be32(file, at)
    }
}

/// The 64-bit number at `at`.
pub open spec fn num64(file: Seq<u8>, at: int, little: bool) -> int {
    if little {
        bytes::le64(file, at)
    } else {
        bytes::be64(file, at)
    }
}

/// How many bytes the load command at `at` has at the least: those of its kind
/// for a segment or an entry point, else the two words that every command has.
pub open spec fn least_size(cmd: int) -> int {
    if cmd == LC_SEGMENT {
        56
    } else if cmd == LC_SEGMENT_64 {
        72
    } else if cmd == LC_MAIN {
        24
    } else {
        8
    }
}

/// Whether a load command at `at` lies inside the file.
pub open spec fn command_fits(file: Seq<u8>, at: int, little: bool) -> bool {
    &&& at + 8 <= file.len()
    &&& at + num32(file, at + 4, little) <= file.len()
    &&& at + least_size(num32(file, at, little)) <= file.len()
}

/// Whether the load command at `at` is a segment.
pub open spec fn is_segment(file: Seq<u8>, at: int, little: bool) -> bool {
    num32(file, at, little) == LC_SEGMENT || num32(file, at, little) == LC_SEGMENT_64
}

/// The segment that the load command at `at` describes. Its bytes are found by
/// the offset and the size as machine words.
pub open spec fn segment_at(file: Seq<u8>, at: int, little: bool) -> SegmentView {
    let (vmaddr, vmsize, fileoff, filesize) = if num32(file, at, little) == LC_SEGMENT_64 {
        (
            num64(file, at + 24, little),
            num64(file, at + 32, little),
            num64(file, at + 40, little),
            num64(file, at + 48, little),
        )
    } else {
        (
            num32(file, at + 24, little),
            num32(file, at + 28, little),
            num32(file, at + 32, little),
            num32(file, at + 36, little),
        )
    };
    SegmentView {
        vmaddr: vmaddr as u64,
        vmsize: vmsize as u64,
        fileoff: fileoff as u64,
        filesize: filesize as u64,
        data: match records::file_bytes(
            file,
            fileoff as usize as int,
            filesize as usize as int,
        ) {
            Some(data) => data,
            None => Seq::empty(),
        },
    }
}

/// Whether the load command at `at` is a segment whose name starts as that of
/// the text segment, closing zero byte and all.
pub open spec fn is_text(file: Seq<u8>, at: int, little: bool) -> bool {
    is_segment(file, at, little) && file.subrange(at + 8, at + 15) == seq![
        0x5fu8,
        0x5fu8,
        0x54u8,
        0x45u8,
        0x58u8,
        0x54u8,
        0u8,
    ]
}

/// The segments of the `n` load commands from `at` on, in order.
pub open spec fn segments_from(file: Seq<u8>, at: int, n: int, little: bool) -> Seq<SegmentView>
    decreases n,
{
    if n <= 0 {
        Seq::empty()
    } else {
        let rest = segments_from(file, at + num32(file, at + 4, little), n - 1, little);
        if is_segment(file, at, little) {
            seq![segment_at(file, at, little)] + rest
        } else {
            rest
        }
    }
}

/// Where a program starts.
#[verifier::ext_equal]
pub struct Start {
    /// The offset in the first entry point command.
    pub main: Option<int>,
    /// The address and the file offset of the first text segment.
    pub text: Option<(int, int)>,
}

/// Where the `n` load commands from `at` on start the program; none if one of
/// them leaves the file.
pub open spec fn start_from(file: Seq<u8>, at: int, n: int, little: bool) -> Option<Start>
    decreases n,
{
    if n <= 0 {
        Some(Start { main: None, text: None })
    } else if !command_fits(file, at, little) {
        None
    } else {
        match start_from(file, at + num32(file, at + 4, little), n - 1, little) {
            None => None,
            Some(rest) => Some(first_of(start_at(file, at, little), rest)),
        }
    }
}

/// What the load command at `at` alone says of the start.
pub open spec fn start_at(file: Seq<u8>, at: int, little: bool) -> Start {
    Start {
        main: if num32(file, at, little) == LC_MAIN {
            Some(num64(file, at + 8, little))
        } else {
            None
        },
        text: if is_text(file, at, little) {
            let s = segment_at(file, at, little);
            Some((s.vmaddr as int, s.fileoff as int))
        } else {
            None
        },
    }
}

/// What `a` says of the start, and `b` where `a` says nothing.
pub open spec fn first_of(a: Start, b: Start) -> Start {
    Start {
        main: if a.main is Some {
            a.main
        } else {
            b.main
        },
        text: if a.text is Some {
            a.text
        } else {
            b.text
        },
    }
}

/// Where the first load command of a file of format `f` is.
pub open spec fn first_command(f: Format) -> int {
    if f.wide {
        32
    } else {
        28
    }
}

/// Where the load commands of a file start the program; none if the file is not
/// of one of the formats or a command leaves it.
pub open spec fn start_of(file: Seq<u8>) -> Option<Start> {
    match format_of(file) {
        Some(f) => start_from(file, first_command(f), num32(file, 16, f.little), f.little),
        None => None,
    }
}

/// The segments of a file.
pub open spec fn kernel_segments(file: Seq<u8>) -> Seq<SegmentView> {
    match format_of(file) {
        Some(f) => segments_from(file, first_command(f), num32(file, 16, f.little), f.little),
        None => Seq::empty(),
    }
}

/// Whether the entry point of a file is an address: an entry point command gives
/// an offset, counted from where the start of the file would lie in memory by
/// its text segment.
pub open spec fn entry_fits(file: Seq<u8>) -> bool {
    match start_of(file) {
        Some(Start { main: Some(off), text: Some((vmaddr, fileoff)) }) => {
            0 <= vmaddr - fileoff && vmaddr - fileoff + off <= u64::MAX
        },
        _ => true,
    }
}

/// What `goblin` makes of `file` as a Mach-O file on a machine whose words have
/// `bits` bits: its entry point, or nothing if it refuses the file.
pub uninterp spec fn goblin_macho(file: Seq<u8>, bits: u32) -> Option<u64>;

/// What `goblin` makes of `file` as an ELF file on a machine whose words have
/// `bits` bits: its entry point, or nothing if it refuses the file.
pub uninterp spec fn goblin_elf(file: Seq<u8>, bits: u32) -> Option<u64>;

/// Wraps `goblin::mach::MachO::parse`, which subtracts and adds unchecked to
/// find the entry point. Stated of a file that it accepts: its segments are
/// those of the load commands, and an entry point command gives an offset from
/// the text segment. What it checks, and the entry point that it takes out of a
/// thread command, are part of the name. It counts offsets in machine words, so
/// that the name has their width.
#[verifier::external_body]
fn parse_macho<'a>(file: &'a [u8]) -> (r: Option<KernelImage<'a>>)
    requires
        entry_fits(file@),
    ensures
        match r {
            Some(image) => {
                &&& goblin_macho(file@, usize::BITS) == Some(image.entry)
                &&& segment_views(image.segments@) == kernel_segments(file@)
                &&& start_of(file@) is Some
                &&& start_of(file@) matches Some(Start { main: Some(off), text }) ==> {
                    text matches Some((vmaddr, fileoff)) && image.entry == vmaddr - fileoff + off
                }
            },
            None => goblin_macho(file@, usize::BITS) is None,
        },
{
    let m = mach::MachO::parse(file, 0).ok()?;
    let segments = m.segments.iter().map(|s| KernelSegment {
        vmaddr: s.vmaddr,
        vmsize: s.vmsize,
        fileoff: s.fileoff,
        filesize: s.filesize,
        data: s.data,
    }).collect();
    Some(KernelImage { entry: m.entry, segments })
}

/// Wraps `goblin::elf::Elf::parse`: the entry point of a file that it accepts.
/// What it checks is part of the name. It counts offsets in machine words and
/// cuts the entry point to one, so that the name has their width.
#[verifier::external_body]
fn parse_elf(file: &[u8]) -> (r: Option<u64>)
    ensures
        r == goblin_elf(file@, usize::BITS),
{
    Some(Elf::parse(file).ok()?.entry)
}

/// Reads the 32-bit number at `at`.
fn read32(file: &[u8], at: usize, little: bool) -> (r: u32)
    requires
        at + 4 <= file@.len(),
    ensures
        r == num32(file@, at as int, little),
{
    if little {
        bytes::read_le32(file, at)
    } else {
        bytes::read_be32(file, at)
    }
}

/// Reads the 64-bit number at `at`.
fn read64(file: &[u8], at: usize, little: bool) -> (r: u64)
    requires
        at + 8 <= file@.len(),
    ensures
        r == num64(file@, at as int, little),
{
    assert(file@.len() == file.len());
    if little {
        bytes::read_le64(file, at)
    } else {
        let hi: u64 = bytes::read_be32(file, at) as u64;
        let lo: u64 = bytes::read_be32(file, at + 4) as u64;
        lo + 0x1_0000_0000 * hi
    }
}

/// Tests the magic number of a file.
fn read_format(file: &[u8]) -> (r: Option<Format>)
    ensures
        r == format_of(file@),
{
    if file.len() < 32 {
        return None;
    }
    let magic: u32 = bytes::read_be32(file, 0);
    if magic == 0xcffa_edfe {
        Some(Format { little: true, wide: true })
    } else if magic == 0xcefa_edfe {
        Some(Format { little: true, wide: false })
    } else if magic == 0xfeed_facf {
        Some(Format { little: false, wide: true })
    } else if magic == 0xfeed_face {
        Some(Format { little: false, wide: false })
    } else {
        None
    }
}

/// Tests whether a load command at `at` lies inside the file.
fn fits(file: &[u8], at: usize, little: bool) -> (r: bool)
    requires
        at <= file@.len(),
    ensures
        r == command_fits(file@, at as int, little),
{
    assert(file@.len() == file.len());
    let room: usize = file.len() - at;
    if room < 8 {
        return false;
    }
    let cmd: u32 = read32(file, at, little);
    let size: u32 = read32(file, at + 4, little);
    let least: usize = if cmd == LC_SEGMENT {
        56
    } else if cmd == LC_SEGMENT_64 {
        72
    } else if cmd == LC_MAIN {
        24
    } else {
        8
    };
    size as u64 <= room as u64 && least <= room
}

/// Reads the address and the file offset of the text segment at `at`, if that is
/// what the load command there is.
fn read_text(file: &[u8], at: usize, little: bool) -> (r: Option<(u64, u64)>)
    requires
        at <= file@.len(),
        command_fits(file@, at as int, little),
    ensures
        match start_at(file@, at as int, little).text {
            Some((vmaddr, fileoff)) => r matches Some((v, o)) && v == vmaddr && o == fileoff,
            None => r is None,
        },
{
    assert(file@.len() == file.len());
    let cmd: u32 = read32(file, at, little);
    if cmd != LC_SEGMENT && cmd != LC_SEGMENT_64 {
        return None;
    }
    let name: [u8; 7] = [0x5f, 0x5f, 0x54, 0x45, 0x58, 0x54, 0];
    assert(name@ =~= seq![0x5fu8, 0x5fu8, 0x54u8, 0x45u8, 0x58u8, 0x54u8, 0u8]);
    if !bytes::bytes_eq(&file[at + 8..at + 15], name.as_slice()) {
        return None;
    }
    if cmd == LC_SEGMENT_64 {
        Some((read64(file, at + 24, little), read64(file, at + 40, little)))
    } else {
        Some((read32(file, at + 24, little) as u64, read32(file, at + 32, little) as u64))
    }
}

/// Whether `main` and `text` are what `start` says.
spec fn start_is(start: Start, main: Option<u64>, text: Option<(u64, u64)>) -> bool {
    &&& match start.main {
        Some(off) => main is Some && main->0 == off,
        None => main is None,
    }
    &&& match start.text {
        Some((vmaddr, fileoff)) => text matches Some((v, o)) && v == vmaddr && o == fileoff,
        None => text is None,
    }
}

/// Walks over `n` load commands from `at` on.
fn read_start(file: &[u8], at: usize, n: u32, little: bool) -> (r: Option<
    (Option<u64>, Option<(u64, u64)>),
>)
    requires
        at <= file@.len(),
    ensures
        match start_from(file@, at as int, n as int, little) {
            Some(start) => r matches Some((main, text)) && start_is(start, main, text),
            None => r is None,
        },
{
    assert(file@.len() == file.len());
    let ghost whole = start_from(file@, at as int, n as int, little);
    let ghost mut seen = Start { main: None, text: None };
    let mut main: Option<u64> = None;
    let mut text: Option<(u64, u64)> = None;
    let mut cur: usize = at;
    let mut left: u32 = n;
    while left > 0
        invariant
            cur <= file@.len(),
            file@.len() == file.len(),
            start_is(seen, main, text),
            whole == start_from(file@, at as int, n as int, little),
            whole == match start_from(file@, cur as int, left as int, little) {
                Some(rest) => Some(first_of(seen, rest)),
                None => None,
            },
        decreases left,
    {
        if !fits(file, cur, little) {
            return None;
        }
        let here = read_text(file, cur, little);
        if main.is_none() && read32(file, cur, little) == LC_MAIN {
            main = Some(read64(file, cur + 8, little));
        }
        if text.is_none() {
            text = here;
        }
        proof {
            seen = first_of(seen, start_at(file@, cur as int, little));
        }
        cur = cur + read32(file, cur + 4, little) as usize;
        left = left - 1;
    }
    Some((main, text))
}

/// Whether the entry point of a file is an address.
pub fn check_entry(file: &[u8]) -> (r: bool)
    ensures
        r == entry_fits(file@),
{
    let f = match read_format(file) {
        Some(f) => f,
        None => {
            return true;
        },
    };
    let at: usize = if f.wide {
        32
    } else {
        28
    };
    match read_start(file, at, read32(file, 16, f.little), f.little) {
        Some((Some(off), Some((vmaddr, fileoff)))) => {
            vmaddr >= fileoff && (vmaddr - fileoff).checked_add(off).is_some()
        },
        _ => true,
    }
}

/// A file to be read as a Mach-O image.
pub struct MachOImage<'a> {
    bytes: &'a [u8],
}

impl<'a> View for MachOImage<'a> {
    type V = Seq<u8>;

    closed spec fn view(&self) -> Seq<u8> {
        self.bytes@
    }
}

impl<'a> MachOImage<'a> {
    /// Takes the bytes of the file.
    #[must_use]
    pub fn new(bytes: &'a [u8]) -> (r: Self)
        ensures
            r@ == bytes@,
    {
        Self { bytes }
    }

    /// Parses the image.
    pub fn parse(&self) -> (r: Result<KernelImage<'a>, ParseError>)
        requires
            entry_fits(self@),
        ensures
            match r {
                Ok(image) => {
                    &&& goblin_macho(self@, usize::BITS) == Some(image.entry)
                    &&& segment_views(image.segments@) == kernel_segments(self@)
                    &&& start_of(self@) matches Some(
                        Start { main: Some(off), text: Some((vmaddr, fileoff)) },
                    ) ==> image.entry == vmaddr - fileoff + off
                },
                Err(_) => goblin_macho(self@, usize::BITS) is None,
            },
    {
        match parse_macho(self.bytes) {
            Some(image) => Ok(image),
            None => Err(ParseError),
        }
    }
}

/// A file to be read as an ELF image.
pub struct ElfImage<'a> {
    bytes: &'a [u8],
}

impl<'a> View for ElfImage<'a> {
    type V = Seq<u8>;

    closed spec fn view(&self) -> Seq<u8> {
        self.bytes@
    }
}

impl<'a> ElfImage<'a> {
    /// Takes the bytes of the file.
    #[must_use]
    pub fn new(bytes: &'a [u8]) -> (r: Self)
        ensures
            r@ == bytes@,
    {
        Self { bytes }
    }

    /// Parses the image: its entry point.
    pub fn parse(&self) -> (r: Result<u64, ParseError>)
        ensures
            match r {
                Ok(entry) => goblin_elf(self@, usize::BITS) == Some(entry),
                Err(_) => goblin_elf(self@, usize::BITS) is None,
            },
    {
        match parse_elf(self.bytes) {
            Some(entry) => Ok(entry),
            None => Err(ParseError),
        }
    }
}

/// Whether `bytes` is a Mach-O file of one architecture.
#[must_use]
pub fn is_macho(bytes: &[u8]) -> (r: bool)
    requires
        entry_fits(bytes@),
    ensures
        r == (goblin_macho(bytes@, usize::BITS) is Some),
{
    parse_macho(bytes).is_some()
}

/// Whether `bytes` is an ELF file.
#[must_use]
pub fn is_elf(bytes: &[u8]) -> (r: bool)
    ensures
        r == (goblin_elf(bytes@, usize::BITS) is Some),
{
    parse_elf(bytes).is_some()
}

} // verus!
