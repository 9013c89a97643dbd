//! What the `object` crate finds in a Mach-O file, as plain values.

use crate::bytes;
use crate::loader::load_cmd;
use object::read::macho::{FatArch, MachOFatFile32, MachOFatFile64, MachOFile64};
use object::{
    LittleEndian, Object, ObjectSection, ObjectSegment, SectionFlags, SegmentFlags,
};
use vstd::prelude::*;
use vstd::utf8::*;

verus! {

/// One architecture of a FAT file.
#[derive(Clone, Copy)]
pub struct ArchRecord<'data> {
    /// The CPU type.
    pub cputype: u32,
    /// The bytes of this architecture's image, if they lie inside the file.
    pub data: Option<&'data [u8]>,
}

/// A segment command.
pub struct SegmentRecord<'data> {
    /// The name up to its first zero byte, if it is text.
    pub name: Option<String>,
    /// Link-time address.
    pub vmaddr: u64,
    /// Size in memory.
    pub vmsize: u64,
    /// Offset and size in the file.
    pub file_range: (u64, u64),
    /// Maximum protection.
    pub maxprot: u32,
    /// Initial protection.
    pub initprot: u32,
    /// The file bytes, if the range lies inside the file.
    pub data: Option<&'data [u8]>,
}

/// A section.
pub struct SectionRecord {
    /// The name up to its first zero byte, if it is text.
    pub name: Option<String>,
    /// The segment's name up to its first zero byte, if it is text.
    pub segment_name: Option<String>,
    /// Address.
    pub addr: u64,
    /// Size in bytes.
    pub size: u64,
    /// Offset and size in the file; none for a section without file bytes.
    pub file_range: Option<(u64, u64)>,
    /// Type and attributes.
    pub flags: u32,
}

/// What a `SegmentRecord` says.
#[verifier::ext_equal]
pub struct SegmentSpec {
    pub name: Option<Seq<char>>,
    pub vmaddr: u64,
    pub vmsize: u64,
    pub file_range: (u64, u64),
    pub maxprot: u32,
    pub initprot: u32,
    pub data: Option<Seq<u8>>,
}

/// What a `SectionRecord` says.
#[verifier::ext_equal]
pub struct SectionSpec {
    pub name: Option<Seq<char>>,
    pub segment_name: Option<Seq<char>>,
    pub addr: u64,
    pub size: u64,
    pub file_range: Option<(u64, u64)>,
    pub flags: u32,
}

/// The text of an optional string.
pub open spec fn opt_text(s: Option<String>) -> Option<Seq<char>> {
    match s {
        Some(t) => Some(t@),
        None => None,
    }
}

/// The bytes of an optional slice.
pub open spec fn opt_bytes(s: Option<&[u8]>) -> Option<Seq<u8>> {
    match s {
        Some(t) => Some(t@),
        None => None,
    }
}

impl<'data> View for ArchRecord<'data> {
    type V = (u32, Option<Seq<u8>>);

    open spec fn view(&self) -> (u32, Option<Seq<u8>>) {
        (self.cputype, opt_bytes(self.data))
    }
}

impl<'data> View for SegmentRecord<'data> {
    type V = SegmentSpec;

    open spec fn view(&self) -> SegmentSpec {
        SegmentSpec {
            name: opt_text(self.name),
            vmaddr: self.vmaddr,
            vmsize: self.vmsize,
            file_range: self.file_range,
            maxprot: self.maxprot,
            initprot: self.initprot,
            data: opt_bytes(self.data),
        }
    }
}

impl View for SectionRecord {
    type V = SectionSpec;

    open spec fn view(&self) -> SectionSpec {
        SectionSpec {
            name: opt_text(self.name),
            segment_name: opt_text(self.segment_name),
            addr: self.addr,
            size: self.size,
            file_range: self.file_range,
            flags: self.flags,
        }
    }
}

/// The views of a sequence of slices.
pub open spec fn slices(v: Seq<&[u8]>) -> Seq<Seq<u8>> {
    Seq::new(v.len(), |i: int| v[i]@)
}

/// The views of a sequence of architectures.
pub open spec fn arch_specs(v: Seq<ArchRecord>) -> Seq<(u32, Option<Seq<u8>>)> {
    Seq::new(v.len(), |i: int| v[i]@)
}

/// The views of a sequence of segments.
pub open spec fn segment_specs(v: Seq<SegmentRecord>) -> Seq<SegmentSpec> {
    Seq::new(v.len(), |i: int| v[i]@)
}

/// The views of a sequence of sections.
pub open spec fn section_specs(v: Seq<SectionRecord>) -> Seq<SectionSpec> {
    Seq::new(v.len(), |i: int| v[i]@)
}

/// The `size` bytes at `offset` of a file, if the file has them.
pub open spec fn file_bytes(file: Seq<u8>, offset: int, size: int) -> Option<Seq<u8>> {
    if size == 0 {
        Some(Seq::empty())
    } else if offset + size <= file.len() {
        Some(file.subrange(offset, offset + size))
    } else {
        None
    }
}

/// The architecture table of a FAT file: after a big-endian header of `magic`
/// and the number of entries come the entries, of 32 bytes with 64-bit offsets
/// if `wide`, else of 20 bytes with 32-bit offsets.
pub open spec fn fat_table(file: Seq<u8>, wide: bool) -> Option<Seq<(u32, Option<Seq<u8>>)>> {
    let magic: int = if wide { 0xcafe_babf } else { 0xcafe_babe };
    let entry: int = if wide { 32 } else { 20 };
    let n = bytes::be32(file, 4);
    if file.len() < 8 || bytes::be32(file, 0) != magic || 8 + n * entry > file.len() {
        None
    } else {
        Some(Seq::new(n as nat, |i: int| fat_entry(file, 8 + i * entry, wide)))
    }
}

/// The entry of an architecture table at `at`.
pub open spec fn fat_entry(file: Seq<u8>, at: int, wide: bool) -> (u32, Option<Seq<u8>>) {
    (
        bytes::be32(file, at) as u32,
        if wide {
            file_bytes(file, bytes::be64(file, at + 8), bytes::be64(file, at + 16))
        } else {
            file_bytes(file, bytes::be32(file, at + 8), bytes::be32(file, at + 12))
        },
    )
}

/// The load commands at the start of `table`, at most `n`, up to the first that
/// is malformed.
pub open spec fn commands_in(table: Seq<u8>, n: int) -> Seq<Seq<u8>>
    decreases n,
{
    let size = bytes::le32(table, 4);
    if n <= 0 || table.len() < 8 || size < 8 || size > table.len() {
        Seq::empty()
    } else {
        seq![table.take(size)] + commands_in(table.skip(size), n - 1)
    }
}

/// The load commands of a 64-bit little-endian Mach-O file; none if the command
/// table does not lie inside the file.
pub open spec fn load_commands(file: Seq<u8>) -> Option<Seq<Seq<u8>>> {
    match file_bytes(file, 32, bytes::le32(file, 20)) {
        Some(table) => Some(commands_in(table, bytes::le32(file, 16))),
        None => None,
    }
}

/// The segment commands of a Mach-O file.
pub open spec fn segment_commands(file: Seq<u8>) -> Seq<Seq<u8>> {
    match load_commands(file) {
        Some(cmds) => cmds.filter(
            |c: Seq<u8>| bytes::le32(c, 0) == load_cmd::LC_SEGMENT_64,
        ),
        None => Seq::empty(),
    }
}

/// A name field: the bytes up to the first zero byte, if they are text.
pub open spec fn name_field(raw: Seq<u8>, at: int) -> Option<Seq<char>> {
    let n = bytes::until_nul(raw.subrange(at, at + 16));
    if valid_utf8(n) {
        Some(decode_utf8(n))
    } else {
        None
    }
}

/// The segment that a segment command of `file` describes.
pub open spec fn segment_of(file: Seq<u8>, raw: Seq<u8>) -> SegmentSpec {
    SegmentSpec {
        name: name_field(raw, 8),
        vmaddr: bytes::le64(raw, 24) as u64,
        vmsize: bytes::le64(raw, 32) as u64,
        file_range: (bytes::le64(raw, 40) as u64, bytes::le64(raw, 48) as u64),
        maxprot: bytes::le32(raw, 56) as u32,
        initprot: bytes::le32(raw, 60) as u32,
        data: file_bytes(file, bytes::le64(raw, 40), bytes::le64(raw, 48)),
    }
}

/// The section whose entry starts at `at` in a segment command.
pub open spec fn section_at(raw: Seq<u8>, at: int) -> SectionSpec {
    let flags = bytes::le32(raw, at + 64);
    let zero_fill = flags % 0x100 == 0x1 || flags % 0x100 == 0xc || flags % 0x100 == 0x12;
    SectionSpec {
        name: name_field(raw, at),
        segment_name: name_field(raw, at + 16),
        addr: bytes::le64(raw, at + 32) as u64,
        size: bytes::le64(raw, at + 40) as u64,
        file_range: if zero_fill {
            None
        } else {
            Some((bytes::le32(raw, at + 48) as u64, bytes::le64(raw, at + 40) as u64))
        },
        flags: flags as u32,
    }
}

/// The sections of the segment commands `cmds`, in order.
pub open spec fn sections_of(cmds: Seq<Seq<u8>>) -> Seq<SectionSpec>
    decreases cmds.len(),
{
    if cmds.len() == 0 {
        Seq::empty()
    } else {
        let raw = cmds.last();
        sections_of(cmds.drop_last()) + Seq::new(
            bytes::le32(raw, 64) as nat,
            |i: int| section_at(raw, 72 + 80 * i),
        )
    }
}

/// The entry offset of the first `LC_MAIN` command that is long enough, or 0.
pub open spec fn first_main(cmds: Seq<Seq<u8>>) -> u64
    decreases cmds.len(),
{
    if cmds.len() == 0 {
        0
    } else {
        match load_cmd::main_of(cmds[0]) {
            Some(off) => off,
            None => first_main(cmds.drop_first()),
        }
    }
}

/// Whether `object` accepts `file` as a 64-bit little-endian Mach-O file.
pub uninterp spec fn macho_parses(file: Seq<u8>) -> bool;

/// Wraps `object::read::macho::MachOFatFile64::parse`: the architecture table
/// of a FAT file with 64-bit offsets.
#[verifier::external_body]
pub(crate) fn fat64_arches<'data>(file: &'data [u8]) -> (r: Option<Vec<ArchRecord<'data>>>)
    ensures
        match r {
            Some(v) => fat_table(file@, true) == Some(arch_specs(v@)),
            None => fat_table(file@, true) is None,
        },
{
    let fat = MachOFatFile64::parse(file).ok()?;
    let record = |a: &object::macho::FatArch64| ArchRecord {
        cputype: a.cputype(),
        data: a.data(file).ok(),
    };
    Some(fat.arches().iter().map(record).collect())
}

/// Wraps `object::read::macho::MachOFatFile32::parse`: the architecture table
/// of a FAT file with 32-bit offsets.
#[verifier::external_body]
pub(crate) fn fat32_arches<'data>(file: &'data [u8]) -> (r: Option<Vec<ArchRecord<'data>>>)
    ensures
        match r {
            Some(v) => fat_table(file@, false) == Some(arch_specs(v@)),
            None => fat_table(file@, false) is None,
        },
{
    let fat = MachOFatFile32::parse(file).ok()?;
    let record = |a: &object::macho::FatArch32| ArchRecord {
        cputype: a.cputype(),
        data: a.data(file).ok(),
    };
    Some(fat.arches().iter().map(record).collect())
}

/// Wraps `object::read::macho::MachOFile64::parse`, for little-endian files.
/// Of the files it accepts it is stated here that they are long enough for a
/// header and start with the little-endian magic number; what else it checks
/// (the size of every segment command, section table and symbol table) is part
/// of the name.
#[verifier::external_body]
pub(crate) fn macho_accepts(file: &[u8]) -> (r: bool)
    ensures
        r == macho_parses(file@),
        r ==> file@.len() >= 32 && bytes::le32(file@, 0) == 0xfeed_facf,
{
    MachOFile64::<LittleEndian>::parse(file).is_ok()
}

/// Wraps `MachOFile64::segments` of `object`: the segment commands of a file,
/// in order.
#[verifier::external_body]
pub(crate) fn macho_segments<'data>(file: &'data [u8]) -> (r: Option<Vec<SegmentRecord<'data>>>)
    ensures
        r is Some <==> macho_parses(file@),
        r matches Some(v) ==> segment_specs(v@) == segment_commands(file@).map_values(
            |raw: Seq<u8>| segment_of(file@, raw),
        ),
{
    let macho = MachOFile64::<LittleEndian>::parse(file).ok()?;
    let prot = |f: SegmentFlags| match f {
        SegmentFlags::MachO { maxprot, initprot, .. } => (maxprot, initprot),
        _ => (0, 0),
    };
    Some(macho.segments().map(|s| SegmentRecord {
        name: s.name().ok().flatten().map(String::from),
        vmaddr: s.address(),
        vmsize: s.size(),
        file_range: s.file_range(),
        maxprot: prot(s.flags()).0,
        initprot: prot(s.flags()).1,
        data: s.data().ok(),
    }).collect())
}

/// Wraps `MachOFile64::sections` of `object`: the sections of all segment
/// commands of a file, in order.
#[verifier::external_body]
pub(crate) fn macho_sections(file: &[u8]) -> (r: Option<Vec<SectionRecord>>)
    ensures
        r is Some <==> macho_parses(file@),
        r matches Some(v) ==> section_specs(v@) == sections_of(segment_commands(file@)),
{
    let macho = MachOFile64::<LittleEndian>::parse(file).ok()?;
    Some(macho.sections().map(|s| SectionRecord {
        name: s.name().ok().map(String::from),
        segment_name: s.segment_name().ok().flatten().map(String::from),
        addr: s.address(),
        size: s.size(),
        file_range: s.file_range(),
        flags: match s.flags() {
            SectionFlags::MachO { flags } => flags,
            _ => 0,
        },
    }).collect())
}

/// Wraps `MachOFile64::macho_load_commands` of `object`: the bytes of each load
/// command of a file, up to the first that is malformed.
#[verifier::external_body]
pub(crate) fn macho_commands<'data>(file: &'data [u8]) -> (r: Option<Vec<&'data [u8]>>)
    ensures
        match r {
            Some(v) => macho_parses(file@) && load_commands(file@) == Some(slices(v@)),
            None => !macho_parses(file@) || load_commands(file@) is None,
        },
{
    let macho = MachOFile64::<LittleEndian>::parse(file).ok()?;
    let cmds = macho.macho_load_commands().ok()?;
    Some(cmds.map_while(|c| c.ok()).map(|c| c.raw_data()).collect())
}

/// Wraps `MachOFile64::entry` of `object`: the entry offset of the first
/// `LC_MAIN` command, or 0.
#[verifier::external_body]
pub(crate) fn macho_entry(file: &[u8]) -> (r: Option<u64>)
    ensures
        r is Some <==> macho_parses(file@),
        r matches Some(e) ==> e == first_main(
            match load_commands(file@) {
                Some(cmds) => cmds,
                None => Seq::empty(),
            },
        ),
{
    Some(MachOFile64::<LittleEndian>::parse(file).ok()?.entry())
}

} // verus!
