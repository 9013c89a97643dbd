//! The Mach-O image that the boot loader places in memory.

use crate::loader::load_cmd;
use crate::loader::records;
use crate::loader::records::SegmentRecord;
use crate::text;
use crate::xtask::elf;
use vstd::prelude::*;

verus! {

/// Why a file is not an image to load.
#[derive(Clone, Copy, Debug, PartialEq, Eq, Structural)]
pub enum ImageError {
    /// Not a 64-bit Mach-O file.
    NotMachO,
    /// The entry point lies beyond the address space.
    EntryOverflow,
}

/// A loadable segment of a Mach-O image.
pub struct Segment<'data> {
    inner: SegmentRecord<'data>,
}

/// A parsed Mach-O image, ready to be loaded from memory.
pub struct MachO<'data> {
    segments: Vec<Segment<'data>>,
    entry_va: u64,
}

impl<'data> View for Segment<'data> {
    type V = records::SegmentSpec;

    closed spec fn view(&self) -> records::SegmentSpec {
        self.inner@
    }
}

impl<'data> MachO<'data> {
    /// The address of the entry point.
    pub closed spec fn spec_entry(self) -> u64 {
        self.entry_va
    }

    /// What the segments say, in order.
    pub closed spec fn spec_segments(self) -> Seq<records::SegmentSpec> {
        Seq::new(self.segments@.len(), |i: int| self.segments@[i]@)
    }
}

/// The first of `segs` that is named `__TEXT`.
pub open spec fn text_segment(segs: Seq<records::SegmentSpec>) -> Option<records::SegmentSpec>
    decreases segs.len(),
{
    if segs.len() == 0 {
        None
    } else if segs[0].name == Some("__TEXT"@) {
        Some(segs[0])
    } else {
        text_segment(segs.drop_first())
    }
}

/// The entry offset of the first `LC_MAIN` command that is long enough.
pub open spec fn main_offset(cmds: Seq<Seq<u8>>) -> Option<u64>
    decreases cmds.len(),
{
    if cmds.len() == 0 {
        None
    } else {
        match load_cmd::main_of(cmds[0]) {
            Some(off) => Some(off),
            None => main_offset(cmds.drop_first()),
        }
    }
}

/// The start address in the first `LC_UNIXTHREAD` command that holds one.
pub open spec fn thread_start(cmds: Seq<Seq<u8>>) -> Option<u64>
    decreases cmds.len(),
{
    if cmds.len() == 0 {
        None
    } else {
        match load_cmd::thread_of(cmds[0]) {
            Some(pc) => Some(pc),
            None => thread_start(cmds.drop_first()),
        }
    }
}

/// The entry address: an `LC_MAIN` command gives a file offset, which the
/// `__TEXT` segment turns into an address. Without such a segment it is the
/// offset itself. Without such a command it is the address that an
/// `LC_UNIXTHREAD` command gives, and 0 without that.
pub open spec fn entry_address(cmds: Seq<Seq<u8>>, segs: Seq<records::SegmentSpec>) -> int {
    match main_offset(cmds) {
        None => match thread_start(cmds) {
            Some(pc) => pc as int,
            None => 0,
        },
        Some(off) => match text_segment(segs) {
            None => off as int,
            Some(t) => t.vmaddr + if off > t.file_range.0 {
                off - t.file_range.0
            } else {
                0
            },
        },
    }
}

/// The load commands of a file, none if their table leaves it.
pub open spec fn image_commands(file: Seq<u8>) -> Seq<Seq<u8>> {
    match records::load_commands(file) {
        Some(cmds) => cmds,
        None => Seq::empty(),
    }
}

/// What the segment commands of a file say, in order.
pub open spec fn image_segments(file: Seq<u8>) -> Seq<records::SegmentSpec> {
    records::segment_commands(file).map_values(|raw: Seq<u8>| records::segment_of(file, raw))
}

proof fn lemma_main_offset(cmds: Seq<Seq<u8>>)
    ensures
        records::first_main(cmds) == match main_offset(cmds) {
            Some(off) => off,
            None => 0,
        },
    decreases cmds.len(),
{
    if cmds.len() > 0 && load_cmd::main_of(cmds[0]) is None {
        lemma_main_offset(cmds.drop_first());
    }
}

/// Finds the entry offset of the first `LC_MAIN` command.
fn find_main(cmds: &Vec<&[u8]>) -> (r: Option<u64>)
    ensures
        r == main_offset(records::slices(cmds@)),
{
    let ghost all = records::slices(cmds@);
    let mut i: usize = 0;
    assert(all.skip(0) =~= all);
    while i < cmds.len()
        invariant
            i <= cmds@.len(),
            all == records::slices(cmds@),
            main_offset(all) == main_offset(all.skip(i as int)),
        decreases cmds@.len() - i,
    {
        proof {
            assert(all.skip(i as int).drop_first() =~= all.skip(i + 1));
        }
        let off = load_cmd::parse_main(cmds[i]);
        if off.is_some() {
            return off;
        }
        i += 1;
    }
    None
}

/// Finds the start address in the first `LC_UNIXTHREAD` command that holds one.
fn find_thread(cmds: &Vec<&[u8]>) -> (r: Option<u64>)
    ensures
        r == thread_start(records::slices(cmds@)),
{
    let ghost all = records::slices(cmds@);
    let mut i: usize = 0;
    assert(all.skip(0) =~= all);
    while i < cmds.len()
        invariant
            i <= cmds@.len(),
            all == records::slices(cmds@),
            thread_start(all) == thread_start(all.skip(i as int)),
        decreases cmds@.len() - i,
    {
        proof {
            assert(all.skip(i as int).drop_first() =~= all.skip(i + 1));
        }
        let pc = load_cmd::parse_thread(cmds[i]);
        if pc.is_some() {
            return pc;
        }
        i += 1;
    }
    None
}

/// Finds the `__TEXT` segment: its link-time address and its file offset.
fn find_text(segs: &Vec<SegmentRecord>) -> (r: Option<(u64, u64)>)
    ensures
        match text_segment(records::segment_specs(segs@)) {
            Some(t) => r == Some((t.vmaddr, t.file_range.0)),
            None => r is None,
        },
{
    let ghost all = records::segment_specs(segs@);
    let mut i: usize = 0;
    assert(all.skip(0) =~= all);
    while i < segs.len()
        invariant
            i <= segs@.len(),
            all == records::segment_specs(segs@),
            text_segment(all) == text_segment(all.skip(i as int)),
        decreases segs@.len() - i,
    {
        proof {
            assert(all.skip(i as int).drop_first() =~= all.skip(i + 1));
            assert(all.skip(i as int)[0] == segs@[i as int]@);
        }
        let found: bool = match &segs[i].name {
            Some(name) => text::str_eq(name.as_str(), "__TEXT"),
            None => false,
        };
        if found {
            return Some((segs[i].vmaddr, segs[i].file_range.0));
        }
        i += 1;
    }
    None
}

/// The entry address for an entry offset and a `__TEXT` segment; none if it
/// overflows.
fn place_entry(off: u64, vmaddr: u64, fileoff: u64) -> (r: Option<u64>)
    ensures
        ({
            let at = vmaddr + if off > fileoff {
                off - fileoff
            } else {
                0
            };
            match r {
                Some(a) => a == at,
                None => at > u64::MAX,
            }
        }),
{
    vmaddr.checked_add(off.saturating_sub(fileoff))
}

impl<'data> MachO<'data> {
    /// Parses a 64-bit Mach-O file of one architecture.
    pub fn parse(data: &'data [u8]) -> (r: Result<MachO<'data>, ImageError>)
        ensures
            match r {
                Ok(m) => {
                    &&& records::macho_parses(data@)
                    &&& m.spec_segments() == image_segments(data@)
                    &&& m.spec_entry() == entry_address(image_commands(data@), image_segments(data@))
                },
                Err(ImageError::NotMachO) => !records::macho_parses(data@),
                Err(ImageError::EntryOverflow) => {
                    &&& records::macho_parses(data@)
                    &&& entry_address(image_commands(data@), image_segments(data@)) > u64::MAX
                },
            },
    {
        let segs: Vec<SegmentRecord<'data>> = match records::macho_segments(data) {
            Some(s) => s,
            None => {
                return Err(ImageError::NotMachO);
            },
        };
        let fallback: u64 = match records::macho_entry(data) {
            Some(e) => e,
            None => {
                return Err(ImageError::NotMachO);
            },
        };
        let (off, start): (Option<u64>, Option<u64>) = match records::macho_commands(data) {
            Some(cmds) => (find_main(&cmds), find_thread(&cmds)),
            None => (None, None),
        };
        proof {
            lemma_main_offset(image_commands(data@));
        }
        let entry_va: u64 = match (off, find_text(&segs)) {
            (Some(off), Some((vmaddr, fileoff))) => match place_entry(off, vmaddr, fileoff) {
                Some(a) => a,
                None => {
                    return Err(ImageError::EntryOverflow);
                },
            },
            (None, _) => match start {
                Some(pc) => pc,
                None => fallback,
            },
            _ => fallback,
        };
        let segments: Vec<Segment<'data>> = wrap(segs);
        let m = MachO { segments, entry_va };
        assert(m.spec_segments() =~= image_segments(data@)) by {
            assert(m.spec_segments() =~= records::segment_specs(segs@));
        }
        Ok(m)
    }

    /// The address of the entry point.
    pub fn entry(&self) -> (r: u64)
        ensures
            r == self.spec_entry(),
    {
        self.entry_va
    }

    /// The loadable segments, in order.
    pub fn segments(&self) -> (r: &Vec<Segment<'data>>)
        ensures
            Seq::new(r@.len(), |i: int| r@[i]@) == self.spec_segments(),
    {
        &self.segments
    }
}

impl<'data> Segment<'data> {
    /// The address the segment expects to be mapped at.
    pub fn vmaddr(&self) -> (r: u64)
        ensures
            r == self@.vmaddr,
    {
        self.inner.vmaddr
    }

    /// The size in memory, which may be larger than the file data.
    pub fn vmsize(&self) -> (r: u64)
        ensures
            r == self@.vmsize,
    {
        self.inner.vmsize
    }

    /// The offset of the data in the file.
    pub fn fileoff(&self) -> (r: u64)
        ensures
            r == self@.file_range.0,
    {
        self.inner.file_range.0
    }

    /// The size of the data in the file.
    pub fn filesize(&self) -> (r: u64)
        ensures
            r == self@.file_range.1,
    {
        self.inner.file_range.1
    }

    /// The file data, empty for a segment without any; none if the range leaves
    /// the file.
    pub fn data(&self) -> (r: Option<&'data [u8]>)
        ensures
            records::opt_bytes(r) == self@.data,
    {
        self.inner.data
    }
}

/// Segments out of segment records.
fn wrap<'data>(segs: Vec<SegmentRecord<'data>>) -> (r: Vec<Segment<'data>>)
    ensures
        r@.len() == segs@.len(),
        forall|i: int| 0 <= i < r@.len() ==> (#[trigger] r@[i])@ == segs@[i]@,
{
    let mut rest = segs;
    let mut out: Vec<Segment<'data>> = Vec::new();
    while rest.len() > 0
        invariant
            out@.len() + rest@.len() == segs@.len(),
            forall|i: int|
                0 <= i < out@.len() ==> (#[trigger] out@[i])@ == segs@[i]@,
            forall|i: int|
                0 <= i < rest@.len() ==> (#[trigger] rest@[i])@ == segs@[out@.len() + i]@,
        decreases rest@.len(),
    {
        let inner = rest.remove(0);
        out.push(Segment { inner });
    }
    out
}

/// Whether `data` is a Mach-O file, of one architecture or of several.
#[must_use]
pub fn is_macho(data: &[u8]) -> (r: bool)
    ensures
        r == (records::macho_parses(data@) || records::fat_table(data@, true) is Some
            || records::fat_table(data@, false) is Some),
{
    records::macho_accepts(data) || records::fat64_arches(data).is_some()
        || records::fat32_arches(data).is_some()
}

/// Whether `data` is an ELF file.
#[must_use]
pub fn is_elf(data: &[u8]) -> (r: bool)
    ensures
        r == elf::elf_parses(data@),
{
    elf::elf_entry(data).is_some()
}

} // verus!
