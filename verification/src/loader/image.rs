//! The parsed image.

use crate::bytes;
use crate::loader::load_cmd::{
    BuildVersionInfo, ChainedFixupsInfo, DyldInfoCmd, DylibRef, DylibSpec, LinkeditRange,
};
use crate::text;
use vstd::prelude::*;
use vstd::utf8::*;

verus! {

/// A section of a segment.
#[derive(Clone, Debug)]
pub struct Section {
    /// Section name, padded with zero bytes.
    pub sectname: [u8; 16],
    /// Name of the segment, padded with zero bytes.
    pub segname: [u8; 16],
    /// Address of the section.
    pub addr: u64,
    /// Size of the section in bytes.
    pub size: u64,
    /// File offset of the section's bytes; 0 for a zero-fill section.
    pub fileoff: u32,
    /// Type and attributes.
    pub flags: u32,
}

/// What a `Section` says.
#[verifier::ext_equal]
pub struct SectionView {
    pub sectname: Seq<u8>,
    pub segname: Seq<u8>,
    pub addr: u64,
    pub size: u64,
    pub fileoff: u32,
    pub flags: u32,
}

impl View for Section {
    type V = SectionView;

    open spec fn view(&self) -> SectionView {
        SectionView {
            sectname: self.sectname@,
            segname: self.segname@,
            addr: self.addr,
            size: self.size,
            fileoff: self.fileoff,
            flags: self.flags,
        }
    }
}

/// The text of a name field: up to its first zero byte, or empty if that is no
/// text.
pub open spec fn field_text(field: Seq<u8>) -> Seq<char> {
    text::text_or_empty(bytes::until_nul(field))
}

/// The text of a name field.
fn field_str(field: &[u8]) -> (r: &str)
    ensures
        r@ == field_text(field@),
{
    let end: usize = bytes::find_nul(field);
    let head: &[u8] = &field[0..end];
    assert(head@ =~= bytes::until_nul(field@));
    text::utf8_or_empty(head)
}

impl Section {
    /// The section name as text.
    #[must_use]
    pub fn name_str(&self) -> (r: &str)
        ensures
            r@ == field_text(self.sectname@),
    {
        field_str(self.sectname.as_slice())
    }

    /// The segment name as text.
    #[must_use]
    pub fn segname_str(&self) -> (r: &str)
        ensures
            r@ == field_text(self.segname@),
    {
        field_str(self.segname.as_slice())
    }
}

/// A loadable segment.
#[derive(Debug)]
pub struct Segment<'data> {
    /// Segment name, padded with zero bytes.
    pub name: [u8; 16],
    /// Link-time address.
    pub vmaddr: u64,
    /// Size in memory; may exceed `filesize`.
    pub vmsize: u64,
    /// File offset of the segment's bytes.
    pub fileoff: u64,
    /// How many bytes the file holds.
    pub filesize: u64,
    /// Maximum protection.
    pub maxprot: u32,
    /// Initial protection.
    pub initprot: u32,
    /// The file's bytes.
    pub data: &'data [u8],
    /// The sections of the segment.
    pub sections: Vec<Section>,
}

/// What a `Segment` says.
#[verifier::ext_equal]
pub struct SegmentView {
    pub name: Seq<u8>,
    pub vmaddr: u64,
    pub vmsize: u64,
    pub fileoff: u64,
    pub filesize: u64,
    pub maxprot: u32,
    pub initprot: u32,
    pub data: Seq<u8>,
    pub sections: Seq<SectionView>,
}

/// The views of a sequence of sections.
pub open spec fn section_views(v: Seq<Section>) -> Seq<SectionView> {
    Seq::new(v.len(), |i: int| v[i]@)
}

/// The views of a sequence of segments.
pub open spec fn segment_views(v: Seq<Segment>) -> Seq<SegmentView> {
    Seq::new(v.len(), |i: int| v[i]@)
}

/// The views of a sequence of dylib references.
pub open spec fn dylib_views(v: Seq<DylibRef>) -> Seq<DylibSpec> {
    Seq::new(v.len(), |i: int| v[i]@)
}

/// The views of a sequence of strings.
pub open spec fn str_views(v: Seq<&str>) -> Seq<Seq<char>> {
    Seq::new(v.len(), |i: int| v[i]@)
}

impl<'data> View for Segment<'data> {
    type V = SegmentView;

    open spec fn view(&self) -> SegmentView {
        SegmentView {
            name: self.name@,
            vmaddr: self.vmaddr,
            vmsize: self.vmsize,
            fileoff: self.fileoff,
            filesize: self.filesize,
            maxprot: self.maxprot,
            initprot: self.initprot,
            data: self.data@,
            sections: section_views(self.sections@),
        }
    }
}

impl<'data> Segment<'data> {
    /// The segment name as text.
    #[must_use]
    pub fn name_str(&self) -> (r: &str)
        ensures
            r@ == field_text(self.name@),
    {
        field_str(self.name.as_slice())
    }
}

/// Where the first instruction is.
#[derive(Clone, Copy, Debug, PartialEq, Eq, Structural)]
pub enum EntryPoint {
    /// A file offset, from `LC_MAIN`.
    FileOffset(u64),
    /// An address, from `LC_UNIXTHREAD`.
    VirtualAddress(u64),
}

/// A parsed Mach-O executable or dylib.
#[must_use]
#[derive(Debug)]
pub struct UserImage<'data> {
    /// The loadable segments in file order, without `__PAGEZERO`.
    pub segments: Vec<Segment<'data>>,
    /// The entry point.
    pub entry: EntryPoint,
    /// The lowest link-time address of all segments.
    pub link_base: u64,
    /// Dylibs that are needed.
    pub dylib_deps: Vec<DylibRef<'data>>,
    /// Dylibs that are linked weakly.
    pub weak_dylib_deps: Vec<DylibRef<'data>>,
    /// The dylib's own identity.
    pub dylib_id: Option<DylibRef<'data>>,
    /// Run-path search entries.
    pub rpaths: Vec<&'data str>,
    /// The UUID.
    pub uuid: Option<[u8; 16]>,
    /// Where the chained fixups are.
    pub chained_fixups: Option<ChainedFixupsInfo>,
    /// Rebase and bind tables.
    pub dyld_info: Option<DyldInfoCmd>,
    /// Where the code signature is.
    pub code_signature: Option<LinkeditRange>,
    /// Platform and SDK version.
    pub build_version: Option<BuildVersionInfo>,
    /// The encrypted range.
    pub encryption_info: Option<LinkeditRange>,
}

/// What a `UserImage` says.
#[verifier::ext_equal]
pub struct ImageView {
    pub segments: Seq<SegmentView>,
    pub entry: EntryPoint,
    pub link_base: u64,
    pub dylib_deps: Seq<DylibSpec>,
    pub weak_dylib_deps: Seq<DylibSpec>,
    pub dylib_id: Option<DylibSpec>,
    pub rpaths: Seq<Seq<char>>,
    pub uuid: Option<Seq<u8>>,
    pub chained_fixups: Option<ChainedFixupsInfo>,
    pub dyld_info: Option<DyldInfoCmd>,
    pub code_signature: Option<LinkeditRange>,
    pub build_version: Option<BuildVersionInfo>,
    pub encryption_info: Option<LinkeditRange>,
}

/// The view of an optional dylib reference.
pub open spec fn opt_dylib(d: Option<DylibRef>) -> Option<DylibSpec> {
    match d {
        Some(r) => Some(r@),
        None => None,
    }
}

/// The bytes of an optional UUID.
pub open spec fn opt_uuid(u: Option<[u8; 16]>) -> Option<Seq<u8>> {
    match u {
        Some(b) => Some(b@),
        None => None,
    }
}

impl<'data> View for UserImage<'data> {
    type V = ImageView;

    open spec fn view(&self) -> ImageView {
        ImageView {
            segments: segment_views(self.segments@),
            entry: self.entry,
            link_base: self.link_base,
            dylib_deps: dylib_views(self.dylib_deps@),
            weak_dylib_deps: dylib_views(self.weak_dylib_deps@),
            dylib_id: opt_dylib(self.dylib_id),
            rpaths: str_views(self.rpaths@),
            uuid: opt_uuid(self.uuid),
            chained_fixups: self.chained_fixups,
            dyld_info: self.dyld_info,
            code_signature: self.code_signature,
            build_version: self.build_version,
            encryption_info: self.encryption_info,
        }
    }
}

/// The first segment whose name reads `name`.
pub open spec fn segment_named(segments: Seq<SegmentView>, name: Seq<char>) -> Option<SegmentView>
    decreases segments.len(),
{
    if segments.len() == 0 {
        None
    } else if field_text(segments[0].name) == name {
        Some(segments[0])
    } else {
        segment_named(segments.drop_first(), name)
    }
}

/// The end of a segment in memory, at most the largest address.
pub open spec fn segment_end(s: SegmentView) -> int {
    if s.vmaddr + s.vmsize > u64::MAX {
        u64::MAX as int
    } else {
        s.vmaddr + s.vmsize
    }
}

/// The highest end of `segments`; `none` if there is no segment.
pub open spec fn highest_end(segments: Seq<SegmentView>, none: int) -> int
    decreases segments.len(),
{
    if segments.len() == 0 {
        none
    } else if segments.len() == 1 {
        segment_end(segments[0])
    } else {
        let rest = highest_end(segments.drop_last(), none);
        if segment_end(segments.last()) >= rest {
            segment_end(segments.last())
        } else {
            rest
        }
    }
}

impl ImageView {
    /// The entry address, without a bound: a file offset counts from the start
    /// of `__TEXT`, and offsets before it count as its start.
    pub open spec fn entry_address(self) -> Option<int> {
        match self.entry {
            EntryPoint::VirtualAddress(va) => Some(va as int),
            EntryPoint::FileOffset(off) => match segment_named(self.segments, "__TEXT"@) {
                None => None,
                Some(s) => Some(
                    s.vmaddr + if off > s.fileoff {
                        off - s.fileoff
                    } else {
                        0
                    },
                ),
            },
        }
    }

    /// How many bytes the image covers from its link base on.
    pub open spec fn span(self) -> int {
        let end = highest_end(self.segments, self.link_base as int);
        if end > self.link_base {
            end - self.link_base
        } else {
            0
        }
    }
}

impl<'data> UserImage<'data> {
    /// Whether the entry address, if there is one, is an address.
    #[must_use]
    pub fn entry_fits(&self) -> (r: bool)
        ensures
            r == (self@.entry_address() matches Some(va) ==> va <= u64::MAX),
    {
        match self.entry {
            EntryPoint::VirtualAddress(_) => true,
            EntryPoint::FileOffset(off) => match self.text_segment() {
                None => true,
                Some(i) => {
                    let s = &self.segments[i];
                    s.vmaddr.checked_add(off.saturating_sub(s.fileoff)).is_some()
                },
            },
        }
    }

    /// The entry address; `None` if it is a file offset and there is no
    /// `__TEXT` segment.
    #[must_use]
    pub fn entry_va(&self) -> (r: Option<u64>)
        requires
            self@.entry_address() matches Some(va) ==> va <= u64::MAX,
        ensures
            match r {
                Some(va) => self@.entry_address() == Some(va as int),
                None => self@.entry_address() is None,
            },
    {
        match self.entry {
            EntryPoint::VirtualAddress(va) => Some(va),
            EntryPoint::FileOffset(off) => match self.text_segment() {
                None => None,
                Some(i) => {
                    let s = &self.segments[i];
                    let skip: u64 = if off > s.fileoff {
                        off - s.fileoff
                    } else {
                        0
                    };
                    Some(s.vmaddr + skip)
                },
            },
        }
    }

    /// The index of the first `__TEXT` segment.
    fn text_segment(&self) -> (r: Option<usize>)
        ensures
            match r {
                Some(i) => i < self.segments@.len() && segment_named(
                    segment_views(self.segments@),
                    "__TEXT"@,
                ) == Some(self.segments@[i as int]@),
                None => segment_named(segment_views(self.segments@), "__TEXT"@) is None,
            },
    {
        let mut i: usize = 0;
        let ghost all = segment_views(self.segments@);
        assert(all.skip(0) =~= all);
        while i < self.segments.len()
            invariant
                i <= self.segments@.len(),
                all == segment_views(self.segments@),
                segment_named(all, "__TEXT"@) == segment_named(all.skip(i as int), "__TEXT"@),
            decreases self.segments@.len() - i,
        {
            assert(all.skip(i as int)[0] == self.segments@[i as int]@);
            assert(all.skip(i as int).drop_first() =~= all.skip(i + 1));
            if text::str_eq(self.segments[i].name_str(), "__TEXT") {
                return Some(i);
            }
            i = i + 1;
        }
        None
    }

    /// The extent of all segments in memory, from the link base on.
    #[must_use]
    pub fn image_span(&self) -> (r: u64)
        ensures
            r == self@.span(),
    {
        let mut end: u64 = self.link_base;
        let mut i: usize = 0;
        let ghost all = segment_views(self.segments@);
        while i < self.segments.len()
            invariant
                i <= self.segments@.len(),
                all == segment_views(self.segments@),
                end == highest_end(all.take(i as int), self.link_base as int),
            decreases self.segments@.len() - i,
        {
            let s = &self.segments[i];
            let e: u64 = s.vmaddr.saturating_add(s.vmsize);
            assert(all.take(i + 1).drop_last() =~= all.take(i as int));
            assert(all.take(i + 1).last() == s@);
            if i == 0 || e >= end {
                end = e;
            }
            i = i + 1;
        }
        assert(all.take(i as int) =~= all);
        end.saturating_sub(self.link_base)
    }

    /// The slide when the image is loaded at `load_base`.
    #[must_use]
    pub fn slide_for(&self, load_base: u64) -> (r: u64)
        ensures
            r == (load_base - self.link_base) % 0x1_0000_0000_0000_0000,
    {
        load_base.wrapping_sub(self.link_base)
    }
}

} // verus!
