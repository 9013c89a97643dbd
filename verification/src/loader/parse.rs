//! From a Mach-O file to a `UserImage`.

use crate::bytes;
use crate::loader::fat;
use crate::loader::image;
use crate::loader::image::{EntryPoint, ImageView, Section, SectionView, Segment, SegmentView, UserImage};
use crate::loader::load_cmd;
use crate::loader::load_cmd::{
    BuildVersionInfo, ChainedFixupsInfo, DyldInfoCmd, DylibRef, DylibSpec, LinkeditRange,
    LC_CODE_SIGNATURE, LC_ENCRYPTION_INFO_64, LC_ID_DYLIB, LC_LOAD_DYLIB, LC_LOAD_WEAK_DYLIB,
    LC_UNIXTHREAD,
};
use crate::loader::records;
use crate::loader::records::{SectionRecord, SectionSpec, SegmentRecord, SegmentSpec};
use crate::text;
use vstd::prelude::*;
use vstd::utf8::*;

verus! {

/// A text as a name field: at most 16 bytes, padded with zero bytes.
pub open spec fn name_bytes(name: Option<Seq<char>>) -> Seq<u8> {
    Seq::new(
        16,
        |i: int|
            match name {
                Some(n) => if i < encode_utf8(n).len() {
                    encode_utf8(n)[i]
                } else {
                    0u8
                },
                None => 0u8,
            },
    )
}

/// Whether a segment is loaded: it has a size and is not `__PAGEZERO`.
pub open spec fn loadable(s: SegmentSpec) -> bool {
    s.vmsize != 0 && s.name != Some("__PAGEZERO"@)
}

/// A loadable segment before its sections are known.
pub open spec fn bare_segment(s: SegmentSpec) -> SegmentView {
    SegmentView {
        name: name_bytes(s.name),
        vmaddr: s.vmaddr,
        vmsize: s.vmsize,
        fileoff: s.file_range.0,
        filesize: s.file_range.1,
        maxprot: s.maxprot,
        initprot: s.initprot,
        data: match s.data {
            Some(d) => d,
            None => Seq::empty(),
        },
        sections: Seq::empty(),
    }
}

/// The loadable segments of `segs`, in order, without sections.
pub open spec fn bare_segments(segs: Seq<SegmentSpec>) -> Seq<SegmentView>
    decreases segs.len(),
{
    if segs.len() == 0 {
        Seq::empty()
    } else if loadable(segs.last()) {
        bare_segments(segs.drop_last()).push(bare_segment(segs.last()))
    } else {
        bare_segments(segs.drop_last())
    }
}

/// The lowest address of `segs`, or the largest 64-bit number if there is none.
pub open spec fn lowest(segs: Seq<SegmentView>) -> u64
    decreases segs.len(),
{
    if segs.len() == 0 {
        u64::MAX
    } else if segs.last().vmaddr < lowest(segs.drop_last()) {
        segs.last().vmaddr
    } else {
        lowest(segs.drop_last())
    }
}

/// The link base of an image with segments `segs`.
pub open spec fn link_base(segs: Seq<SegmentView>) -> u64 {
    if lowest(segs) == u64::MAX {
        0
    } else {
        lowest(segs)
    }
}

/// The text of a section's segment name.
pub open spec fn home_name(s: SectionSpec) -> Seq<char> {
    match s.segment_name {
        Some(n) => n,
        None => Seq::empty(),
    }
}

/// Whether segment `i` is the first whose name reads `name`.
pub open spec fn is_home(segs: Seq<SegmentView>, name: Seq<char>, i: int) -> bool {
    &&& 0 <= i < segs.len()
    &&& image::field_text(segs[i].name) == name
    &&& forall|k: int| 0 <= k < i ==> image::field_text(#[trigger] segs[k].name) != name
}

/// A section of the segment named `segname`.
pub open spec fn section_in(s: SectionSpec, segname: Seq<u8>) -> SectionView {
    SectionView {
        sectname: name_bytes(s.name),
        segname,
        addr: s.addr,
        size: s.size,
        fileoff: match s.file_range {
            Some((off, _)) => off as u32,
            None => 0,
        },
        flags: s.flags,
    }
}

/// The sections that belong to segment `i`: each goes to the first segment that
/// has its segment name.
pub open spec fn sections_for(sects: Seq<SectionSpec>, segs: Seq<SegmentView>, i: int) -> Seq<
    SectionView,
>
    decreases sects.len(),
{
    if sects.len() == 0 {
        Seq::empty()
    } else {
        let before = sections_for(sects.drop_last(), segs, i);
        if is_home(segs, home_name(sects.last()), i) {
            before.push(section_in(sects.last(), segs[i].name))
        } else {
            before
        }
    }
}

/// The loadable segments with their sections.
pub open spec fn full_segments(segs: Seq<SegmentView>, sects: Seq<SectionSpec>) -> Seq<SegmentView> {
    Seq::new(
        segs.len(),
        |i: int| SegmentView { sections: sections_for(sects, segs, i), ..segs[i] },
    )
}

/// The first value that `f` finds in a command.
pub open spec fn first_some<T>(cmds: Seq<Seq<u8>>, f: spec_fn(Seq<u8>) -> Option<T>) -> Option<T>
    decreases cmds.len(),
{
    if cmds.len() == 0 {
        None
    } else {
        match first_some(cmds.drop_last(), f) {
            Some(x) => Some(x),
            None => f(cmds.last()),
        }
    }
}

/// The last value that `f` finds in a command.
pub open spec fn last_some<T>(cmds: Seq<Seq<u8>>, f: spec_fn(Seq<u8>) -> Option<T>) -> Option<T>
    decreases cmds.len(),
{
    if cmds.len() == 0 {
        None
    } else {
        match f(cmds.last()) {
            Some(x) => Some(x),
            None => last_some(cmds.drop_last(), f),
        }
    }
}

/// All values that `f` finds in the commands, in order.
pub open spec fn all_some<T>(cmds: Seq<Seq<u8>>, f: spec_fn(Seq<u8>) -> Option<T>) -> Seq<T>
    decreases cmds.len(),
{
    if cmds.len() == 0 {
        Seq::empty()
    } else {
        match f(cmds.last()) {
            Some(x) => all_some(cmds.drop_last(), f).push(x),
            None => all_some(cmds.drop_last(), f),
        }
    }
}

/// The entry point that a command gives: an offset for `LC_MAIN`, the program
/// counter of the thread state for `LC_UNIXTHREAD`. `thread_entry` stands in for
/// an `LC_UNIXTHREAD` command that holds no such register.
pub open spec fn entry_of(raw: Seq<u8>, thread_entry: u64) -> Option<EntryPoint> {
    match load_cmd::main_of(raw) {
        Some(off) => Some(EntryPoint::FileOffset(off)),
        None => match load_cmd::thread_of(raw) {
            Some(pc) => Some(EntryPoint::VirtualAddress(pc)),
            None => if load_cmd::is_cmd(raw, LC_UNIXTHREAD, 0) {
                Some(EntryPoint::VirtualAddress(thread_entry))
            } else {
                None
            },
        },
    }
}

/// The entry point of an image.
pub open spec fn entry_in(cmds: Seq<Seq<u8>>, thread_entry: u64) -> Option<EntryPoint> {
    first_some(cmds, |c: Seq<u8>| entry_of(c, thread_entry))
}

/// The dylibs named by the commands of kind `cmd`.
pub open spec fn dylibs_in(cmds: Seq<Seq<u8>>, cmd: u32) -> Seq<DylibSpec> {
    all_some(cmds, |c: Seq<u8>| load_cmd::dylib_of(c, cmd))
}

/// The identity of the image.
pub open spec fn id_in(cmds: Seq<Seq<u8>>) -> Option<DylibSpec> {
    first_some(cmds, |c: Seq<u8>| load_cmd::dylib_of(c, LC_ID_DYLIB))
}

/// The run paths of the image.
pub open spec fn rpaths_in(cmds: Seq<Seq<u8>>) -> Seq<Seq<char>> {
    all_some(cmds, |c: Seq<u8>| load_cmd::rpath_of(c))
}

/// The UUID of the image.
pub open spec fn uuid_in(cmds: Seq<Seq<u8>>) -> Option<Seq<u8>> {
    last_some(cmds, |c: Seq<u8>| load_cmd::uuid_of(c))
}

/// Where the chained fixups of the image are.
pub open spec fn chained_in(cmds: Seq<Seq<u8>>) -> Option<ChainedFixupsInfo> {
    last_some(cmds, |c: Seq<u8>| load_cmd::chained_of(c))
}

/// The rebase and bind tables of the image.
pub open spec fn dyld_info_in(cmds: Seq<Seq<u8>>) -> Option<DyldInfoCmd> {
    last_some(cmds, |c: Seq<u8>| load_cmd::dyld_info_of(c))
}

/// The range that commands of kind `cmd` give.
pub open spec fn range_in(cmds: Seq<Seq<u8>>, cmd: u32, size: int) -> Option<LinkeditRange> {
    last_some(cmds, |c: Seq<u8>| load_cmd::range_of(c, cmd, size))
}

/// The platform and SDK version of the image.
pub open spec fn build_version_in(cmds: Seq<Seq<u8>>) -> Option<BuildVersionInfo> {
    last_some(cmds, |c: Seq<u8>| load_cmd::build_version_of(c))
}

/// The image with the given segments, sections and load commands; none if no
/// segment is loadable or no command gives an entry point.
pub open spec fn image_of(
    segs: Seq<SegmentSpec>,
    sects: Seq<SectionSpec>,
    cmds: Seq<Seq<u8>>,
    thread_entry: u64,
) -> Option<ImageView> {
    let bare = bare_segments(segs);
    match entry_in(cmds, thread_entry) {
        Some(entry) => if bare.len() == 0 {
            None
        } else {
            Some(
                ImageView {
                    segments: full_segments(bare, sects),
                    entry,
                    link_base: link_base(bare),
                    dylib_deps: dylibs_in(cmds, LC_LOAD_DYLIB),
                    weak_dylib_deps: dylibs_in(cmds, LC_LOAD_WEAK_DYLIB),
                    dylib_id: id_in(cmds),
                    rpaths: rpaths_in(cmds),
                    uuid: uuid_in(cmds),
                    chained_fixups: chained_in(cmds),
                    dyld_info: dyld_info_in(cmds),
                    code_signature: range_in(cmds, LC_CODE_SIGNATURE, 16),
                    build_version: build_version_in(cmds),
                    encryption_info: range_in(cmds, LC_ENCRYPTION_INFO_64, 24),
                },
            )
        },
        None => None,
    }
}

/// The image in a file, given whether its bytes are a Mach-O file and whether
/// its arm64 slice is one.
pub open spec fn parsed(file: Seq<u8>) -> Option<ImageView> {
    match fat::arm64_image(file, records::macho_parses(file)) {
        Some(slice) => match records::load_commands(slice) {
            Some(cmds) => if records::macho_parses(slice) {
                image_of(
                    records::segment_commands(slice).map_values(
                        |raw: Seq<u8>| records::segment_of(slice, raw),
                    ),
                    records::sections_of(records::segment_commands(slice)),
                    cmds,
                    records::first_main(cmds),
                )
            } else {
                None
            },
            None => None,
        },
        None => None,
    }
}

/// A text as a name field.
fn name_field(name: &Option<String>) -> (r: [u8; 16])
    ensures
        r@ == name_bytes(records::opt_text(*name)),
{
    let mut field: [u8; 16] = [0u8; 16];
    if let Some(n) = name {
        let b: &[u8] = n.as_str().as_bytes();
        let mut i: usize = 0;
        while i < 16 && i < b.len()
            invariant
                i <= 16,
                i <= b@.len(),
                field@.len() == 16,
                forall|k: int| 0 <= k < i ==> field@[k] == b@[k],
                forall|k: int| i <= k < 16 ==> field@[k] == 0,
            decreases 16 - i,
        {
            field[i] = b[i];
            i = i + 1;
        }
    }
    assert(field@ =~= name_bytes(records::opt_text(*name)));
    field
}

/// The loadable segments of `segs`, without sections.
fn collect_segments<'data>(segs: &Vec<SegmentRecord<'data>>) -> (r: Vec<Segment<'data>>)
    ensures
        image::segment_views(r@) == bare_segments(records::segment_specs(segs@)),
{
    let mut out: Vec<Segment<'data>> = Vec::new();
    let mut i: usize = 0;
    let ghost all = records::segment_specs(segs@);
    assert(image::segment_views(out@) =~= bare_segments(all.take(0)));
    while i < segs.len()
        invariant
            i <= segs@.len(),
            all == records::segment_specs(segs@),
            image::segment_views(out@) == bare_segments(all.take(i as int)),
        decreases segs@.len() - i,
    {
        let s = &segs[i];
        let ghost before = out@;
        assert(all.take(i + 1).drop_last() =~= all.take(i as int));
        assert(all.take(i + 1).last() == s@);
        let page_zero: bool = match &s.name {
            Some(n) => text::str_eq(n.as_str(), "__PAGEZERO"),
            None => false,
        };
        if s.vmsize != 0 && !page_zero {
            let empty: &'data [u8] = &[];
            assert(empty@ =~= Seq::<u8>::empty());
            let data: &'data [u8] = match s.data {
                Some(d) => d,
                None => empty,
            };
            let sections: Vec<Section> = Vec::new();
            assert(image::section_views(sections@) =~= Seq::<SectionView>::empty());
            out.push(
                Segment {
                    name: name_field(&s.name),
                    vmaddr: s.vmaddr,
                    vmsize: s.vmsize,
                    fileoff: s.file_range.0,
                    filesize: s.file_range.1,
                    maxprot: s.maxprot,
                    initprot: s.initprot,
                    data,
                    sections,
                },
            );
            assert(out@.last()@ =~= bare_segment(s@));
            assert(image::segment_views(out@) =~= image::segment_views(before).push(
                bare_segment(s@),
            ));
        }
        i = i + 1;
    }
    assert(all.take(i as int) =~= all);
    out
}

/// The link base of an image with segments `segs`.
fn find_link_base(segs: &Vec<Segment>) -> (r: u64)
    ensures
        r == link_base(image::segment_views(segs@)),
{
    let mut low: u64 = u64::MAX;
    let mut i: usize = 0;
    let ghost all = image::segment_views(segs@);
    while i < segs.len()
        invariant
            i <= segs@.len(),
            all == image::segment_views(segs@),
            low == lowest(all.take(i as int)),
        decreases segs@.len() - i,
    {
        assert(all.take(i + 1).drop_last() =~= all.take(i as int));
        assert(all.take(i + 1).last() == segs@[i as int]@);
        if segs[i].vmaddr < low {
            low = segs[i].vmaddr;
        }
        i = i + 1;
    }
    assert(all.take(i as int) =~= all);
    if low == u64::MAX {
        0
    } else {
        low
    }
}

/// The first segment whose name reads `name`.
fn find_home(segs: &Vec<Segment>, name: &str) -> (r: Option<usize>)
    ensures
        match r {
            Some(i) => is_home(image::segment_views(segs@), name@, i as int),
            None => forall|i: int| !is_home(image::segment_views(segs@), name@, i),
        },
{
    let mut i: usize = 0;
    let ghost all = image::segment_views(segs@);
    while i < segs.len()
        invariant
            i <= segs@.len(),
            all == image::segment_views(segs@),
            forall|k: int| 0 <= k < i ==> image::field_text(#[trigger] all[k].name) != name@,
        decreases segs@.len() - i,
    {
        assert(all[i as int] == segs@[i as int]@);
        if text::str_eq(segs[i].name_str(), name) {
            return Some(i);
        }
        i = i + 1;
    }
    None
}

/// At most one segment is the first with a given name, and names do not depend
/// on sections.
proof fn lemma_home(a: Seq<SegmentView>, b: Seq<SegmentView>, name: Seq<char>, i: int, k: int)
    requires
        a.len() == b.len(),
        forall|j: int| 0 <= j < a.len() ==> (#[trigger] a[j]).name == b[j].name,
    ensures
        is_home(a, name, i) ==> is_home(b, name, i),
        is_home(a, name, i) && is_home(a, name, k) ==> i == k,
{
    if is_home(a, name, i) {
        assert forall|j: int| 0 <= j < i implies image::field_text(#[trigger] b[j].name)
            != name by {
            assert(a[j].name == b[j].name);
        }
        if is_home(a, name, k) {
            if i < k {
                assert(image::field_text(a[i].name) == name);
            }
            if k < i {
                assert(image::field_text(a[k].name) == name);
            }
        }
    }
}

/// Puts each section into its segment.
fn attach_sections<'data>(segs: Vec<Segment<'data>>, sects: &Vec<SectionRecord>) -> (r: Vec<
    Segment<'data>,
>)
    requires
        forall|i: int| 0 <= i < segs@.len() ==> (#[trigger] segs@[i]).sections@.len() == 0,
    ensures
        image::segment_views(r@) == full_segments(
            image::segment_views(segs@),
            records::section_specs(sects@),
        ),
{
    let ghost bare = image::segment_views(segs@);
    let ghost all = records::section_specs(sects@);
    let mut out: Vec<Segment<'data>> = segs;
    let mut j: usize = 0;
    proof {
        assert forall|i: int| 0 <= i < out@.len() implies #[trigger] out@[i]@ == (SegmentView {
            sections: sections_for(all.take(0), bare, i),
            ..bare[i]
        }) by {
            assert(image::section_views(out@[i].sections@) =~= Seq::<SectionView>::empty());
        }
    }
    while j < sects.len()
        invariant
            j <= sects@.len(),
            all == records::section_specs(sects@),
            out@.len() == bare.len(),
            forall|i: int|
                0 <= i < out@.len() ==> #[trigger] out@[i]@ == (SegmentView {
                    sections: sections_for(all.take(j as int), bare, i),
                    ..bare[i]
                }),
        decreases sects@.len() - j,
    {
        let s = &sects[j];
        let ghost before = out@;
        proof {
            assert(all.take(j + 1).drop_last() =~= all.take(j as int));
            assert(all.take(j + 1).last() == s@);
            reveal_strlit("");
            assert(""@ =~= Seq::<char>::empty());
        }
        let home: &str = match &s.segment_name {
            Some(n) => n.as_str(),
            None => "",
        };
        let found: Option<usize> = find_home(&out, home);
        proof {
            assert forall|i: int, k: int|
                #![trigger is_home(bare, home@, i), is_home(image::segment_views(before), home@, k)]
                is_home(bare, home@, i) == is_home(image::segment_views(before), home@, i) by {
                assert forall|x: int| 0 <= x < bare.len() implies (#[trigger] bare[x]).name
                    == image::segment_views(before)[x].name by {
                    assert(before[x]@.name == bare[x].name);
                }
                lemma_home(bare, image::segment_views(before), home@, i, i);
                lemma_home(image::segment_views(before), bare, home@, i, i);
            }
        }
        match found {
            Some(i) => {
                assert(is_home(image::segment_views(before), home@, i as int));
                assert(before[i as int]@.name == bare[i as int].name);
                let section = Section {
                    sectname: name_field(&s.name),
                    segname: out[i].name,
                    addr: s.addr,
                    size: s.size,
                    fileoff: match s.file_range {
                        Some((off, _)) => off as u32,
                        None => 0,
                    },
                    flags: s.flags,
                };
                assert(section@ =~= section_in(s@, bare[i as int].name));
                let seg = &mut out[i];
                seg.sections.push(section);
                proof {
                    assert(is_home(bare, home@, i as int));
                    assert forall|x: int| 0 <= x < out@.len() implies #[trigger] out@[x]@ == (
                    SegmentView {
                        sections: sections_for(all.take(j + 1), bare, x),
                        ..bare[x]
                    }) by {
                        assert(before[x]@ == (SegmentView {
                            sections: sections_for(all.take(j as int), bare, x),
                            ..bare[x]
                        }));
                        lemma_home(bare, bare, home@, i as int, x);
                        if x == i {
                            assert(image::section_views(out@[x].sections@)
                                =~= image::section_views(before[x].sections@).push(section@));
                        } else {
                            assert(out@[x] == before[x]);
                        }
                    }
                }
            },
            None => {
                proof {
                    assert forall|x: int| 0 <= x < out@.len() implies #[trigger] out@[x]@ == (
                    SegmentView {
                        sections: sections_for(all.take(j + 1), bare, x),
                        ..bare[x]
                    }) by {
                        assert(!is_home(image::segment_views(before), home@, x));
                        assert(!is_home(bare, home@, x));
                    }
                }
            },
        }
        j = j + 1;
    }
    assert(all.take(j as int) =~= all);
    assert(image::segment_views(out@) =~= full_segments(bare, all));
    out
}

/// One more command in front of which the searches are known.
proof fn lemma_step(cmds: Seq<Seq<u8>>, i: int)
    requires
        0 <= i < cmds.len(),
    ensures
        cmds.take(i + 1).drop_last() == cmds.take(i),
        cmds.take(i + 1).last() == cmds[i],
        cmds.take(i + 1).len() > 0,
{
    assert(cmds.take(i + 1).drop_last() =~= cmds.take(i));
}

/// The entry point that the commands give.
fn find_entry(cmds: &Vec<&[u8]>, thread_entry: u64) -> (r: Option<EntryPoint>)
    ensures
        r == entry_in(records::slices(cmds@), thread_entry),
{
    let ghost all = records::slices(cmds@);
    let mut r: Option<EntryPoint> = None;
    let mut i: usize = 0;
    while i < cmds.len()
        invariant
            i <= cmds@.len(),
            all == records::slices(cmds@),
            r == entry_in(all.take(i as int), thread_entry),
        decreases cmds@.len() - i,
    {
        let raw: &[u8] = cmds[i];
        proof {
            lemma_step(all, i as int);
            assert(all[i as int] == raw@);
        }
        if r.is_none() {
            r = match load_cmd::parse_main(raw) {
                Some(off) => Some(EntryPoint::FileOffset(off)),
                None => match load_cmd::parse_thread(raw) {
                    Some(pc) => Some(EntryPoint::VirtualAddress(pc)),
                    None => if load_cmd::has_cmd(raw, LC_UNIXTHREAD, 0) {
                        Some(EntryPoint::VirtualAddress(thread_entry))
                    } else {
                        None
                    },
                },
            };
        }
        i = i + 1;
    }
    assert(all.take(i as int) =~= all);
    r
}

/// The dylibs named by the commands of kind `cmd`.
fn find_dylibs<'data>(cmds: &Vec<&'data [u8]>, cmd: u32) -> (r: Vec<DylibRef<'data>>)
    ensures
        image::dylib_views(r@) == dylibs_in(records::slices(cmds@), cmd),
{
    let ghost all = records::slices(cmds@);
    let mut r: Vec<DylibRef<'data>> = Vec::new();
    let mut i: usize = 0;
    assert(image::dylib_views(r@) =~= dylibs_in(all.take(0), cmd));
    while i < cmds.len()
        invariant
            i <= cmds@.len(),
            all == records::slices(cmds@),
            image::dylib_views(r@) == dylibs_in(all.take(i as int), cmd),
        decreases cmds@.len() - i,
    {
        let raw: &'data [u8] = cmds[i];
        let ghost before = r@;
        proof {
            lemma_step(all, i as int);
            assert(all[i as int] == raw@);
        }
        if let Some(d) = load_cmd::parse_dylib_ref(raw, cmd) {
            r.push(d);
            assert(image::dylib_views(r@) =~= image::dylib_views(before).push(d@));
        }
        i = i + 1;
    }
    assert(all.take(i as int) =~= all);
    r
}

/// The identity that the commands give.
fn find_id<'data>(cmds: &Vec<&'data [u8]>) -> (r: Option<DylibRef<'data>>)
    ensures
        image::opt_dylib(r) == id_in(records::slices(cmds@)),
{
    let ghost all = records::slices(cmds@);
    let mut r: Option<DylibRef<'data>> = None;
    let mut i: usize = 0;
    while i < cmds.len()
        invariant
            i <= cmds@.len(),
            all == records::slices(cmds@),
            image::opt_dylib(r) == id_in(all.take(i as int)),
        decreases cmds@.len() - i,
    {
        let raw: &'data [u8] = cmds[i];
        proof {
            lemma_step(all, i as int);
            assert(all[i as int] == raw@);
        }
        if r.is_none() {
            r = load_cmd::parse_dylib_ref(raw, LC_ID_DYLIB);
        }
        i = i + 1;
    }
    assert(all.take(i as int) =~= all);
    r
}

/// The run paths that the commands give.
fn find_rpaths<'data>(cmds: &Vec<&'data [u8]>) -> (r: Vec<&'data str>)
    ensures
        image::str_views(r@) == rpaths_in(records::slices(cmds@)),
{
    let ghost all = records::slices(cmds@);
    let mut r: Vec<&'data str> = Vec::new();
    let mut i: usize = 0;
    assert(image::str_views(r@) =~= rpaths_in(all.take(0)));
    while i < cmds.len()
        invariant
            i <= cmds@.len(),
            all == records::slices(cmds@),
            image::str_views(r@) == rpaths_in(all.take(i as int)),
        decreases cmds@.len() - i,
    {
        let raw: &'data [u8] = cmds[i];
        let ghost before = r@;
        proof {
            lemma_step(all, i as int);
            assert(all[i as int] == raw@);
        }
        if let Some(p) = load_cmd::parse_rpath(raw) {
            r.push(p);
            assert(image::str_views(r@) =~= image::str_views(before).push(p@));
        }
        i = i + 1;
    }
    assert(all.take(i as int) =~= all);
    r
}

/// What the commands give of which the last one counts.
struct LastFound {
    uuid: Option<[u8; 16]>,
    chained_fixups: Option<ChainedFixupsInfo>,
    dyld_info: Option<DyldInfoCmd>,
    code_signature: Option<LinkeditRange>,
    build_version: Option<BuildVersionInfo>,
    encryption_info: Option<LinkeditRange>,
}

impl LastFound {
    spec fn of(self, cmds: Seq<Seq<u8>>) -> bool {
        &&& image::opt_uuid(self.uuid) == uuid_in(cmds)
        &&& self.chained_fixups == chained_in(cmds)
        &&& self.dyld_info == dyld_info_in(cmds)
        &&& self.code_signature == range_in(cmds, LC_CODE_SIGNATURE, 16)
        &&& self.build_version == build_version_in(cmds)
        &&& self.encryption_info == range_in(cmds, LC_ENCRYPTION_INFO_64, 24)
    }
}

/// Finds what the commands give of which the last one counts.
fn find_last(cmds: &Vec<&[u8]>) -> (r: LastFound)
    ensures
        r.of(records::slices(cmds@)),
{
    let ghost all = records::slices(cmds@);
    let mut r = LastFound {
        uuid: None,
        chained_fixups: None,
        dyld_info: None,
        code_signature: None,
        build_version: None,
        encryption_info: None,
    };
    let mut i: usize = 0;
    while i < cmds.len()
        invariant
            i <= cmds@.len(),
            all == records::slices(cmds@),
            r.of(all.take(i as int)),
        decreases cmds@.len() - i,
    {
        let raw: &[u8] = cmds[i];
        proof {
            lemma_step(all, i as int);
            assert(all[i as int] == raw@);
        }
        if let Some(u) = load_cmd::parse_uuid(raw) {
            r.uuid = Some(u);
        }
        if let Some(c) = load_cmd::parse_chained(raw) {
            r.chained_fixups = Some(c);
        }
        if let Some(d) = load_cmd::parse_dyld_info(raw) {
            r.dyld_info = Some(d);
        }
        if let Some(s) = load_cmd::parse_range(raw, LC_CODE_SIGNATURE, 16) {
            r.code_signature = Some(s);
        }
        if let Some(v) = load_cmd::parse_build_version(raw) {
            r.build_version = Some(v);
        }
        if let Some(e) = load_cmd::parse_range(raw, LC_ENCRYPTION_INFO_64, 24) {
            r.encryption_info = Some(e);
        }
        i = i + 1;
    }
    assert(all.take(i as int) =~= all);
    r
}

/// Builds the image from its segments, sections and load commands.
/// `thread_entry` stands in for an `LC_UNIXTHREAD` command that holds no program
/// counter.
pub fn build_image<'data>(
    segs: &Vec<SegmentRecord<'data>>,
    sects: &Vec<SectionRecord>,
    cmds: &Vec<&'data [u8]>,
    thread_entry: u64,
) -> (r: Option<UserImage<'data>>)
    ensures
        match r {
            Some(i) => image_of(
                records::segment_specs(segs@),
                records::section_specs(sects@),
                records::slices(cmds@),
                thread_entry,
            ) == Some(i@),
            None => image_of(
                records::segment_specs(segs@),
                records::section_specs(sects@),
                records::slices(cmds@),
                thread_entry,
            ) is None,
        },
{
    let bare = collect_segments(segs);
    if bare.len() == 0 {
        assert(image::segment_views(bare@).len() == 0);
        return None;
    }
    proof {
        lemma_bare_sections(records::segment_specs(segs@));
        assert forall|i: int| 0 <= i < bare@.len() implies (#[trigger] bare@[i]).sections@.len()
            == 0 by {
            assert(image::segment_views(bare@)[i].sections.len() == 0);
        }
    }
    let base: u64 = find_link_base(&bare);
    let segments = attach_sections(bare, sects);
    let entry: EntryPoint = match find_entry(cmds, thread_entry) {
        Some(e) => e,
        None => {
            return None;
        },
    };
    let last = find_last(cmds);
    Some(
        UserImage {
            segments,
            entry,
            link_base: base,
            dylib_deps: find_dylibs(cmds, LC_LOAD_DYLIB),
            weak_dylib_deps: find_dylibs(cmds, LC_LOAD_WEAK_DYLIB),
            dylib_id: find_id(cmds),
            rpaths: find_rpaths(cmds),
            uuid: last.uuid,
            chained_fixups: last.chained_fixups,
            dyld_info: last.dyld_info,
            code_signature: last.code_signature,
            build_version: last.build_version,
            encryption_info: last.encryption_info,
        },
    )
}

/// No loadable segment has sections before they are attached.
proof fn lemma_bare_sections(segs: Seq<SegmentSpec>)
    ensures
        forall|i: int|
            0 <= i < bare_segments(segs).len() ==> (#[trigger] bare_segments(
                segs,
            )[i]).sections.len() == 0,
    decreases segs.len(),
{
    if segs.len() > 0 {
        let before = bare_segments(segs.drop_last());
        lemma_bare_sections(segs.drop_last());
        assert forall|i: int| 0 <= i < bare_segments(segs).len() implies (#[trigger] bare_segments(
            segs,
        )[i]).sections.len() == 0 by {
            if i < before.len() {
                assert(bare_segments(segs)[i] == before[i]);
            }
        }
    }
}

/// Parses a Mach-O file, or the arm64 slice of a FAT file. None if there is no
/// arm64 image, no loadable segment or no entry point.
#[must_use]
pub fn parse<'data>(bytes: &'data [u8]) -> (r: Option<UserImage<'data>>)
    ensures
        match r {
            Some(i) => parsed(bytes@) == Some(i@),
            None => parsed(bytes@) is None,
        },
{
    let slice: &'data [u8] = fat::arm64_slice(bytes)?;
    let segs = records::macho_segments(slice)?;
    let sects = records::macho_sections(slice)?;
    let cmds = records::macho_commands(slice)?;
    let thread_entry: u64 = records::macho_entry(slice)?;
    build_image(&segs, &sects, &cmds, thread_entry)
}

} // verus!
