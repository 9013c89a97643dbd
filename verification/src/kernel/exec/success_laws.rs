//! When a program can be loaded.

use crate::bytes;
use crate::kernel::exec::loader;
use crate::loader::image;
use crate::loader::image::{ImageView, SegmentView};
use crate::loader::parse_laws;
use crate::mem::Memory;
use vstd::prelude::*;

verus! {

/// An image is placed wherever memory has room for the whole of it.
pub proof fn law_image_with_room_is_placed(m: Memory, image: ImageView, load_base: u64)
    requires
        load_base + image.span() <= u64::MAX,
        m.covers(load_base as int, image.span()),
        forall|j: int|
            0 <= j < image.segments.len() ==> image.link_base <= (#[trigger] image.segments[j]).vmaddr
                && image.segments[j].vmaddr + image.segments[j].vmsize <= u64::MAX,
    ensures
        loader::placed(m, image, load_base) is Ok,
{
    if image.segments.len() > 0 {
        parse_laws::lemma_highest(image.segments, image.link_base as int);
    }
    let zeroed = if image.span() == 0 {
        m
    } else {
        m.put(load_base as int, bytes::zeros(image.span() as nat))
    };
    assert forall|j: int| 0 <= j < image.segments.len() implies image.link_base <= (
    #[trigger] image.segments[j]).vmaddr && image.segments[j].vmaddr + image.segments[j].vmsize
        <= image.link_base + image.span() by {
        assert(image::segment_end(image.segments[j]) <= image::highest_end(
            image.segments,
            image.link_base as int,
        ));
    }
    lemma_copied(
        zeroed,
        image.segments,
        image.segments.len() as int,
        image.link_base,
        load_base,
        image.span(),
    );
}

proof fn lemma_copied(
    m: Memory,
    segs: Seq<SegmentView>,
    n: int,
    link_base: u64,
    load_base: u64,
    span: int,
)
    requires
        0 <= n <= segs.len(),
        0 <= span,
        load_base + span <= u64::MAX,
        m.covers(load_base as int, span),
        forall|j: int|
            0 <= j < segs.len() ==> link_base <= (#[trigger] segs[j]).vmaddr && segs[j].vmaddr
                + segs[j].vmsize <= link_base + span,
    ensures
        loader::copied(m, segs, n, link_base, load_base) matches Ok(after) && after.base == m.base
            && after.bytes.len() == m.bytes.len(),
    decreases n,
{
    if n > 0 {
        lemma_copied(m, segs, n - 1, link_base, load_base, span);
        assert(link_base <= segs[n - 1].vmaddr);
    }
}

/// A program can start if its entry does not lie before its link base and both
/// the entry and the stack lie inside the address space.
pub proof fn law_start_inside_address_space(image: ImageView, load_base: u64, entry: int)
    requires
        image.entry_address() == Some(entry),
        image.link_base <= entry <= u64::MAX,
        load_base + (entry - image.link_base) <= u64::MAX,
        load_base + image.span() + 0xfff + 0x1_0000 <= u64::MAX,
    ensures
        loader::start_of(image, load_base) is Ok,
{
}

/// A stack is laid out wherever memory has room for the strings, the seven words
/// and what aligning them takes.
pub proof fn law_stack_with_room_is_laid(
    m: Memory,
    stack_top: u64,
    mach_header: u64,
    app_path: Seq<u8>,
    exe_path: Seq<u8>,
)
    requires
        ({
            let need = app_path.len() + 7 + exe_path.len() + 15 + 56;
            stack_top >= need && m.covers(stack_top - need, need as int)
        }),
    ensures
        loader::stack_laid(m, stack_top, mach_header, app_path, exe_path) is Ok,
{
}

} // verus!
