//! What a program finds when it starts: its segments, its entry, its stack.

use crate::bytes;
use crate::kernel::exec::loader;
use crate::loader::image::{ImageView, SegmentView};
use crate::mem;
use crate::mem::{Memory, Stop};
use vstd::prelude::*;

verus! {

/// Whether byte `k` of a segment is one that the file has and memory too.
pub open spec fn has_byte(s: SegmentView, k: int) -> bool {
    0 <= k < s.data.len() && k < s.vmsize
}

/// Where byte `k` of a segment lies once the image is loaded.
pub open spec fn byte_place(image: ImageView, load_base: u64, s: SegmentView, k: int) -> int {
    load_base + (s.vmaddr - image.link_base) + k
}

proof fn lemma_image_byte(
    segs: Seq<SegmentView>,
    n: int,
    link_base: u64,
    offset: int,
    i: int,
    k: int,
)
    requires
        0 <= i < n <= segs.len(),
        has_byte(segs[i], k),
        offset == segs[i].vmaddr - link_base + k,
        forall|j: int|
            i < j < n ==> !has_byte(#[trigger] segs[j], offset - (segs[j].vmaddr - link_base)),
    ensures
        loader::image_byte(segs, n, link_base, offset) == segs[i].data[k],
    decreases n,
{
    if i < n - 1 {
        assert(!has_byte(segs[n - 1], offset - (segs[n - 1].vmaddr - link_base)));
        lemma_image_byte(segs, n - 1, link_base, offset, i, k);
    }
}

proof fn lemma_no_image_byte(segs: Seq<SegmentView>, n: int, link_base: u64, offset: int)
    requires
        0 <= n <= segs.len(),
        forall|j: int|
            0 <= j < n ==> !has_byte(#[trigger] segs[j], offset - (segs[j].vmaddr - link_base)),
    ensures
        loader::image_byte(segs, n, link_base, offset) == 0,
    decreases n,
{
    if n > 0 {
        assert(!has_byte(segs[n - 1], offset - (segs[n - 1].vmaddr - link_base)));
        lemma_no_image_byte(segs, n - 1, link_base, offset);
    }
}

/// Each byte of a segment that no later segment overwrites is in memory, as far
/// from the load address as it is linked from the link base.
pub proof fn law_segment_bytes_are_loaded(
    m: Memory,
    image: ImageView,
    load_base: u64,
    i: int,
    k: int,
)
    requires
        loader::placed(m, image, load_base) is Ok,
        forall|j: int|
            0 <= j < image.segments.len() ==> (#[trigger] image.segments[j]).vmaddr
                + image.segments[j].vmsize <= u64::MAX,
        0 <= i < image.segments.len(),
        image.link_base <= image.segments[i].vmaddr,
        has_byte(image.segments[i], k),
        forall|j: int|
            i < j < image.segments.len() ==> !has_byte(
                #[trigger] image.segments[j],
                image.segments[i].vmaddr + k - image.segments[j].vmaddr,
            ),
    ensures
        (loader::placed(m, image, load_base)->Ok_0).get8(
            byte_place(image, load_base, image.segments[i], k),
        ) == Some(image.segments[i].data[k] as int),
{
    let s = image.segments[i];
    let n = image.segments.len() as int;
    let a = byte_place(image, load_base, s, k);
    let offset = s.vmaddr - image.link_base + k;
    crate::loader::parse_laws::lemma_highest(image.segments, image.link_base as int);
    assert(crate::loader::image::segment_end(s) <= crate::loader::image::highest_end(
        image.segments,
        image.link_base as int,
    ));
    assert(offset < image.span());
    assert(m.covers(load_base as int, image.span()));
    loader::law_image_is_in_memory(m, image, load_base, a);
    assert forall|j: int| i < j < n implies !has_byte(
        #[trigger] image.segments[j],
        offset - (image.segments[j].vmaddr - image.link_base),
    ) by {
        assert(offset - (image.segments[j].vmaddr - image.link_base) == s.vmaddr + k
            - image.segments[j].vmaddr);
    }
    lemma_image_byte(image.segments, n, image.link_base, offset, i, k);
}

/// All else between the load address and the end of the image is zero, and
/// memory outside of the image is as it was.
pub proof fn law_rest_of_image_is_zero(m: Memory, image: ImageView, load_base: u64, a: int)
    requires
        loader::placed(m, image, load_base) is Ok,
        image.span() > 0,
        forall|j: int|
            0 <= j < image.segments.len() ==> (#[trigger] image.segments[j]).vmaddr
                + image.segments[j].vmsize <= u64::MAX,
        m.base <= a < m.base + m.bytes.len(),
        load_base <= a < load_base + image.span() ==> forall|j: int|
            0 <= j < image.segments.len() ==> !has_byte(
                #[trigger] image.segments[j],
                a - load_base - (image.segments[j].vmaddr - image.link_base),
            ),
    ensures
        (loader::placed(m, image, load_base)->Ok_0).get8(a) == if load_base <= a < load_base
            + image.span() {
            Some(0int)
        } else {
            m.get8(a)
        },
{
    loader::law_image_is_in_memory(m, image, load_base, a);
    if load_base <= a < load_base + image.span() {
        lemma_no_image_byte(
            image.segments,
            image.segments.len() as int,
            image.link_base,
            a - load_base,
        );
    }
}

/// A program starts as far from the load address as its entry is linked from the
/// link base, on a stack of its own: 64 KiB that start at the first page behind
/// the image.
pub proof fn law_start(image: ImageView, load_base: u64)
    requires
        loader::start_of(image, load_base) is Ok,
    ensures
        ({
            let (pc, sp) = loader::start_of(image, load_base)->Ok_0;
            let entry = match image.entry_address() {
                Some(va) => va,
                None => 0,
            };
            &&& pc - load_base == entry - image.link_base
            &&& (sp - 0x1_0000) % 4096 == 0
            &&& load_base + image.span() <= sp - 0x1_0000 < load_base + image.span() + 4096
        }),
{
}

/// Whether zero-closed text or any other bytes stand at an address.
pub open spec fn bytes_at(m: Memory, addr: int, data: Seq<u8>) -> bool {
    forall|k: int|
        0 <= k < data.len() ==> m.get8(addr + k) == Some((#[trigger] data[k]) as int)
}

/// What a new stack holds, read from memory at the stack pointer: the address of
/// the image, one argument, its address, two zeros, the address of the path, and
/// a zero. The addresses lead to the strings, which lie above all that; the
/// argument ends at the top. Below the stack pointer and above the top nothing
/// changes.
pub proof fn law_stack_is_laid(
    m: Memory,
    stack_top: u64,
    mach_header: u64,
    app_path: Seq<u8>,
    exe_path: Seq<u8>,
)
    requires
        loader::stack_laid(m, stack_top, mach_header, app_path, exe_path) is Ok,
    ensures
        ({
            let n = loader::stack_laid(m, stack_top, mach_header, app_path, exe_path)->Ok_0;
            let sp = loader::stack_places(
                stack_top,
                app_path.len() as int,
                exe_path.len() as int,
            ).2;
            let arg = n.get64(sp + 16)->0;
            let exe = n.get64(sp + 40)->0;
            &&& sp % 16 == 0
            &&& n.get64(sp) == Some(mach_header as int)
            &&& n.get64(sp + 8) == Some(1int)
            &&& n.get64(sp + 16) is Some
            &&& n.get64(sp + 24) == Some(0int)
            &&& n.get64(sp + 32) == Some(0int)
            &&& n.get64(sp + 40) is Some
            &&& n.get64(sp + 48) == Some(0int)
            &&& bytes_at(n, arg, app_path)
            &&& bytes_at(n, exe, exe_path)
            &&& arg + app_path.len() == stack_top
            &&& exe % 8 == 0
            &&& exe + exe_path.len() <= arg < exe + exe_path.len() + 8
            &&& sp + 56 <= exe < sp + 56 + 16
            &&& n.base == m.base
            &&& n.bytes.len() == m.bytes.len()
            &&& forall|x: int| x < sp || stack_top <= x ==> #[trigger] n.get8(x) == m.get8(x)
        }),
{
    let (arg, exe, sp) = loader::stack_places(
        stack_top,
        app_path.len() as int,
        exe_path.len() as int,
    );
    let n = loader::stack_laid(m, stack_top, mach_header, app_path, exe_path)->Ok_0;
    let w = loader::table_words(mach_header, arg as u64, exe as u64);
    loader::law_stack_layout(m, stack_top, mach_header, app_path, exe_path, 0);
    loader::law_stack_layout(m, stack_top, mach_header, app_path, exe_path, 1);
    loader::law_stack_layout(m, stack_top, mach_header, app_path, exe_path, 2);
    loader::law_stack_layout(m, stack_top, mach_header, app_path, exe_path, 3);
    loader::law_stack_layout(m, stack_top, mach_header, app_path, exe_path, 4);
    loader::law_stack_layout(m, stack_top, mach_header, app_path, exe_path, 5);
    loader::law_stack_layout(m, stack_top, mach_header, app_path, exe_path, 6);
    assert(w[0] == mach_header && w[1] == 1 && w[2] == arg as u64 && w[3] == 0 && w[4] == 0 && w[5]
        == exe as u64 && w[6] == 0);
    let t = loader::stack_table(mach_header, arg as u64, exe as u64);
    lemma_table_len(w, 7);
    let m1 = m.put(arg, app_path);
    let m2 = m1.put(exe, exe_path);
    mem::law_written_bytes_are_read(m, arg, app_path);
    mem::law_written_bytes_are_read(m1, exe, exe_path);
    mem::law_written_bytes_are_read(m2, sp, t);
    assert forall|x: int| x < sp || stack_top <= x implies #[trigger] n.get8(x) == m.get8(x) by {
        assert(m2.get8(x) == m1.get8(x));
        assert(m1.get8(x) == m.get8(x));
    }
    assert forall|k: int| 0 <= k < app_path.len() implies n.get8(arg + k) == Some(
        (#[trigger] app_path[k]) as int,
    ) by {
        assert(m2.get8(arg + k) == m1.get8(arg + k));
        assert(n.get8(arg + k) == m2.get8(arg + k));
    }
    assert forall|k: int| 0 <= k < exe_path.len() implies n.get8(exe + k) == Some(
        (#[trigger] exe_path[k]) as int,
    ) by {
        assert(n.get8(exe + k) == m2.get8(exe + k));
    }
}

proof fn lemma_table_len(w: Seq<u64>, n: int)
    requires
        0 <= n,
    ensures
        loader::words_bytes(w, n).len() == 8 * n,
    decreases n,
{
    if n > 0 {
        lemma_table_len(w, n - 1);
        bytes::lemma_le64_roundtrip(w[n - 1]);
    }
}

} // verus!
