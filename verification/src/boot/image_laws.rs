//! Where a boot image starts, and which of its commands count.

use crate::boot::image;
use crate::boot::kernel_image;
use crate::boot::kernel_image::{Format, SegmentView, Start};
use crate::bytes;
use crate::loader::parse_laws;
use crate::loader::parse_laws::{is_kind, lists, state_holds};
use crate::loader::records::SegmentSpec;
use vstd::prelude::*;

verus! {

proof fn lemma_main_offset(cmds: Seq<Seq<u8>>, i: int)
    requires
        0 <= i < cmds.len(),
        is_kind(cmds[i], 0x8000_0028, 24),
        forall|j: int| 0 <= j < i ==> !is_kind(#[trigger] cmds[j], 0x8000_0028, 24),
    ensures
        image::main_offset(cmds) == Some(bytes::le64(cmds[i], 8) as u64),
    decreases cmds.len(),
{
    if i > 0 {
        let d = cmds.drop_first();
        assert(!is_kind(cmds[0], 0x8000_0028, 24));
        assert(d[i - 1] == cmds[i]);
        assert forall|j: int| 0 <= j < i - 1 implies !is_kind(
            #[trigger] d[j],
            0x8000_0028,
            24,
        ) by {
            assert(d[j] == cmds[j + 1]);
        }
        lemma_main_offset(d, i - 1);
    }
}

proof fn lemma_no_main(cmds: Seq<Seq<u8>>)
    requires
        forall|j: int| 0 <= j < cmds.len() ==> !is_kind(#[trigger] cmds[j], 0x8000_0028, 24),
    ensures
        image::main_offset(cmds) is None,
    decreases cmds.len(),
{
    if cmds.len() > 0 {
        let d = cmds.drop_first();
        assert(!is_kind(cmds[0], 0x8000_0028, 24));
        assert forall|j: int| 0 <= j < d.len() implies !is_kind(
            #[trigger] d[j],
            0x8000_0028,
            24,
        ) by {
            assert(d[j] == cmds[j + 1]);
        }
        lemma_no_main(d);
    }
}

proof fn lemma_text_segment(segs: Seq<SegmentSpec>, t: int)
    requires
        0 <= t < segs.len(),
        segs[t].name == Some("__TEXT"@),
        forall|j: int| 0 <= j < t ==> (#[trigger] segs[j]).name != Some("__TEXT"@),
    ensures
        image::text_segment(segs) == Some(segs[t]),
    decreases segs.len(),
{
    if t > 0 {
        let d = segs.drop_first();
        assert(segs[0].name != Some("__TEXT"@));
        assert(d[t - 1] == segs[t]);
        assert forall|j: int| 0 <= j < t - 1 implies (#[trigger] d[j]).name != Some("__TEXT"@) by {
            assert(d[j] == segs[j + 1]);
        }
        lemma_text_segment(d, t - 1);
    }
}

proof fn lemma_no_text(segs: Seq<SegmentSpec>)
    requires
        forall|j: int| 0 <= j < segs.len() ==> (#[trigger] segs[j]).name != Some("__TEXT"@),
    ensures
        image::text_segment(segs) is None,
    decreases segs.len(),
{
    if segs.len() > 0 {
        let d = segs.drop_first();
        assert(segs[0].name != Some("__TEXT"@));
        assert forall|j: int| 0 <= j < d.len() implies (#[trigger] d[j]).name != Some(
            "__TEXT"@,
        ) by {
            assert(d[j] == segs[j + 1]);
        }
        lemma_no_text(d);
    }
}

/// The entry address comes from the first command for a main function: its file
/// offset, put into memory by the first text segment. Without a text segment the
/// offset is the address.
pub proof fn law_main_gives_entry(cmds: Seq<Seq<u8>>, segs: Seq<SegmentSpec>, i: int, t: int)
    requires
        0 <= i < cmds.len(),
        is_kind(cmds[i], 0x8000_0028, 24),
        forall|j: int| 0 <= j < i ==> !is_kind(#[trigger] cmds[j], 0x8000_0028, 24),
        0 <= t <= segs.len(),
        t < segs.len() ==> segs[t].name == Some("__TEXT"@),
        forall|j: int| 0 <= j < t ==> (#[trigger] segs[j]).name != Some("__TEXT"@),
    ensures
        ({
            let off = bytes::le64(cmds[i], 8);
            let entry = image::entry_address(cmds, segs);
            &&& t < segs.len() && off >= segs[t].file_range.0 ==> entry - segs[t].vmaddr == off
                - segs[t].file_range.0
            &&& t < segs.len() && off < segs[t].file_range.0 ==> entry == segs[t].vmaddr
            &&& t == segs.len() ==> entry == off
        }),
{
    lemma_main_offset(cmds, i);
    if t < segs.len() {
        lemma_text_segment(segs, t);
    } else {
        lemma_no_text(segs);
    }
}

proof fn lemma_thread_start(cmds: Seq<Seq<u8>>, i: int, skipped: nat, pc: int)
    requires
        0 <= i < cmds.len(),
        is_kind(cmds[i], 0x5, 8),
        state_holds(cmds[i], 8, skipped, pc),
        forall|j: int| 0 <= j < i ==> !is_kind(#[trigger] cmds[j], 0x5, 8),
    ensures
        image::thread_start(cmds) == Some(pc as u64),
        0 <= pc <= u64::MAX,
    decreases cmds.len(),
{
    if i > 0 {
        let d = cmds.drop_first();
        assert(!is_kind(cmds[0], 0x5, 8));
        assert(d[i - 1] == cmds[i]);
        assert forall|j: int| 0 <= j < i - 1 implies !is_kind(#[trigger] d[j], 0x5, 8) by {
            assert(d[j] == cmds[j + 1]);
        }
        lemma_thread_start(d, i - 1, skipped, pc);
    } else {
        parse_laws::lemma_state_holds(cmds[0], 8, skipped, pc);
    }
}

/// Without a command for a main function the entry address is the program counter
/// in the first command for a thread.
pub proof fn law_thread_gives_entry(
    cmds: Seq<Seq<u8>>,
    segs: Seq<SegmentSpec>,
    i: int,
    skipped: nat,
    pc: int,
)
    requires
        forall|j: int| 0 <= j < cmds.len() ==> !is_kind(#[trigger] cmds[j], 0x8000_0028, 24),
        0 <= i < cmds.len(),
        is_kind(cmds[i], 0x5, 8),
        state_holds(cmds[i], 8, skipped, pc),
        forall|j: int| 0 <= j < i ==> !is_kind(#[trigger] cmds[j], 0x5, 8),
    ensures
        image::entry_address(cmds, segs) == pc,
{
    lemma_no_main(cmds);
    lemma_thread_start(cmds, i, skipped, pc);
}

// ── Kernel images ──────────────────────────────────────────────────────────

/// A 32-bit number of a file, in its byte order.
pub open spec fn word(file: Seq<u8>, at: int, little: bool) -> int {
    if little {
        file[at] + 0x100 * file[at + 1] + 0x1_0000 * file[at + 2] + 0x100_0000 * file[at + 3]
    } else {
        file[at + 3] + 0x100 * file[at + 2] + 0x1_0000 * file[at + 1] + 0x100_0000 * file[at]
    }
}

/// A 64-bit number of a file, in its byte order.
pub open spec fn long(file: Seq<u8>, at: int, little: bool) -> int {
    if little {
        word(file, at, little) + 0x1_0000_0000 * word(file, at + 4, little)
    } else {
        word(file, at + 4, little) + 0x1_0000_0000 * word(file, at, little)
    }
}

/// Whether `at` are the places of the load commands from the first on: each is as
/// far behind the one before as that one says.
pub open spec fn commands_at(file: Seq<u8>, little: bool, at: Seq<int>, first: int) -> bool {
    &&& at.len() > 0 ==> at[0] == first
    &&& forall|i: int|
        #![trigger at[i]]
        0 < i < at.len() ==> at[i] == at[i - 1] + word(file, at[i - 1] + 4, little)
}

/// Whether the command at a place describes a segment.
pub open spec fn describes(file: Seq<u8>, little: bool, at: int, s: SegmentView) -> bool {
    let kind = word(file, at, little);
    &&& kind == 0x1 || kind == 0x19
    &&& s.vmaddr == if kind == 0x19 {
        long(file, at + 24, little)
    } else {
        word(file, at + 24, little)
    }
    &&& s.vmsize == if kind == 0x19 {
        long(file, at + 32, little)
    } else {
        word(file, at + 28, little)
    }
    &&& s.fileoff == if kind == 0x19 {
        long(file, at + 40, little)
    } else {
        word(file, at + 32, little)
    }
    &&& s.filesize == if kind == 0x19 {
        long(file, at + 48, little)
    } else {
        word(file, at + 36, little)
    }
    &&& s.data == kernel_image::segment_at(file, at, little).data
}

proof fn lemma_numbers(file: Seq<u8>, at: int, little: bool)
    ensures
        kernel_image::num32(file, at, little) == word(file, at, little),
        kernel_image::num64(file, at, little) == long(file, at, little),
        0 <= word(file, at, little) <= u32::MAX,
        0 <= long(file, at, little) <= u64::MAX,
{
}

/// What the command at a place says.
spec fn segment_of(file: Seq<u8>, little: bool, at: int) -> Option<SegmentView> {
    if kernel_image::is_segment(file, at, little) {
        Some(kernel_image::segment_at(file, at, little))
    } else {
        None
    }
}

proof fn lemma_segments_from(file: Seq<u8>, little: bool, at: Seq<int>, first: int)
    requires
        commands_at(file, little, at, first),
    ensures
        kernel_image::segments_from(file, first, at.len() as int, little) == forward(
            at,
            |p: int| segment_of(file, little, p),
        ),
    decreases at.len(),
{
    let f = |p: int| segment_of(file, little, p);
    if at.len() > 0 {
        let d = at.drop_first();
        let next = first + word(file, first + 4, little);
        lemma_numbers(file, first + 4, little);
        assert(at[0] == first);
        assert forall|i: int| #![trigger d[i]] 0 < i < d.len() implies d[i] == d[i - 1] + word(
            file,
            d[i - 1] + 4,
            little,
        ) by {
            assert(at[i + 1] == at[i] + word(file, at[i] + 4, little));
        }
        if d.len() > 0 {
            assert(at[1] == next);
            assert(d[0] == next);
        }
        lemma_segments_from(file, little, d, next);
        assert(kernel_image::segments_from(file, first, at.len() as int, little) =~= forward(
            at,
            f,
        ));
    }
}

/// What `f` finds in each item, from the first on.
spec fn forward<A, B>(from: Seq<A>, f: spec_fn(A) -> Option<B>) -> Seq<B>
    decreases from.len(),
{
    if from.len() == 0 {
        Seq::empty()
    } else {
        (match f(from[0]) {
            Some(b) => seq![b],
            None => Seq::empty(),
        }) + forward(from.drop_first(), f)
    }
}

proof fn lemma_forward<A, B>(from: Seq<A>, f: spec_fn(A) -> Option<B>)
    ensures
        forward(from, f) == parse_laws::kept(from, f),
    decreases from.len(),
{
    if from.len() == 1 {
        assert(from.drop_first() =~= Seq::<A>::empty());
        assert(from.drop_last() =~= Seq::<A>::empty());
        assert(forward(from.drop_first(), f) =~= Seq::<B>::empty());
        assert(parse_laws::kept(from.drop_last(), f) =~= Seq::<B>::empty());
        assert(forward(from, f) =~= parse_laws::kept(from, f));
    } else if from.len() > 1 {
        let d = from.drop_first();
        let e = from.drop_last();
        lemma_forward(d, f);
        lemma_forward(e, f);
        lemma_forward(d.drop_last(), f);
        assert(e.drop_first() =~= d.drop_last());
        assert(e[0] == from[0]);
        assert(d.last() == from.last());
        assert(forward(from, f) =~= parse_laws::kept(from, f));
    }
}

/// The segments of a kernel image are those of its segment commands, of either
/// width, in order and with the numbers that the commands hold in the byte order
/// of the file.
pub proof fn law_kernel_segments_are_listed(file: Seq<u8>, f: Format, at: Seq<int>)
    requires
        kernel_image::format_of(file) == Some(f),
        word(file, 16, f.little) == at.len(),
        commands_at(
            file,
            f.little,
            at,
            if f.wide {
                32
            } else {
                28
            },
        ),
    ensures
        lists(
            at,
            kernel_image::kernel_segments(file),
            |p: int, s: SegmentView| describes(file, f.little, p, s),
        ),
{
    let little = f.little;
    let first: int = if f.wide {
        32
    } else {
        28
    };
    lemma_numbers(file, 16, little);
    lemma_segments_from(file, little, at, first);
    let g = |p: int| segment_of(file, little, p);
    lemma_forward(at, g);
    let stands = |p: int, s: SegmentView| describes(file, little, p, s);
    assert forall|p: int, s: SegmentView| #[trigger] stands(p, s) <==> g(p) == Some(s) by {
        lemma_describes(file, little, p, s);
    }
    parse_laws::lemma_kept(at, g, stands);
}

proof fn lemma_describes(file: Seq<u8>, little: bool, p: int, s: SegmentView)
    ensures
        describes(file, little, p, s) <==> segment_of(file, little, p) == Some(s),
{
    lemma_numbers(file, p, little);
    lemma_numbers(file, p + 24, little);
    lemma_numbers(file, p + 28, little);
    lemma_numbers(file, p + 32, little);
    lemma_numbers(file, p + 36, little);
    lemma_numbers(file, p + 40, little);
    lemma_numbers(file, p + 48, little);
    let t = kernel_image::segment_at(file, p, little);
    if describes(file, little, p, s) {
        assert(s =~= t);
    }
}

/// Whether the command at a place is the text segment: its name and a zero byte.
pub open spec fn is_text(file: Seq<u8>, little: bool, at: int) -> bool {
    let kind = word(file, at, little);
    &&& kind == 0x1 || kind == 0x19
    &&& file[at + 8] == 0x5f && file[at + 9] == 0x5f && file[at + 10] == 0x54 && file[at + 11]
        == 0x45 && file[at + 12] == 0x58 && file[at + 13] == 0x54 && file[at + 14] == 0
}

proof fn lemma_start_from(
    file: Seq<u8>,
    little: bool,
    at: Seq<int>,
    first: int,
    i: int,
    t: int,
)
    requires
        commands_at(file, little, at, first),
        forall|k: int|
            0 <= k < at.len() ==> 0 <= #[trigger] at[k] && kernel_image::command_fits(
                file,
                at[k],
                little,
            ),
        0 <= i <= at.len(),
        i < at.len() ==> word(file, at[i], little) == 0x8000_0028,
        forall|k: int| 0 <= k < i ==> word(file, #[trigger] at[k], little) != 0x8000_0028,
        0 <= t <= at.len(),
        t < at.len() ==> is_text(file, little, at[t]),
        forall|k: int| 0 <= k < t ==> !is_text(file, little, #[trigger] at[k]),
    ensures
        ({
            let s = kernel_image::start_from(file, first, at.len() as int, little);
            &&& s is Some
            &&& i < at.len() ==> s->0.main == Some(long(file, at[i] + 8, little))
            &&& i == at.len() ==> s->0.main is None
            &&& t == at.len() ==> s->0.text is None
            &&& t < at.len() ==> s->0.text is Some && {
                let wide = word(file, at[t], little) == 0x19;
                let (vmaddr, fileoff) = s->0.text->0;
                &&& vmaddr == if wide {
                    long(file, at[t] + 24, little)
                } else {
                    word(file, at[t] + 24, little)
                }
                &&& fileoff == if wide {
                    long(file, at[t] + 40, little)
                } else {
                    word(file, at[t] + 32, little)
                }
            }
        }),
    decreases at.len(),
{
    if at.len() > 0 {
        let d = at.drop_first();
        let next = first + word(file, first + 4, little);
        lemma_numbers(file, first, little);
        lemma_numbers(file, first + 4, little);
        lemma_numbers(file, first + 8, little);
        lemma_numbers(file, first + 24, little);
        lemma_numbers(file, first + 32, little);
        lemma_numbers(file, first + 40, little);
        assert(at[0] == first);
        assert(kernel_image::command_fits(file, at[0], little));
        assert forall|k: int| #![trigger d[k]] 0 < k < d.len() implies d[k] == d[k - 1] + word(
            file,
            d[k - 1] + 4,
            little,
        ) by {
            assert(at[k + 1] == at[k] + word(file, at[k] + 4, little));
        }
        if d.len() > 0 {
            assert(at[1] == next);
            assert(d[0] == next);
        }
        assert forall|k: int| 0 <= k < d.len() implies 0 <= #[trigger] d[k]
            && kernel_image::command_fits(file, d[k], little) by {
            assert(d[k] == at[k + 1]);
        }
        lemma_is_text(file, little, first);
        let di = choose_rest(file, little, d, i);
        let dt = if t > 0 {
            t - 1
        } else {
            first_text(file, little, d, 0)
        };
        if t == 0 {
            lemma_first_text(file, little, d, 0);
        }
        if i == 0 {
            lemma_first_main(file, little, d, 0);
        }
        assert forall|k: int| 0 <= k < di implies word(file, #[trigger] d[k], little)
            != 0x8000_0028 by {
            if i > 0 {
                assert(d[k] == at[k + 1]);
            }
        }
        assert forall|k: int| 0 <= k < dt implies !is_text(file, little, #[trigger] d[k]) by {
            if t > 0 {
                assert(d[k] == at[k + 1]);
            }
        }
        lemma_start_from(file, little, d, next, di, dt);
        assert(i > 0 ==> word(file, at[0], little) != 0x8000_0028);
        assert(t > 0 ==> !is_text(file, little, at[0]));
    }
}

/// The place among the rest of the commands of the first one for a main function.
spec fn choose_rest(file: Seq<u8>, little: bool, d: Seq<int>, i: int) -> int {
    if i > 0 {
        i - 1
    } else {
        first_main(file, little, d, 0)
    }
}

spec fn first_main(file: Seq<u8>, little: bool, d: Seq<int>, k: int) -> int
    decreases d.len() - k,
{
    if k < 0 || k >= d.len() {
        d.len() as int
    } else if word(file, d[k], little) == 0x8000_0028 {
        k
    } else {
        first_main(file, little, d, k + 1)
    }
}

proof fn lemma_first_main(file: Seq<u8>, little: bool, d: Seq<int>, k: int)
    requires
        0 <= k <= d.len(),
    ensures
        k <= first_main(file, little, d, k) <= d.len(),
        first_main(file, little, d, k) < d.len() ==> word(
            file,
            d[first_main(file, little, d, k)],
            little,
        ) == 0x8000_0028,
        forall|j: int|
            k <= j < first_main(file, little, d, k) ==> word(file, #[trigger] d[j], little)
                != 0x8000_0028,
    decreases d.len() - k,
{
    if k < d.len() && word(file, d[k], little) != 0x8000_0028 {
        lemma_first_main(file, little, d, k + 1);
    }
}

spec fn first_text(file: Seq<u8>, little: bool, d: Seq<int>, k: int) -> int
    decreases d.len() - k,
{
    if k < 0 || k >= d.len() {
        d.len() as int
    } else if is_text(file, little, d[k]) {
        k
    } else {
        first_text(file, little, d, k + 1)
    }
}

proof fn lemma_first_text(file: Seq<u8>, little: bool, d: Seq<int>, k: int)
    requires
        0 <= k <= d.len(),
    ensures
        k <= first_text(file, little, d, k) <= d.len(),
        first_text(file, little, d, k) < d.len() ==> is_text(
            file,
            little,
            d[first_text(file, little, d, k)],
        ),
        forall|j: int|
            k <= j < first_text(file, little, d, k) ==> !is_text(file, little, #[trigger] d[j]),
    decreases d.len() - k,
{
    if k < d.len() && !is_text(file, little, d[k]) {
        lemma_first_text(file, little, d, k + 1);
    }
}

proof fn lemma_is_text(file: Seq<u8>, little: bool, at: int)
    requires
        0 <= at,
        kernel_image::command_fits(file, at, little),
    ensures
        kernel_image::is_text(file, at, little) == is_text(file, little, at),
{
    lemma_numbers(file, at, little);
    let name = seq![0x5fu8, 0x5fu8, 0x54u8, 0x45u8, 0x58u8, 0x54u8, 0u8];
    if kernel_image::is_segment(file, at, little) {
        let s = file.subrange(at + 8, at + 15);
        assert(s[0] == file[at + 8] && s[1] == file[at + 9] && s[2] == file[at + 10] && s[3]
            == file[at + 11] && s[4] == file[at + 12] && s[5] == file[at + 13] && s[6]
            == file[at + 14]);
        if is_text(file, little, at) {
            assert(s =~= name);
        }
        if s == name {
            assert(s[0] == name[0] && s[1] == name[1] && s[2] == name[2] && s[3] == name[3] && s[4]
                == name[4] && s[5] == name[5] && s[6] == name[6]);
        }
    }
}

/// A kernel image starts where its first command for a main function says: the
/// offset there, counted from where the start of the file would lie by the first
/// text segment. The offset is refused only if that leaves the address space.
pub proof fn law_kernel_start(file: Seq<u8>, f: Format, at: Seq<int>, i: int, t: int)
    requires
        kernel_image::format_of(file) == Some(f),
        word(file, 16, f.little) == at.len(),
        commands_at(
            file,
            f.little,
            at,
            if f.wide {
                32
            } else {
                28
            },
        ),
        forall|k: int|
            0 <= k < at.len() ==> 0 <= #[trigger] at[k] && kernel_image::command_fits(
                file,
                at[k],
                f.little,
            ),
        0 <= i < at.len(),
        word(file, at[i], f.little) == 0x8000_0028,
        forall|k: int| 0 <= k < i ==> word(file, #[trigger] at[k], f.little) != 0x8000_0028,
        0 <= t < at.len(),
        is_text(file, f.little, at[t]),
        word(file, at[t], f.little) == 0x19,
        forall|k: int| 0 <= k < t ==> !is_text(file, f.little, #[trigger] at[k]),
    ensures
        ({
            let base = long(file, at[t] + 24, f.little) - long(file, at[t] + 40, f.little);
            let off = long(file, at[i] + 8, f.little);
            &&& kernel_image::start_of(file) matches Some(
                Start { main: Some(m), text: Some((v, o)) },
            ) && m == off && v - o == base
            &&& kernel_image::entry_fits(file) <==> 0 <= base && base + off <= u64::MAX
        }),
{
    lemma_numbers(file, 16, f.little);
    lemma_start_from(
        file,
        f.little,
        at,
        if f.wide {
            32
        } else {
            28
        },
        i,
        t,
    );
}

} // verus!
