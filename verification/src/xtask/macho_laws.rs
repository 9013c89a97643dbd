//! What is kept of an ELF executable when it is turned into a Mach-O executable.

use crate::loader::load_cmd;
use crate::loader::parse_laws;
use crate::loader::records;
use crate::xtask::elf::ElfSegment;
use crate::xtask::macho;
use crate::xtask::macho::{ConvertError, LayoutView};
use vstd::prelude::*;

verus! {

/// The program headers that are loaded are those of the loadable type that take
/// up memory, in order.
pub proof fn law_loaded_headers(segs: Seq<ElfSegment>)
    ensures
        parse_laws::lists(
            segs,
            macho::loaded(segs),
            |s: ElfSegment, t: ElfSegment| s.p_type == 1 && s.p_memsz > 0 && t == s,
        ),
{
    let f = |s: ElfSegment|
        if macho::loadable(s) {
            Some(s)
        } else {
            None
        };
    lemma_loaded_kept(segs, f);
    parse_laws::lemma_kept(
        segs,
        f,
        |s: ElfSegment, t: ElfSegment| s.p_type == 1 && s.p_memsz > 0 && t == s,
    );
}

proof fn lemma_loaded_kept(segs: Seq<ElfSegment>, f: spec_fn(ElfSegment) -> Option<ElfSegment>)
    requires
        f == (|s: ElfSegment|
            if macho::loadable(s) {
                Some(s)
            } else {
                None
            }),
    ensures
        macho::loaded(segs) == parse_laws::kept(segs, f),
    decreases segs.len(),
{
    if segs.len() > 0 {
        lemma_loaded_kept(segs.drop_last(), f);
    }
}

proof fn lemma_last_text(segs: Seq<ElfSegment>, n: int)
    requires
        0 <= n <= segs.len(),
    ensures
        match macho::last_text(segs, n) {
            Some(t) => 0 <= t < n && segs[t].p_flags & 0x1 != 0 && forall|k: int|
                t < k < n ==> (#[trigger] segs[k]).p_flags & 0x1 == 0,
            None => forall|k: int| 0 <= k < n ==> (#[trigger] segs[k]).p_flags & 0x1 == 0,
        },
    decreases n,
{
    if n > 0 {
        lemma_last_text(segs, n - 1);
    }
}

/// The file that comes out starts where the source does: by the last executable
/// segment, the offset in the entry point command leads to the entry address.
pub proof fn law_converted_entry(
    elf: Seq<u8>,
    segs: Seq<ElfSegment>,
    entry: u64,
    l: LayoutView,
    t: int,
)
    requires
        macho::layout_of(segs, entry) == Ok::<LayoutView, ConvertError>(l),
        macho::inside(elf, l),
        0 <= t < segs.len(),
        segs[t].p_flags & 0x1 != 0,
        forall|k: int| t < k < segs.len() ==> (#[trigger] segs[k]).p_flags & 0x1 == 0,
    ensures
        ({
            let file = macho::macho_bytes(elf, l);
            let cmds = records::load_commands(file)->0;
            let off = load_cmd::main_of(cmds[segs.len() as int])->0;
            let s = records::segment_of(file, cmds[t]);
            &&& load_cmd::main_of(cmds[segs.len() as int]) is Some
            &&& s.vmaddr == segs[t].p_vaddr
            &&& s.vmaddr >= s.file_range.0 ==> off - s.file_range.0 == entry - segs[t].p_vaddr
            &&& s.vmaddr < s.file_range.0 ==> off == entry
        }),
{
    macho::law_converted_reads_back(elf, segs, entry, l);
    lemma_last_text(segs, segs.len() as int);
    assert(macho::last_text(segs, segs.len() as int) == Some(t)) by {
        let u = macho::last_text(segs, segs.len() as int)->0;
        assert(segs[t].p_flags & 0x1 != 0);
        if u < t {
            assert(segs[t].p_flags & 0x1 == 0);
        }
        if t < u {
            assert(segs[u].p_flags & 0x1 == 0);
        }
    }
    macho::lemma_layout_ordered(segs, entry, l);
    macho::lemma_segment_reads(macho::macho_bytes(elf, l), l.segments[t]);
    assert(macho::commands(l)[t] == macho::segment_bytes(l.segments[t]));
    macho::lemma_end_grows(segs, t, segs.len() as int);
    assert(l.segments[t] == macho::segment_plan(segs, t));
}

/// Each segment keeps its permissions, with the bits for reading and execution
/// swapped.
pub proof fn law_converted_permissions(segs: Seq<ElfSegment>, entry: u64, l: LayoutView, i: int)
    requires
        macho::layout_of(segs, entry) == Ok::<LayoutView, ConvertError>(l),
        0 <= i < segs.len(),
    ensures
        l.segments.len() == segs.len(),
        l.segments[i].maxprot == l.segments[i].initprot,
        l.segments[i].initprot < 8,
        (l.segments[i].initprot % 2 == 1) == (segs[i].p_flags & 0x4 != 0),
        (l.segments[i].initprot / 2 % 2 == 1) == (segs[i].p_flags & 0x2 != 0),
        (l.segments[i].initprot / 4 == 1) == (segs[i].p_flags & 0x1 != 0),
{
    assert(l.segments[i] == macho::segment_plan(segs, i));
}

/// Each segment lies at the first page boundary behind the one before it, the
/// first one behind the commands.
pub proof fn law_converted_places(segs: Seq<ElfSegment>, entry: u64, l: LayoutView, i: int)
    requires
        macho::layout_of(segs, entry) == Ok::<LayoutView, ConvertError>(l),
        0 <= i < segs.len(),
    ensures
        l.segments[i].fileoff % 4096 == 0,
        l.segments[i].filesize == segs[i].p_filesz,
        l.segments[i].fileoff >= 32 + 72 * segs.len() + 24,
        i > 0 ==> l.segments[i - 1].fileoff + l.segments[i - 1].filesize
            <= l.segments[i].fileoff < l.segments[i - 1].fileoff + l.segments[i - 1].filesize
            + 4096,
{
    macho::lemma_layout_ordered(segs, entry, l);
    macho::lemma_end_grows(segs, i, segs.len() as int);
    assert(l.segments[i] == macho::segment_plan(segs, i));
    if i > 0 {
        macho::lemma_end_grows(segs, i - 1, segs.len() as int);
        assert(l.segments[i - 1] == macho::segment_plan(segs, i - 1));
    }
}

/// A segment is named by what it allows: text if it can be executed, else data if
/// it can be written.
pub proof fn law_converted_names(index: nat, flags: u32)
    ensures
        macho::name_of(index, flags).len() == 16,
        flags & 0x1 != 0 ==> macho::name_of(index, flags).take(7) == seq![
            0x5fu8,
            0x5f,
            0x54,
            0x45,
            0x58,
            0x54,
            0,
        ],
        flags & 0x1 == 0 && flags & 0x2 != 0 ==> macho::name_of(index, flags).take(7) == seq![
            0x5fu8,
            0x5f,
            0x44,
            0x41,
            0x54,
            0x41,
            0,
        ],
        flags & 0x1 == 0 && flags & 0x2 == 0 ==> macho::name_of(index, flags).take(5) == seq![
            0x5fu8,
            0x5f,
            0x53,
            0x45,
            0x47,
        ],
{
    let n = macho::name_of(index, flags);
    if flags & 0x1 != 0 {
        assert(n.take(7) =~= seq![0x5fu8, 0x5f, 0x54, 0x45, 0x58, 0x54, 0]);
    } else if flags & 0x2 != 0 {
        assert(n.take(7) =~= seq![0x5fu8, 0x5f, 0x44, 0x41, 0x54, 0x41, 0]);
    } else {
        assert(n.take(5) =~= seq![0x5fu8, 0x5f, 0x53, 0x45, 0x47]);
    }
}

/// The number that decimal digits stand for.
pub open spec fn digits_value(d: Seq<u8>) -> int
    decreases d.len(),
{
    if d.len() == 0 {
        0
    } else {
        10 * digits_value(d.drop_last()) + (d.last() - 0x30)
    }
}

/// Decimal digits stand for the number that they were written for, without zeros
/// in front.
pub proof fn law_decimal_reads_back(n: nat)
    ensures
        digits_value(macho::decimal(n)) == n,
        forall|i: int|
            0 <= i < macho::decimal(n).len() ==> 0x30 <= #[trigger] macho::decimal(n)[i] <= 0x39,
        macho::decimal(n).len() >= 1,
        n > 0 ==> macho::decimal(n)[0] != 0x30,
    decreases n,
{
    let d = macho::decimal(n);
    if n < 10 {
        assert(d.drop_last() =~= Seq::<u8>::empty());
        assert(digits_value(d.drop_last()) == 0);
    } else {
        law_decimal_reads_back(n / 10);
        assert(d.drop_last() =~= macho::decimal(n / 10));
        assert(d[0] == macho::decimal(n / 10)[0]);
    }
}

} // verus!
