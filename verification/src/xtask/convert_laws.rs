//! Which ELF executables can be turned into Mach-O executables.

use crate::xtask::elf::ElfSegment;
use crate::xtask::macho;
use crate::xtask::macho::{ConvertError, LayoutView};
use vstd::prelude::*;

verus! {

/// How many bytes the first `n` segments take up at most, with the gaps between
/// them.
pub open spec fn taken(segs: Seq<ElfSegment>, n: int) -> int
    decreases n,
{
    if n <= 0 {
        0
    } else {
        taken(segs, n - 1) + segs[n - 1].p_filesz + 0xfff
    }
}

/// Whether the numbers of the header can say how large the commands are, and
/// those of this machine how large the file is.
pub open spec fn fits(segs: Seq<ElfSegment>) -> bool {
    &&& 24 + 72 * segs.len() <= u32::MAX
    &&& 0x1037 + 72 * segs.len() + taken(segs, segs.len() as int) + 0xfff <= usize::MAX
    &&& forall|k: int|
        0 <= k < segs.len() ==> (#[trigger] segs[k]).p_filesz <= usize::MAX && segs[k].p_offset
            <= usize::MAX
}

/// An executable that fits and has some code, whose entry does not lie before
/// the last executable segment, can be laid out.
pub proof fn law_executable_is_converted(segs: Seq<ElfSegment>, entry: u64, t: int)
    requires
        0 < segs.len(),
        fits(segs),
        0 <= t < segs.len(),
        segs[t].p_flags & 0x1 != 0,
        forall|k: int| t < k < segs.len() ==> (#[trigger] segs[k]).p_flags & 0x1 == 0,
        segs[t].p_vaddr <= entry,
    ensures
        macho::layout_of(segs, entry) is Ok,
{
    lemma_end(segs, segs.len() as int);
    lemma_last_text(segs, t, segs.len() as int);
    lemma_end(segs, t);
}

/// Without anything to load, or without code, there is nothing to make an
/// executable of.
pub proof fn law_no_code_no_executable(segs: Seq<ElfSegment>, entry: u64)
    requires
        fits(segs),
        forall|k: int| 0 <= k < segs.len() ==> (#[trigger] segs[k]).p_flags & 0x1 == 0,
    ensures
        segs.len() == 0 ==> macho::layout_of(segs, entry) == Err::<LayoutView, ConvertError>(
            ConvertError::NoLoadSegments,
        ),
        segs.len() > 0 ==> macho::layout_of(segs, entry) == Err::<LayoutView, ConvertError>(
            ConvertError::NoText,
        ),
{
    lemma_end(segs, segs.len() as int);
    lemma_no_text(segs, segs.len() as int);
}

proof fn lemma_end(segs: Seq<ElfSegment>, i: int)
    requires
        0 <= i <= segs.len(),
        fits(segs),
    ensures
        macho::end_after(segs, i) matches Ok(end) && 0 <= end <= 0x1037 + 72 * segs.len()
            + taken(segs, i),
    decreases i,
{
    lemma_taken(segs, i);
    if i > 0 {
        lemma_end(segs, i - 1);
        assert(segs[i - 1].p_filesz <= usize::MAX && segs[i - 1].p_offset <= usize::MAX);
    }
}

proof fn lemma_taken(segs: Seq<ElfSegment>, i: int)
    requires
        0 <= i <= segs.len(),
    ensures
        0 <= taken(segs, i) <= taken(segs, segs.len() as int),
    decreases segs.len() - i, i,
{
    if i < segs.len() {
        lemma_taken(segs, i + 1);
    }
    lemma_taken_positive(segs, i);
}

proof fn lemma_taken_positive(segs: Seq<ElfSegment>, i: int)
    ensures
        0 <= taken(segs, i),
    decreases i,
{
    if i > 0 {
        lemma_taken_positive(segs, i - 1);
    }
}

proof fn lemma_last_text(segs: Seq<ElfSegment>, t: int, n: int)
    requires
        0 <= t < n <= segs.len(),
        segs[t].p_flags & 0x1 != 0,
        forall|k: int| t < k < segs.len() ==> (#[trigger] segs[k]).p_flags & 0x1 == 0,
    ensures
        macho::last_text(segs, n) == Some(t),
    decreases n,
{
    if n - 1 > t {
        assert(segs[n - 1].p_flags & 0x1 == 0);
        lemma_last_text(segs, t, n - 1);
    }
}

proof fn lemma_no_text(segs: Seq<ElfSegment>, n: int)
    requires
        0 <= n <= segs.len(),
        forall|k: int| 0 <= k < segs.len() ==> (#[trigger] segs[k]).p_flags & 0x1 == 0,
    ensures
        macho::last_text(segs, n) is None,
    decreases n,
{
    if n > 0 {
        assert(segs[n - 1].p_flags & 0x1 == 0);
        lemma_no_text(segs, n - 1);
    }
}

} // verus!
