//! What is allocated for the kernel is needed.

use crate::boot::kernel_image::KernelSegment;
use crate::boot::plan;
use vstd::prelude::*;

verus! {

/// Each page that is allocated for an image has a byte of a segment in it.
pub proof fn law_allocated_pages_are_needed(segs: Seq<KernelSegment>, a: int) -> (r: (int, int))
    requires
        0 <= a,
        plan::covered(plan::ranges_of(segs), a),
        forall|i: int|
            0 <= i < segs.len() && segs[i].vmsize != 0 ==> plan::pages_fit(#[trigger] segs[i]),
    ensures
        0 <= r.0 < segs.len(),
        segs[r.0].vmaddr <= r.1 < segs[r.0].vmaddr + segs[r.0].vmsize,
        r.1 / 4096 == a / 4096,
{
    let kept = plan::in_memory(segs);
    let ranges = plan::ranges_of(segs);
    let k = choose|k: int|
        0 <= k < ranges.len() && (#[trigger] ranges[k]).start <= a < ranges[k].end;
    let s = kept[k];
    assert(ranges[k] == plan::pages_of(s));
    let i = lemma_in_memory(segs, k);
    assert(plan::pages_fit(segs[i]));
    let end = s.vmaddr + s.vmsize;
    if a < s.vmaddr {
        (i, s.vmaddr as int)
    } else if a < end {
        (i, a)
    } else {
        (i, end - 1)
    }
}

/// A segment that takes up memory is one of the segments.
proof fn lemma_in_memory(segs: Seq<KernelSegment>, k: int) -> (i: int)
    requires
        0 <= k < plan::in_memory(segs).len(),
    ensures
        0 <= i < segs.len(),
        segs[i] == plan::in_memory(segs)[k],
        segs[i].vmsize != 0,
    decreases segs.len(),
{
    reveal(Seq::filter);
    let d = segs.drop_last();
    assert(segs.len() > 0);
    if k < plan::in_memory(d).len() {
        lemma_in_memory(d, k)
    } else {
        segs.len() - 1
    }
}

} // verus!
