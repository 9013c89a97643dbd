//! What is mapped, and what there is to map.

use crate::kernel::mm::frame;
use crate::kernel::mm::vma;
use crate::kernel::mm::vma::Vma;
use vstd::prelude::*;

verus! {

/// An area is dropped with a range if and only if it reaches into it: it starts
/// before the range ends and ends behind the range's start.
pub proof fn law_areas_in_range_are_dropped(list: Seq<Vma>, start: u64, end: u64, v: Vma)
    ensures
        vma::without(list, start, end).contains(v) <==> list.contains(v) && !(v.start < end && start
            < v.end),
{
    vma::law_removed_range_is_clear(list, start, end, v);
}

/// There are as many frames as fit into the memory, up to 65536.
pub proof fn law_frames_fit(mem_size: int)
    requires
        0 <= mem_size,
    ensures
        0 <= frame::frames_in(mem_size) <= 65536,
        frame::frames_in(mem_size) * 4096 <= mem_size,
        frame::frames_in(mem_size) == 65536 || mem_size < (frame::frames_in(mem_size) + 1) * 4096,
{
}

} // verus!
