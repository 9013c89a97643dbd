//! No address of the heap is lost.

use crate::kernel::heap;
use crate::kernel::heap::Region;
use vstd::prelude::*;

verus! {

/// While the table has room, an allocation takes away the addresses of the block
/// and no others.
pub proof fn law_allocation_takes_only_the_block(
    list: Seq<Region>,
    align: int,
    size: int,
    a: int,
)
    requires
        heap::spans(list),
        heap::disjoint(list),
        0 < align,
        0 <= size,
        list.len() < 256,
        heap::first_fit(list, 0, align, size) is Some,
    ensures
        ({
            let b = heap::block_of(list, align, size);
            heap::free_at(heap::after_allocate(list, align, size), a) <==> heap::free_at(list, a)
                && !(b.addr <= a < b.addr + size)
        }),
{
    heap::law_allocated_block_was_free(list, align, size);
}

/// While the table has room, a block that is given back is free again, and no
/// other address changes.
pub proof fn law_given_back_block_is_free(list: Seq<Region>, span: Region, a: int)
    requires
        heap::spans(list),
        heap::disjoint(list),
        heap::is_span(span),
        heap::outside(list, span),
        list.len() < 256,
    ensures
        heap::free_at(heap::given_back(list, span), a) <==> heap::free_at(list, a) || span.addr <= a
            < span.addr + span.size,
{
    heap::law_given_back_span_is_free(list, span);
}

} // verus!
