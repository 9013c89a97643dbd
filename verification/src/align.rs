//! Rounding up to whole pages.

use vstd::prelude::*;

verus! {

/// `x` rounded up to a multiple of 4096.
pub open spec fn page_up(x: int) -> int {
    (x + 0xfff) / 0x1000 * 0x1000
}

/// Rounds up to a multiple of 4096; none if that overflows on the way.
pub fn page_align(x: u64) -> (r: Option<u64>)
    ensures
        match r {
            Some(a) => a == page_up(x as int) && x + 0xfff <= u64::MAX,
            None => x + 0xfff > u64::MAX,
        },
{
    match x.checked_add(0xfff) {
        None => None,
        Some(y) => {
            assert(y & !0xfffu64 == y / 0x1000 * 0x1000) by (bit_vector);
            Some(y & !0xfffu64)
        },
    }
}

} // verus!
