//! Size classes: how a page is cut into slots.

use vstd::prelude::*;

verus! {

/// Bytes in one page of slot storage.
pub const PAGE_SIZE: usize = 4096;

/// Bytes of the header in front of every payload: the original length and the
/// stored length, 16 bits each.
pub const SLOT_HEADER: usize = 4;

/// How many size classes there are.
pub const NUM_CLASSES: usize = 8;

/// The slot geometry of one size class.
#[derive(Clone, Copy)]
pub struct SizeClass {
    /// Bytes per slot, header included.
    pub slot_size: usize,
    /// The most payload bytes that one slot holds.
    pub max_payload: usize,
    /// Slots per page.
    pub slots_per_page: usize,
}

/// The slot size of class `c`: 32 bytes doubled `c` times.
pub open spec fn slot_size(c: int) -> int
    decreases c,
{
    if c <= 0 {
        32
    } else {
        2 * slot_size(c - 1)
    }
}

/// The most payload bytes that a slot of class `c` holds.
pub open spec fn max_payload(c: int) -> int {
    slot_size(c) - SLOT_HEADER
}

/// How many slots of class `c` one page holds.
pub open spec fn slots_per_page(c: int) -> int {
    PAGE_SIZE as int / slot_size(c)
}

/// The eight slot sizes and slot counts, as numbers.
pub proof fn lemma_class_table()
    ensures
        slot_size(0) == 32 && slots_per_page(0) == 128,
        slot_size(1) == 64 && slots_per_page(1) == 64,
        slot_size(2) == 128 && slots_per_page(2) == 32,
        slot_size(3) == 256 && slots_per_page(3) == 16,
        slot_size(4) == 512 && slots_per_page(4) == 8,
        slot_size(5) == 1024 && slots_per_page(5) == 4,
        slot_size(6) == 2048 && slots_per_page(6) == 2,
        slot_size(7) == 4096 && slots_per_page(7) == 1,
{
    reveal_with_fuel(slot_size, 8);
}

/// Every class cuts a page into whole slots: no byte of a page is wasted, and
/// every slot lies inside the page.
pub proof fn lemma_slots_tile_page(c: int, s: int)
    requires
        0 <= c < NUM_CLASSES,
    ensures
        slot_size(c) * slots_per_page(c) == PAGE_SIZE,
        32 <= slot_size(c) <= PAGE_SIZE,
        1 <= slots_per_page(c) <= 128,
        0 <= s < slots_per_page(c) ==> 0 <= s * slot_size(c) && s * slot_size(c) + slot_size(c)
            <= PAGE_SIZE,
{
    lemma_class_table();
    if 0 <= s < slots_per_page(c) {
        let z = slot_size(c);
        let n = slots_per_page(c);
        assert(0 <= s * z && s * z + z <= n * z) by (nonlinear_arith)
            requires
                0 <= s < n,
                z >= 0,
        ;
        assert(n * z == z * n) by (nonlinear_arith);
    }
}

/// Two different slots of a page share no byte.
pub proof fn lemma_slots_disjoint(c: int, s: int, t: int)
    requires
        0 <= c < NUM_CLASSES,
        s != t,
    ensures
        s * slot_size(c) + slot_size(c) <= t * slot_size(c) || t * slot_size(c) + slot_size(c) <= s
            * slot_size(c),
{
    lemma_slots_tile_page(c, 0);
    let z = slot_size(c);
    assert(s * z + z <= t * z || t * z + z <= s * z) by (nonlinear_arith)
        requires
            s < t || t < s,
            z >= 0,
    ;
}

/// The slot geometry of class `c`.
pub fn size_class(c: usize) -> (r: SizeClass)
    requires
        c < NUM_CLASSES,
    ensures
        r.slot_size == slot_size(c as int),
        r.max_payload == max_payload(c as int),
        r.slots_per_page == slots_per_page(c as int),
{
    proof {
        lemma_class_table();
    }
    match c {
        0 => SizeClass { slot_size: 32, max_payload: 28, slots_per_page: 128 },
        1 => SizeClass { slot_size: 64, max_payload: 60, slots_per_page: 64 },
        2 => SizeClass { slot_size: 128, max_payload: 124, slots_per_page: 32 },
        3 => SizeClass { slot_size: 256, max_payload: 252, slots_per_page: 16 },
        4 => SizeClass { slot_size: 512, max_payload: 508, slots_per_page: 8 },
        5 => SizeClass { slot_size: 1024, max_payload: 1020, slots_per_page: 4 },
        6 => SizeClass { slot_size: 2048, max_payload: 2044, slots_per_page: 2 },
        _ => SizeClass { slot_size: 4096, max_payload: 4092, slots_per_page: 1 },
    }
}

/// Whether `c` is the smallest class whose slots hold `n` payload bytes.
pub open spec fn is_class_for(n: int, c: int) -> bool {
    &&& 0 <= c < NUM_CLASSES
    &&& n <= max_payload(c)
    &&& forall|k: int| 0 <= k < c ==> #[trigger] max_payload(k) < n
}

/// The index of the smallest size class whose slots hold `n` payload bytes;
/// `None` if `n` exceeds the payload of the largest class.
pub fn class_for_size(n: usize) -> (r: Option<usize>)
    ensures
        match r {
            Some(c) => is_class_for(n as int, c as int),
            None => n > max_payload(NUM_CLASSES - 1),
        },
        r is Some <==> n <= 4092,
{
    let mut c: usize = 0;
    proof {
        lemma_class_table();
    }
    while c < NUM_CLASSES
        invariant
            c <= NUM_CLASSES,
            max_payload(7) == 4092,
            forall|k: int| 0 <= k < c ==> #[trigger] max_payload(k) < n,
        decreases NUM_CLASSES - c,
    {
        if size_class(c).max_payload >= n {
            proof {
                lemma_class_table();
            }
            return Some(c);
        }
        c = c + 1;
    }
    assert(max_payload(7) < n);
    None
}

} // verus!
