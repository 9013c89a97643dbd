//! Single bits of machine words.

use vstd::prelude::*;

verus! {

/// Bit `i` of the 128-bit word `m`.
pub open spec fn bit128(m: u128, i: int) -> bool {
    (m >> (i as u32)) & 1 == 1
}

/// Bit `i` of the 64-bit word `m`.
pub open spec fn bit64(m: u64, i: int) -> bool {
    (m >> (i as u32)) & 1 == 1
}

/// A word whose bits are all clear is zero, and zero has no set bit.
pub proof fn lemma_zero128(m: u128)
    ensures
        m == 0 <==> (forall|i: int| 0 <= i < 128 ==> !bit128(m, i)),
{
    if m == 0 {
        assert forall|i: int| 0 <= i < 128 implies !bit128(m, i) by {
            let k = i as u32;
            assert((0u128 >> k) & 1 == 0) by (bit_vector);
        }
    }
    if forall|i: int| 0 <= i < 128 ==> !bit128(m, i) {
        lemma_shift128(m, 0);
        assert(m >> 0u32 == m) by (bit_vector);
    }
}

proof fn lemma_shift128(m: u128, k: u32)
    requires
        k <= 128,
        forall|i: int| 0 <= i < 128 ==> !bit128(m, i),
    ensures
        k < 128 ==> m >> k == 0,
    decreases 128 - k,
{
    if k < 127 {
        lemma_shift128(m, (k + 1) as u32);
        let j = (k + 1) as u32;
        assert(!bit128(m, k as int));
        assert(m >> k == 0) by (bit_vector)
            requires
                k < 127,
                j == k + 1,
                m >> j == 0,
                (m >> k) & 1 != 1,
        ;
    } else if k == 127 {
        assert(!bit128(m, 127));
        assert(m >> 127u32 == 0) by (bit_vector)
            requires
                (m >> 127u32) & 1 != 1,
        ;
    }
}

/// Masking with one bit tests, clears or sets that bit and no other.
pub proof fn lemma_mask128(m: u128, s: u32, t: u32)
    requires
        s < 128,
        t < 128,
    ensures
        (m & (1u128 << s) != 0) == bit128(m, s as int),
        bit128(m & !(1u128 << s), t as int) == (t != s && bit128(m, t as int)),
        bit128(m | (1u128 << s), t as int) == (t == s || bit128(m, t as int)),
{
    assert((m & (1u128 << s) != 0) == ((m >> s) & 1 == 1)) by (bit_vector)
        requires
            s < 128,
    ;
    assert((((m & !(1u128 << s)) >> t) & 1 == 1) == (t != s && (m >> t) & 1 == 1)) by (bit_vector)
        requires
            s < 128,
            t < 128,
    ;
    assert((((m | (1u128 << s)) >> t) & 1 == 1) == (t == s || (m >> t) & 1 == 1)) by (bit_vector)
        requires
            s < 128,
            t < 128,
    ;
}

/// The position of the lowest set bit of `m`, or 128 if no bit is set.
pub fn lowest_set128(m: u128) -> (r: u32)
    ensures
        r <= 128,
        r < 128 ==> bit128(m, r as int),
        forall|k: int| 0 <= k < r ==> !bit128(m, k),
        r == 128 <==> m == 0,
{
    let mut i: u32 = 0;
    while i < 128 && (m >> i) & 1 != 1
        invariant
            i <= 128,
            forall|k: int| 0 <= k < i ==> !bit128(m, k),
        decreases 128 - i,
    {
        i = i + 1;
    }
    proof {
        lemma_zero128(m);
    }
    i
}

/// A word whose bits are all clear is zero, and zero has no set bit.
pub proof fn lemma_zero64(m: u64)
    ensures
        m == 0 <==> (forall|i: int| 0 <= i < 64 ==> !bit64(m, i)),
{
    if m == 0 {
        assert forall|i: int| 0 <= i < 64 implies !bit64(m, i) by {
            let k = i as u32;
            assert((0u64 >> k) & 1 == 0) by (bit_vector);
        }
    }
    if forall|i: int| 0 <= i < 64 ==> !bit64(m, i) {
        lemma_shift64(m, 0);
        assert(m >> 0u32 == m) by (bit_vector);
    }
}

proof fn lemma_shift64(m: u64, k: u32)
    requires
        k <= 64,
        forall|i: int| 0 <= i < 64 ==> !bit64(m, i),
    ensures
        k < 64 ==> m >> k == 0,
    decreases 64 - k,
{
    if k < 63 {
        lemma_shift64(m, (k + 1) as u32);
        let j = (k + 1) as u32;
        assert(!bit64(m, k as int));
        assert(m >> k == 0) by (bit_vector)
            requires
                k < 63,
                j == k + 1,
                m >> j == 0,
                (m >> k) & 1 != 1,
        ;
    } else if k == 63 {
        assert(!bit64(m, 63));
        assert(m >> 63u32 == 0) by (bit_vector)
            requires
                (m >> 63u32) & 1 != 1,
        ;
    }
}

/// Masking with one bit tests, clears or sets that bit and no other.
pub proof fn lemma_mask64(m: u64, s: u32, t: u32)
    requires
        s < 64,
        t < 64,
    ensures
        (m & (1u64 << s) != 0) == bit64(m, s as int),
        bit64(m & !(1u64 << s), t as int) == (t != s && bit64(m, t as int)),
        bit64(m | (1u64 << s), t as int) == (t == s || bit64(m, t as int)),
{
    assert((m & (1u64 << s) != 0) == ((m >> s) & 1 == 1)) by (bit_vector)
        requires
            s < 64,
    ;
    assert((((m & !(1u64 << s)) >> t) & 1 == 1) == (t != s && (m >> t) & 1 == 1)) by (bit_vector)
        requires
            s < 64,
            t < 64,
    ;
    assert((((m | (1u64 << s)) >> t) & 1 == 1) == (t == s || (m >> t) & 1 == 1)) by (bit_vector)
        requires
            s < 64,
            t < 64,
    ;
}

/// The position of the lowest set bit of `m`, or 64 if no bit is set.
pub fn lowest_set64(m: u64) -> (r: u32)
    ensures
        r <= 64,
        r < 64 ==> bit64(m, r as int),
        forall|k: int| 0 <= k < r ==> !bit64(m, k),
        r == 64 <==> m == 0,
{
    let mut i: u32 = 0;
    while i < 64 && (m >> i) & 1 != 1
        invariant
            i <= 64,
            forall|k: int| 0 <= k < i ==> !bit64(m, k),
        decreases 64 - i,
    {
        i = i + 1;
    }
    proof {
        lemma_zero64(m);
    }
    i
}

} // verus!
