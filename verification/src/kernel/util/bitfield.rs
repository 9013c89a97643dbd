//! Fields of bits in a word.

use vstd::prelude::*;

verus! {

/// A word whose lowest `width` bits are set.
pub open spec fn low_mask(width: u64) -> u64 {
    !(0xffff_ffff_ffff_ffffu64 << width)
}

/// The field of `width` bits from bit `low` on.
pub open spec fn field(value: u64, low: u64, width: u64) -> u64 {
    (value >> low) & low_mask(width)
}

/// The word with the lowest `width` bits of `val` from bit `low` on.
pub open spec fn with_field(base: u64, low: u64, width: u64, val: u64) -> u64 {
    (base & !(low_mask(width) << low)) | ((val & low_mask(width)) << low)
}

/// A word whose lowest `width` bits are set.
fn mask(width: u64) -> (r: u64)
    requires
        width < 64,
    ensures
        r == low_mask(width),
{
    assert(1u64 << width >= 1 && (1u64 << width) - 1 == !(0xffff_ffff_ffff_ffffu64 << width))
        by (bit_vector)
        requires
            width < 64,
    ;
    (1u64 << width) - 1
}

/// Bits `high` to `low` of `value`.
pub fn bitfield_extract(value: u64, high: u64, low: u64) -> (r: u64)
    requires
        low <= high < 64,
        high - low < 63,
    ensures
        r == field(value, low, (high - low + 1) as u64),
{
    let width: u64 = high - low + 1;
    (value >> low) & mask(width)
}

/// `base` with the lowest bits of `val` in bits `high` to `low`.
pub fn bitfield_insert(base: u64, high: u64, low: u64, val: u64) -> (r: u64)
    requires
        low <= high < 64,
        high - low < 63,
    ensures
        r == with_field(base, low, (high - low + 1) as u64, val),
{
    let width: u64 = high - low + 1;
    let m: u64 = mask(width);
    (base & !(m << low)) | ((val & m) << low)
}

/// A value that fits is read back from the field that it was put into, and bits
/// outside the field keep their values.
pub proof fn law_extract_gives_back(base: u64, low: u64, width: u64, val: u64, bit: u64)
    requires
        0 < width < 64,
        low + width <= 64,
        val <= low_mask(width),
        bit < 64,
    ensures
        field(with_field(base, low, width, val), low, width) == val,
        bit < low || bit >= low + width ==> (with_field(base, low, width, val) >> bit) & 1 == (base
            >> bit) & 1,
{
    let new = with_field(base, low, width, val);
    assert(((new >> low) & !(0xffff_ffff_ffff_ffffu64 << width)) == val) by (bit_vector)
        requires
            0 < width < 64,
            low + width <= 64,
            val <= !(0xffff_ffff_ffff_ffffu64 << width),
            new == (base & !((!(0xffff_ffff_ffff_ffffu64 << width)) << low)) | ((val & !(
            0xffff_ffff_ffff_ffffu64 << width)) << low),
    ;
    assert(bit < low || bit >= low + width ==> (new >> bit) & 1 == (base >> bit) & 1)
        by (bit_vector)
        requires
            0 < width < 64,
            low + width <= 64,
            bit < 64,
            new == (base & !((!(0xffff_ffff_ffff_ffffu64 << width)) << low)) | ((val & !(
            0xffff_ffff_ffff_ffffu64 << width)) << low),
    ;
}

/// Only the bits of a value that fit into the field count, and no bit outside the
/// field changes, whatever the value.
pub proof fn law_insert_stays_inside(base: u64, low: u64, width: u64, val: u64, bit: u64)
    requires
        0 < width < 64,
        low + width <= 64,
        bit < 64,
    ensures
        low <= bit < low + width ==> (with_field(base, low, width, val) >> bit) & 1 == (val >> (
        (bit - low) as u64)) & 1,
        bit < low || bit >= low + width ==> (with_field(base, low, width, val) >> bit) & 1 == (base
            >> bit) & 1,
{
    let new = with_field(base, low, width, val);
    assert((low <= bit && bit < low + width ==> (new >> bit) & 1 == (val >> ((bit - low) as u64))
        & 1) && (bit < low || bit >= low + width ==> (new >> bit) & 1 == (base >> bit) & 1))
        by (bit_vector)
        requires
            0 < width < 64,
            low + width <= 64,
            bit < 64,
            new == (base & !((!(0xffff_ffff_ffff_ffffu64 << width)) << low)) | ((val & !(
            0xffff_ffff_ffff_ffffu64 << width)) << low),
    ;
}

} // verus!
