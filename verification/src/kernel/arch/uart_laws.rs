//! What numbers look like on the console.

use crate::kernel::arch::uart;
use vstd::prelude::*;
use vstd::utf8::*;

verus! {

/// The number that a hexadecimal digit stands for; -1 for any other byte.
pub open spec fn digit_value(d: u8) -> int {
    if 0x30 <= d <= 0x39 {
        d - 0x30
    } else if 0x61 <= d <= 0x66 {
        d - 0x61 + 10
    } else {
        -1
    }
}

/// The number that hexadecimal digits stand for, the highest first.
pub open spec fn digits_value(d: Seq<u8>) -> int
    decreases d.len(),
{
    if d.len() == 0 {
        0
    } else {
        16 * digits_value(d.drop_last()) + digit_value(d.last())
    }
}

/// Whether bytes are all hexadecimal digits.
pub open spec fn all_digits(d: Seq<u8>) -> bool {
    forall|i: int| 0 <= i < d.len() ==> digit_value(#[trigger] d[i]) >= 0
}

proof fn lemma_shift(v: u64, s: u32)
    requires
        s <= 56,
    ensures
        v >> s == 16 * (v >> ((s + 4) as u32)) + ((v >> s) & 0xf),
        (v >> s) & 0xf < 16,
{
    assert(v >> s == 16 * (v >> (s + 4) as u32) + ((v >> s) & 0xf) && (v >> s) & 0xf < 16)
        by (bit_vector)
        requires
            s <= 56,
    ;
}

proof fn lemma_digits(v: u64, n: int)
    requires
        1 <= n <= 16,
    ensures
        digits_value(uart::hex_digits(v).take(n)) == v >> ((64 - 4 * n) as u32),
        all_digits(uart::hex_digits(v).take(n)),
    decreases n,
{
    let d = uart::hex_digits(v);
    let t = d.take(n);
    let s = (64 - 4 * n) as u32;
    assert(t.drop_last() =~= d.take(n - 1));
    assert(t.last() == d[n - 1]);
    assert(s == (60 - 4 * (n - 1)) as u32);
    if n == 1 {
        assert(v >> 60u32 == (v >> 60u32) & 0xf && (v >> 60u32) & 0xf < 16) by (bit_vector);
        assert(d.take(0) =~= Seq::<u8>::empty());
        assert(digits_value(d.take(0)) == 0);
        assert(digit_value(t.last()) == (v >> 60u32) & 0xf);
    } else {
        lemma_digits(v, n - 1);
        lemma_shift(v, s);
        assert((s + 4) as u32 == (64 - 4 * (n - 1)) as u32);
        assert(digit_value(t.last()) == (v >> s) & 0xf);
        assert forall|i: int| 0 <= i < t.len() implies digit_value(#[trigger] t[i]) >= 0 by {
            if i < n - 1 {
                assert(t[i] == d.take(n - 1)[i]);
            }
        }
    }
}

/// A number is written behind what was there: `0x` and sixteen hexadecimal
/// digits, which stand for the number.
pub proof fn law_number_reads_back(log: Seq<u8>, v: u64)
    ensures
        ({
            let w = uart::put_hex(log, v);
            &&& w.len() == log.len() + 18
            &&& w.take(log.len() as int) == log
            &&& w[log.len() as int] == 0x30
            &&& w[log.len() as int + 1] == 0x78
            &&& all_digits(w.skip(log.len() as int + 2))
            &&& digits_value(w.skip(log.len() as int + 2)) == v
        }),
{
    let w = uart::put_hex(log, v);
    reveal_strlit("0x");
    is_ascii_chars_encode_utf8("0x"@);
    let d = uart::hex_digits(v);
    lemma_digits(v, 16);
    assert(d.take(16) =~= d);
    assert(v >> 0u32 == v) by (bit_vector);
    assert(w.take(log.len() as int) =~= log);
    assert(w.skip(log.len() as int + 2) =~= d);
}

/// Where the two digits of byte `i` of a UUID are.
pub open spec fn uuid_place(i: int) -> int {
    2 * i + if i < 4 {
        0int
    } else if i < 6 {
        1
    } else if i < 8 {
        2
    } else if i < 10 {
        3
    } else {
        4
    }
}

proof fn lemma_uuid(log: Seq<u8>, uuid: Seq<u8>, n: int)
    requires
        uuid.len() == 16,
        0 <= n <= 16,
    ensures
        ({
            let w = uart::put_uuid(log, uuid, n);
            &&& n > 0 ==> w.len() == log.len() + uuid_place(n - 1) + 2
            &&& n == 0 ==> w == log
            &&& w.take(log.len() as int) == log
            &&& forall|i: int|
                #![trigger uuid[i]]
                0 <= i < n ==> digits_value(
                    w.subrange(log.len() + uuid_place(i), log.len() + uuid_place(i) + 2),
                ) == uuid[i] && all_digits(
                    w.subrange(log.len() + uuid_place(i), log.len() + uuid_place(i) + 2),
                )
            &&& n > 4 ==> w[log.len() as int + 8] == 0x2d
            &&& n > 6 ==> w[log.len() as int + 13] == 0x2d
            &&& n > 8 ==> w[log.len() as int + 18] == 0x2d
            &&& n > 10 ==> w[log.len() as int + 23] == 0x2d
        }),
    decreases n,
{
    let w = uart::put_uuid(log, uuid, n);
    if n == 0 {
        assert(w.take(log.len() as int) =~= log);
    } else {
        let before = uart::put_uuid(log, uuid, n - 1);
        lemma_uuid(log, uuid, n - 1);
        assert(w.take(log.len() as int) =~= before.take(log.len() as int));
        let b = uuid[n - 1];
        let at = log.len() + uuid_place(n - 1);
        let h = uart::hex_byte(b);
        assert(w.subrange(at, at + 2) =~= h);
        lemma_hex_byte(b);
        assert forall|i: int|
            #![trigger uuid[i]]
            0 <= i < n implies digits_value(
            w.subrange(log.len() + uuid_place(i), log.len() + uuid_place(i) + 2),
        ) == uuid[i] && all_digits(
            w.subrange(log.len() + uuid_place(i), log.len() + uuid_place(i) + 2),
        ) by {
            if i < n - 1 {
                assert(w.subrange(log.len() + uuid_place(i), log.len() + uuid_place(i) + 2)
                    =~= before.subrange(
                    log.len() + uuid_place(i),
                    log.len() + uuid_place(i) + 2,
                ));
            }
        }
    }
}

proof fn lemma_hex_byte(b: u8)
    ensures
        digits_value(uart::hex_byte(b)) == b,
        all_digits(uart::hex_byte(b)),
{
    let h = uart::hex_byte(b);
    assert(h.drop_last() =~= seq![h[0]]);
    assert(h.drop_last().drop_last() =~= Seq::<u8>::empty());
    assert(digits_value(h.drop_last().drop_last()) == 0);
    assert(h.drop_last().last() == h[0]);
    assert(digits_value(h.drop_last()) == digit_value(h[0]));
}

/// A UUID is written as 36 bytes: two digits for each of its bytes, and dashes
/// behind the fourth, sixth, eighth and tenth byte.
pub proof fn law_uuid_reads_back(log: Seq<u8>, uuid: Seq<u8>)
    requires
        uuid.len() == 16,
    ensures
        ({
            let w = uart::put_uuid(log, uuid, 16);
            &&& w.len() == log.len() + 36
            &&& w.take(log.len() as int) == log
            &&& forall|i: int|
                #![trigger uuid[i]]
                0 <= i < 16 ==> digits_value(
                    w.subrange(log.len() + uuid_place(i), log.len() + uuid_place(i) + 2),
                ) == uuid[i]
            &&& w[log.len() as int + 8] == 0x2d
            &&& w[log.len() as int + 13] == 0x2d
            &&& w[log.len() as int + 18] == 0x2d
            &&& w[log.len() as int + 23] == 0x2d
        }),
{
    lemma_uuid(log, uuid, 16);
}

} // verus!
