//! Little- and big-endian integers inside byte sequences, and copies between
//! byte buffers.

use vstd::prelude::*;

verus! {

/// The 16-bit little-endian integer that starts at `i`.
pub open spec fn le16(s: Seq<u8>, i: int) -> int {
    s[i] + 0x100 * s[i + 1]
}

/// The 32-bit little-endian integer that starts at `i`.
pub open spec fn le32(s: Seq<u8>, i: int) -> int {
    s[i] + 0x100 * s[i + 1] + 0x1_0000 * s[i + 2] + 0x100_0000 * s[i + 3]
}

/// The 64-bit little-endian integer that starts at `i`.
pub open spec fn le64(s: Seq<u8>, i: int) -> int {
    le32(s, i) + 0x1_0000_0000 * le32(s, i + 4)
}

/// The 32-bit big-endian integer that starts at `i`.
pub open spec fn be32(s: Seq<u8>, i: int) -> int {
    s[i + 3] + 0x100 * s[i + 2] + 0x1_0000 * s[i + 1] + 0x100_0000 * s[i]
}

/// The 64-bit big-endian integer that starts at `i`.
pub open spec fn be64(s: Seq<u8>, i: int) -> int {
    be32(s, i + 4) + 0x1_0000_0000 * be32(s, i)
}

/// The two little-endian bytes of `v`.
pub open spec fn le16_bytes(v: u16) -> Seq<u8> {
    seq![(v % 0x100) as u8, (v / 0x100) as u8]
}

/// The four little-endian bytes of `v`.
pub open spec fn le32_bytes(v: u32) -> Seq<u8> {
    seq![
        (v % 0x100) as u8,
        ((v / 0x100) % 0x100) as u8,
        ((v / 0x1_0000) % 0x100) as u8,
        (v / 0x100_0000) as u8,
    ]
}

/// The eight little-endian bytes of `v`.
pub open spec fn le64_bytes(v: u64) -> Seq<u8> {
    le32_bytes((v % 0x1_0000_0000) as u32) + le32_bytes((v / 0x1_0000_0000) as u32)
}

/// The four big-endian bytes of `v`.
pub open spec fn be32_bytes(v: u32) -> Seq<u8> {
    le32_bytes(v).reverse()
}

/// The eight big-endian bytes of `v`.
pub open spec fn be64_bytes(v: u64) -> Seq<u8> {
    le64_bytes(v).reverse()
}

/// `n` zero bytes.
pub open spec fn zeros(n: nat) -> Seq<u8> {
    Seq::new(n, |i: int| 0u8)
}

/// `s` with the bytes from `at` on replaced by `part`.
pub open spec fn splice(s: Seq<u8>, at: int, part: Seq<u8>) -> Seq<u8> {
    Seq::new(
        s.len(),
        |i: int|
            if at <= i < at + part.len() {
                part[i - at]
            } else {
                s[i]
            },
    )
}

/// A 16-bit integer reads back from its own little-endian bytes.
pub proof fn lemma_le16_roundtrip(v: u16)
    ensures
        le16_bytes(v).len() == 2,
        le16(le16_bytes(v), 0) == v,
{
}

/// A 32-bit integer reads back from its own little-endian bytes.
pub proof fn lemma_le32_roundtrip(v: u32)
    ensures
        le32_bytes(v).len() == 4,
        le32(le32_bytes(v), 0) == v,
{
}

/// A 64-bit integer reads back from its own little-endian bytes.
pub proof fn lemma_le64_roundtrip(v: u64)
    ensures
        le64_bytes(v).len() == 8,
        le64(le64_bytes(v), 0) == v,
{
    let lo = (v % 0x1_0000_0000) as u32;
    let hi = (v / 0x1_0000_0000) as u32;
    lemma_le32_roundtrip(lo);
    lemma_le32_roundtrip(hi);
    let s = le64_bytes(v);
    assert(le32(s, 0) == le32(le32_bytes(lo), 0));
    assert(le32(s, 4) == le32(le32_bytes(hi), 0));
}

/// What a little-endian read sees depends on the bytes it covers alone.
pub proof fn lemma_le_window(s: Seq<u8>, a: int, t: Seq<u8>, b: int, n: int)
    requires
        0 <= n,
        forall|k: int| 0 <= k < n ==> s[a + k] == #[trigger] t[b + k],
    ensures
        n >= 2 ==> le16(s, a) == le16(t, b),
        n >= 4 ==> le32(s, a) == le32(t, b),
        n >= 8 ==> le64(s, a) == le64(t, b),
{
    if n >= 2 {
        assert(s[a + 0] == t[b + 0]);
        assert(s[a + 1] == t[b + 1]);
    }
    if n >= 4 {
        assert(s[a + 2] == t[b + 2]);
        assert(s[a + 3] == t[b + 3]);
    }
    if n >= 8 {
        assert(s[a + 4] == t[b + 4]);
        assert(s[a + 5] == t[b + 5]);
        assert(s[a + 6] == t[b + 6]);
        assert(s[a + 7] == t[b + 7]);
    }
}

/// Read the 16-bit little-endian integer at `at`.
pub fn read_le16(bytes: &[u8], at: usize) -> (r: u16)
    requires
        at + 2 <= bytes@.len(),
    ensures
        r == le16(bytes@, at as int),
{
    bytes[at] as u16 + 0x100 * (bytes[at + 1] as u16)
}

/// Read the 32-bit little-endian integer at `at`.
pub fn read_le32(bytes: &[u8], at: usize) -> (r: u32)
    requires
        at + 4 <= bytes@.len(),
    ensures
        r == le32(bytes@, at as int),
{
    bytes[at] as u32 + 0x100 * (bytes[at + 1] as u32) + 0x1_0000 * (bytes[at + 2] as u32)
        + 0x100_0000 * (bytes[at + 3] as u32)
}

/// Read the 64-bit little-endian integer at `at`.
pub fn read_le64(bytes: &[u8], at: usize) -> (r: u64)
    requires
        at + 8 <= bytes@.len(),
    ensures
        r == le64(bytes@, at as int),
{
    assert(bytes@.len() == bytes.len());
    let lo: u32 = read_le32(bytes, at);
    let hi: u32 = read_le32(bytes, at + 4);
    lo as u64 + 0x1_0000_0000 * (hi as u64)
}

/// Read the 32-bit big-endian integer at `at`.
pub fn read_be32(bytes: &[u8], at: usize) -> (r: u32)
    requires
        at + 4 <= bytes@.len(),
    ensures
        r == be32(bytes@, at as int),
{
    assert(bytes@.len() == bytes.len());
    bytes[at + 3] as u32 + 0x100 * (bytes[at + 2] as u32) + 0x1_0000 * (bytes[at + 1] as u32)
        + 0x100_0000 * (bytes[at] as u32)
}

/// Append the little-endian bytes of `v` to `out`.
pub fn push_le16(out: &mut Vec<u8>, v: u16)
    ensures
        final(out)@ == old(out)@ + le16_bytes(v),
{
    out.push((v % 0x100) as u8);
    out.push((v / 0x100) as u8);
    assert(out@ =~= old(out)@ + le16_bytes(v));
}

/// Append the little-endian bytes of `v` to `out`.
pub fn push_le32(out: &mut Vec<u8>, v: u32)
    ensures
        final(out)@ == old(out)@ + le32_bytes(v),
{
    out.push((v % 0x100) as u8);
    out.push(((v / 0x100) % 0x100) as u8);
    out.push(((v / 0x1_0000) % 0x100) as u8);
    out.push((v / 0x100_0000) as u8);
    assert(out@ =~= old(out)@ + le32_bytes(v));
}

/// Append the little-endian bytes of `v` to `out`.
pub fn push_le64(out: &mut Vec<u8>, v: u64)
    ensures
        final(out)@ == old(out)@ + le64_bytes(v),
{
    push_le32(out, (v % 0x1_0000_0000) as u32);
    push_le32(out, (v / 0x1_0000_0000) as u32);
    assert(out@ =~= old(out)@ + le64_bytes(v));
}

/// Append the big-endian bytes of `v` to `out`.
pub fn push_be64(out: &mut Vec<u8>, v: u64)
    ensures
        final(out)@ == old(out)@ + be64_bytes(v),
{
    let hi: u32 = (v / 0x1_0000_0000) as u32;
    let lo: u32 = (v % 0x1_0000_0000) as u32;
    push_be32(out, hi);
    push_be32(out, lo);
    assert(out@ =~= old(out)@ + be64_bytes(v));
}

/// Append the big-endian bytes of `v` to `out`.
pub fn push_be32(out: &mut Vec<u8>, v: u32)
    ensures
        final(out)@ == old(out)@ + be32_bytes(v),
{
    out.push((v / 0x100_0000) as u8);
    out.push(((v / 0x1_0000) % 0x100) as u8);
    out.push(((v / 0x100) % 0x100) as u8);
    out.push((v % 0x100) as u8);
    assert(out@ =~= old(out)@ + be32_bytes(v));
}

/// Append every byte of `part` to `out`.
pub fn push_bytes(out: &mut Vec<u8>, part: &[u8])
    ensures
        final(out)@ == old(out)@ + part@,
{
    out.extend_from_slice(part);
    assert(out@ =~= old(out)@ + part@);
}

/// Append `n` zero bytes to `out`.
pub fn push_zeros(out: &mut Vec<u8>, n: usize)
    ensures
        final(out)@ == old(out)@ + zeros(n as nat),
{
    let mut i: usize = 0;
    while i < n
        invariant
            i <= n,
            out@ == old(out)@ + zeros(i as nat),
        decreases n - i,
    {
        out.push(0);
        i = i + 1;
        assert(out@ =~= old(out)@ + zeros(i as nat));
    }
    assert(out@ =~= old(out)@ + zeros(n as nat));
}

/// A buffer of `n` zero bytes.
pub fn zeroed(n: usize) -> (r: Vec<u8>)
    ensures
        r@ == zeros(n as nat),
{
    let r = vec![0u8; n];
    assert(r@ =~= zeros(n as nat));
    r
}

/// Write `part` over the bytes of `buf` that start at `at`.
pub fn write_at(buf: &mut Vec<u8>, at: usize, part: &[u8])
    requires
        at + part@.len() <= old(buf)@.len(),
    ensures
        final(buf)@ == splice(old(buf)@, at as int, part@),
{
    let mut i: usize = 0;
    while i < part.len()
        invariant
            i <= part@.len(),
            at + part@.len() <= buf@.len(),
            buf@ =~= splice(old(buf)@, at as int, part@.take(i as int)),
        decreases part@.len() - i,
    {
        assert(buf@.len() == buf.len());
        buf[at + i] = part[i];
        i = i + 1;
    }
    assert(part@.take(i as int) =~= part@);
}

/// Write `part` over the bytes of the slice `buf` that start at `at`.
pub fn write_slice_at(buf: &mut [u8], at: usize, part: &[u8])
    requires
        at + part@.len() <= old(buf)@.len(),
    ensures
        final(buf)@ == splice(old(buf)@, at as int, part@),
{
    let mut i: usize = 0;
    while i < part.len()
        invariant
            i <= part@.len(),
            at + part@.len() <= buf@.len(),
            buf@ =~= splice(old(buf)@, at as int, part@.take(i as int)),
        decreases part@.len() - i,
    {
        assert(buf@.len() == buf.len());
        buf[at + i] = part[i];
        i = i + 1;
    }
    assert(part@.take(i as int) =~= part@);
}

/// Whether two byte slices hold the same bytes.
pub fn bytes_eq(a: &[u8], b: &[u8]) -> (r: bool)
    ensures
        r == (a@ == b@),
{
    if a.len() != b.len() {
        return false;
    }
    let mut i: usize = 0;
    while i < a.len()
        invariant
            i <= a@.len(),
            a@.len() == b@.len(),
            forall|k: int| 0 <= k < i ==> a@[k] == b@[k],
        decreases a@.len() - i,
    {
        if a[i] != b[i] {
            return false;
        }
        i = i + 1;
    }
    assert(a@ =~= b@);
    true
}

/// The position of the first zero byte of `s`, or its length if there is none.
pub open spec fn nul_end(s: Seq<u8>) -> int
    decreases s.len(),
{
    if s.len() == 0 || s[0] == 0 {
        0
    } else {
        1 + nul_end(s.drop_first())
    }
}

/// The bytes of `s` before its first zero byte.
pub open spec fn until_nul(s: Seq<u8>) -> Seq<u8> {
    s.take(nul_end(s))
}

/// What `nul_end` is, said without recursion.
pub proof fn lemma_nul_end(s: Seq<u8>)
    ensures
        0 <= nul_end(s) <= s.len(),
        forall|k: int| 0 <= k < nul_end(s) ==> s[k] != 0,
        nul_end(s) < s.len() ==> s[nul_end(s)] == 0,
    decreases s.len(),
{
    if s.len() > 0 && s[0] != 0 {
        let t = s.drop_first();
        lemma_nul_end(t);
        assert forall|k: int| 0 <= k < nul_end(s) implies s[k] != 0 by {
            if k > 0 {
                assert(t[k - 1] == s[k]);
            }
        }
        if nul_end(s) < s.len() {
            assert(t[nul_end(t)] == s[nul_end(s)]);
        }
    }
}

/// An index with the properties of the first zero byte is that index.
pub proof fn lemma_nul_end_unique(s: Seq<u8>, e: int)
    requires
        0 <= e <= s.len(),
        forall|k: int| 0 <= k < e ==> s[k] != 0,
        e < s.len() ==> s[e] == 0,
    ensures
        nul_end(s) == e,
{
    lemma_nul_end(s);
    let n = nul_end(s);
    if n < e {
        assert(s[n] != 0);
    } else if e < n {
        assert(s[e] != 0);
    }
}

/// Find the first zero byte.
pub fn find_nul(s: &[u8]) -> (r: usize)
    ensures
        r == nul_end(s@),
        r <= s@.len(),
{
    let mut i: usize = 0;
    while i < s.len() && s[i] != 0
        invariant
            i <= s@.len(),
            forall|k: int| 0 <= k < i ==> s@[k] != 0,
        decreases s@.len() - i,
    {
        i = i + 1;
    }
    proof {
        lemma_nul_end_unique(s@, i as int);
    }
    i
}

} // verus!
