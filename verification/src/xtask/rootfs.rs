//! Laying out a root file system image.

use crate::align;
use crate::bytes;
use crate::kernel::fs::xnrsfs;
use crate::kernel::fs::xnrsfs::MAGIC;
use crate::text;
use vstd::prelude::*;
use vstd::utf8::*;

verus! {

/// The most bytes of a name that are kept.
pub const MAX_NAME: usize = 63;

/// Splits an argument of the form `name:path` at its first colon.
pub open spec fn arg_split(arg: Seq<u8>) -> Option<(Seq<u8>, Seq<u8>)> {
    if arg.contains(0x3a) {
        let i = arg.index_of_first(0x3a)->0;
        Some((arg.take(i), arg.skip(i + 1)))
    } else {
        None
    }
}

/// Splits an argument of the form `name:path` at its first colon; none if it
/// has no colon.
pub fn split_arg(arg: &str) -> (r: Option<(&str, &str)>)
    ensures
        match r {
            Some((name, path)) => arg_split(encode_utf8(arg@)) == Some(
                (encode_utf8(name@), encode_utf8(path@)),
            ),
            None => arg_split(encode_utf8(arg@)) is None,
        },
{
    let b: &[u8] = arg.as_bytes();
    let mut i: usize = 0;
    while i < b.len() && b[i] != 0x3a
        invariant
            i <= b@.len(),
            b@ == encode_utf8(arg@),
            forall|k: int| 0 <= k < i ==> b@[k] != 0x3a,
        decreases b@.len() - i,
    {
        i = i + 1;
    }
    if i == b.len() {
        return None;
    }
    proof {
        b@.index_of_first_ensures(0x3a);
        assert(b@.contains(b@[i as int]));
        assert(b@.index_of_first(0x3a)->0 == i);
        encode_utf8_valid_utf8(arg@);
        assert(!is_continuation_byte(0x3a)) by (bit_vector);
        is_char_boundary_iff_not_is_continuation_byte(b@, i as int);
    }
    let (name, rest) = arg.split_at(i);
    let tail: &[u8] = rest.as_bytes();
    proof {
        let t = tail@;
        assert(t[0] == 0x3a);
        encode_utf8_valid_utf8(rest@);
        assert(b@.take(i as int) =~= encode_utf8(name@));
        assert(is_leading_byte_width_1(0x3a)) by (bit_vector);
        valid_utf8_split(t, 0);
    }
    let path: &str = match text::from_utf8(&tail[1..tail.len()]) {
        Some(p) => p,
        None => {
            proof {
                lemma_drop_ascii(tail@);
                assert(tail@.subrange(1, tail@.len() as int) =~= tail@.skip(1));
                assert(false);
            }
            ""
        },
    };
    proof {
        assert(encode_utf8(path@) =~= b@.skip(i + 1));
    }
    Some((name, path))
}

/// Text without its first character, where that is one byte, is text.
proof fn lemma_drop_ascii(t: Seq<u8>)
    requires
        valid_utf8(t),
        t.len() > 0,
        is_leading_byte_width_1(t[0]),
    ensures
        valid_utf8(t.skip(1)),
{
    assert(pop_first_scalar(t) =~= t.skip(1));
}

/// Where the bytes of file `i` start: after the table and the files before it,
/// each rounded up to whole pages.
pub open spec fn offset_of(sizes: Seq<u64>, i: int) -> int
    decreases i,
{
    if i <= 0 {
        align::page_up(8 + 80 * sizes.len() as int)
    } else {
        align::page_up(offset_of(sizes, i - 1) + sizes[i - 1])
    }
}

/// Whether all offsets can be computed in 64 bits.
pub open spec fn fits(sizes: Seq<u64>) -> bool {
    &&& 8 + 80 * sizes.len() + 0xfff <= u64::MAX
    &&& forall|i: int|
        0 <= i < sizes.len() ==> #[trigger] offset_of(sizes, i) + sizes[i] + 0xfff <= u64::MAX
}

/// A table entry: the name, cut at `MAX_NAME` bytes, then offset and size.
pub open spec fn entry(name: Seq<u8>, offset: u64, size: u64) -> Seq<u8> {
    Seq::new(
        64,
        |k: int|
            if k < name.len() && k < MAX_NAME {
                name[k]
            } else {
                0u8
            },
    ) + bytes::le64_bytes(offset) + bytes::le64_bytes(size)
}

/// The first `n` entries of the table.
pub open spec fn table(names: Seq<Seq<u8>>, sizes: Seq<u64>, n: int) -> Seq<u8> {
    Seq::new(
        (80 * n) as nat,
        |k: int|
            entry(names[k / 80], offset_of(sizes, k / 80) as u64, sizes[k / 80])[k % 80],
    )
}

/// What comes before the first file: header, table and padding.
pub open spec fn head(names: Seq<Seq<u8>>, sizes: Seq<u64>) -> Seq<u8> {
    let count = if sizes.len() <= u32::MAX {
        sizes.len() as u32
    } else {
        0
    };
    bytes::le32_bytes(MAGIC) + bytes::le32_bytes(count) + table(names, sizes, sizes.len() as int)
        + bytes::zeros((offset_of(sizes, 0) - (8 + 80 * sizes.len())) as nat)
}

/// The image with the first `n` files in it.
pub open spec fn image_upto(names: Seq<Seq<u8>>, contents: Seq<Seq<u8>>, n: int) -> Seq<u8>
    decreases n,
{
    let sizes = sizes_of(contents);
    if n <= 0 {
        head(names, sizes)
    } else {
        image_upto(names, contents, n - 1) + contents[n - 1] + bytes::zeros(
            (offset_of(sizes, n) - offset_of(sizes, n - 1) - contents[n - 1].len()) as nat,
        )
    }
}

/// The sizes of files.
pub open spec fn sizes_of(contents: Seq<Seq<u8>>) -> Seq<u64> {
    Seq::new(contents.len(), |i: int| contents[i].len() as u64)
}

/// The image of the given files.
pub open spec fn image(names: Seq<Seq<u8>>, contents: Seq<Seq<u8>>) -> Seq<u8> {
    image_upto(names, contents, contents.len() as int)
}

/// The layout of an image.
pub struct RootfsPlan {
    /// Where each file's bytes start.
    pub offsets: Vec<u64>,
    /// How long each file is.
    pub sizes: Vec<u64>,
    /// The image's length.
    pub total: u64,
    /// What comes before the first file.
    pub head: Vec<u8>,
}

/// The UTF-8 bytes of names.
pub open spec fn name_bytes(names: Seq<String>) -> Seq<Seq<u8>> {
    Seq::new(names.len(), |i: int| encode_utf8(names[i]@))
}

impl RootfsPlan {
    /// Whether this is the layout of files with these names and sizes.
    pub open spec fn lays_out(self, names: Seq<Seq<u8>>, sizes: Seq<u64>) -> bool {
        &&& self.sizes@ == sizes
        &&& self.offsets@.len() == sizes.len()
        &&& forall|i: int| 0 <= i < sizes.len() ==> self.offsets@[i] == offset_of(sizes, i)
        &&& self.total == offset_of(sizes, sizes.len() as int)
        &&& self.head@ == head(names, sizes)
    }
}

/// An offset is never before the end of the file in front of it.
proof fn lemma_offsets(sizes: Seq<u64>, i: int)
    requires
        0 <= i <= sizes.len(),
    ensures
        8 + 80 * sizes.len() <= offset_of(sizes, 0) < 8 + 80 * sizes.len() + 0x1000,
        i > 0 ==> offset_of(sizes, i - 1) + sizes[i - 1] <= offset_of(sizes, i),
        offset_of(sizes, i) >= 8 + 80 * sizes.len(),
        offset_of(sizes, i) % 0x1000 == 0,
    decreases i,
{
    if i > 0 {
        lemma_offsets(sizes, i - 1);
    }
}

/// Lays out an image of files with the given names and sizes; none if it would
/// be too long to count.
pub fn plan_rootfs(names: &Vec<String>, sizes: Vec<u64>) -> (r: Option<RootfsPlan>)
    requires
        names@.len() == sizes@.len(),
        sizes@.len() > 0,
        8 + 80 * sizes@.len() + 0x1000 <= usize::MAX,
    ensures
        match r {
            Some(p) => fits(sizes@) && p.lays_out(name_bytes(names@), sizes@),
            None => !fits(sizes@),
        },
{
    let ghost nb = name_bytes(names@);
    let ghost sz = sizes@;
    let count: usize = sizes.len();
    let table_end: u64 = 8 + 80 * (count as u64);
    let first: u64 = match align::page_align(table_end) {
        None => {
            return None;
        },
        Some(a) => a,
    };
    let mut offsets: Vec<u64> = Vec::new();
    let mut next: u64 = first;
    let mut i: usize = 0;
    while i < count
        invariant
            i <= count,
            count == sizes@.len(),
            sz == sizes@,
            8 + 80 * sz.len() + 0xfff <= u64::MAX,
            offsets@.len() == i,
            next == offset_of(sz, i as int),
            forall|k: int| 0 <= k < i ==> offsets@[k] == offset_of(sz, k),
            forall|k: int|
                0 <= k < i ==> #[trigger] offset_of(sz, k) + sz[k] + 0xfff <= u64::MAX,
        decreases count - i,
    {
        offsets.push(next);
        let end: u64 = match next.checked_add(sizes[i]) {
            None => {
                assert(offset_of(sz, i as int) + sz[i as int] + 0xfff > u64::MAX);
                return None;
            },
            Some(e) => e,
        };
        next = match align::page_align(end) {
            None => {
                assert(offset_of(sz, i as int) + sz[i as int] + 0xfff > u64::MAX);
                return None;
            },
            Some(a) => a,
        };
        i = i + 1;
    }
    let mut out: Vec<u8> = Vec::new();
    bytes::push_le32(&mut out, MAGIC);
    let stated: u32 = if count as u64 <= u32::MAX as u64 {
        count as u32
    } else {
        0
    };
    bytes::push_le32(&mut out, stated);
    let ghost lead = bytes::le32_bytes(MAGIC) + bytes::le32_bytes(stated);
    assert(out@ =~= lead + table(nb, sz, 0));
    let mut j: usize = 0;
    while j < count
        invariant
            j <= count,
            count == sizes@.len(),
            count == names@.len(),
            count == offsets@.len(),
            sz == sizes@,
            nb == name_bytes(names@),
            forall|k: int| 0 <= k < count ==> offsets@[k] == offset_of(sz, k),
            out@ == lead + table(nb, sz, j as int),
        decreases count - j,
    {
        push_entry(&mut out, names[j].as_str(), offsets[j], sizes[j]);
        proof {
            let e = entry(nb[j as int], offsets@[j as int], sz[j as int]);
            assert(e.len() == 80);
            assert(table(nb, sz, j + 1) =~= table(nb, sz, j as int) + e);
            assert(lead + table(nb, sz, j as int) + e =~= lead + (table(nb, sz, j as int) + e));
        }
        j = j + 1;
    }
    proof {
        lemma_offsets(sz, 0);
    }
    bytes::push_zeros(&mut out, (first - table_end) as usize);
    assert(out@ =~= head(nb, sz));
    Some(RootfsPlan { offsets, sizes, total: next, head: out })
}

/// Appends a table entry.
fn push_entry(out: &mut Vec<u8>, name: &str, offset: u64, size: u64)
    ensures
        final(out)@ == old(out)@ + entry(encode_utf8(name@), offset, size),
{
    let ghost before = out@;
    let b: &[u8] = name.as_bytes();
    let mut k: usize = 0;
    let ghost field = entry(b@, offset, size).take(64);
    while k < 64
        invariant
            k <= 64,
            field == entry(b@, offset, size).take(64),
            out@ =~= before + field.take(k as int),
        decreases 64 - k,
    {
        let c: u8 = if k < b.len() && k < MAX_NAME {
            b[k]
        } else {
            0
        };
        assert(field[k as int] == c);
        out.push(c);
        k = k + 1;
    }
    bytes::push_le64(out, offset);
    bytes::push_le64(out, size);
    assert(out@ =~= before + entry(b@, offset, size));
}

/// How many zero bytes follow file `i`, of which `written` bytes were written.
pub fn padding(plan: &RootfsPlan, i: usize, written: u64) -> (r: u64)
    requires
        i < plan.offsets@.len(),
        plan.offsets@[i as int] + written <= u64::MAX,
    ensures
        ({
            let next = if i + 1 < plan.offsets@.len() {
                plan.offsets@[i + 1]
            } else {
                plan.total
            };
            let end = plan.offsets@[i as int] + written;
            r == if next > end {
                next - end
            } else {
                0
            }
        }),
{
    assert(plan.offsets@.len() == plan.offsets.len());
    let next: u64 = if i + 1 < plan.offsets.len() {
        plan.offsets[i + 1]
    } else {
        plan.total
    };
    let end: u64 = plan.offsets[i] + written;
    if next > end {
        next - end
    } else {
        0
    }
}

proof fn lemma_image_len(names: Seq<Seq<u8>>, contents: Seq<Seq<u8>>, n: int)
    requires
        names.len() == contents.len(),
        0 <= n <= contents.len(),
        forall|i: int| 0 <= i < contents.len() ==> (#[trigger] contents[i]).len() <= u64::MAX,
    ensures
        image_upto(names, contents, n).len() == offset_of(sizes_of(contents), n),
        image_upto(names, contents, n).take(offset_of(sizes_of(contents), 0)) == head(
            names,
            sizes_of(contents),
        ),
    decreases n,
{
    let sizes = sizes_of(contents);
    lemma_offsets(sizes, n);
    lemma_offsets(sizes, 0);
    if n > 0 {
        lemma_image_len(names, contents, n - 1);
        lemma_offsets(sizes, n - 1);
        let before = image_upto(names, contents, n - 1);
        lemma_offset_grows(sizes, n - 1);
        assert(sizes[n - 1] == contents[n - 1].len());
        assert(image_upto(names, contents, n).take(offset_of(sizes, 0)) =~= before.take(
            offset_of(sizes, 0),
        ));
    } else {
        assert(head(names, sizes).take(offset_of(sizes, 0)) =~= head(names, sizes));
    }
}

proof fn lemma_offset_grows(sizes: Seq<u64>, i: int)
    requires
        0 <= i <= sizes.len(),
    ensures
        offset_of(sizes, 0) <= offset_of(sizes, i),
    decreases i,
{
    if i > 0 {
        lemma_offset_grows(sizes, i - 1);
        lemma_offsets(sizes, i);
    }
}

proof fn lemma_contents(names: Seq<Seq<u8>>, contents: Seq<Seq<u8>>, i: int, n: int)
    requires
        names.len() == contents.len(),
        0 <= i < n <= contents.len(),
        forall|k: int| 0 <= k < contents.len() ==> (#[trigger] contents[k]).len() <= u64::MAX,
    ensures
        ({
            let at = offset_of(sizes_of(contents), i);
            &&& at + contents[i].len() <= image_upto(names, contents, n).len()
            &&& image_upto(names, contents, n).subrange(at, at + contents[i].len()) == contents[i]
        }),
    decreases n,
{
    let sizes = sizes_of(contents);
    let at = offset_of(sizes, i);
    lemma_image_len(names, contents, n);
    lemma_image_len(names, contents, n - 1);
    lemma_offsets(sizes, n);
    lemma_offsets(sizes, i);
    assert(sizes[n - 1] == contents[n - 1].len());
    let whole = image_upto(names, contents, n);
    if i < n - 1 {
        lemma_contents(names, contents, i, n - 1);
        let before = image_upto(names, contents, n - 1);
        assert(whole.subrange(at, at + contents[i].len()) =~= before.subrange(
            at,
            at + contents[i].len(),
        ));
    } else {
        assert(whole.subrange(at, at + contents[i].len()) =~= contents[i]);
    }
}

/// A name that the table keeps as it is: not too long, and without a zero byte.
pub open spec fn keeps(name: Seq<char>) -> bool {
    &&& encode_utf8(name).len() <= MAX_NAME
    &&& !encode_utf8(name).contains(0u8)
}

/// The bytes of names.
pub open spec fn encoded(names: Seq<Seq<char>>) -> Seq<Seq<u8>> {
    Seq::new(names.len(), |i: int| encode_utf8(names[i]))
}

proof fn lemma_entry_reads(names: Seq<Seq<char>>, contents: Seq<Seq<u8>>, t: Seq<u8>, i: int)
    requires
        names.len() == contents.len(),
        0 <= i < names.len(),
        keeps(names[i]),
        fits(sizes_of(contents)),
        contents[i].len() <= u64::MAX,
        t.len() >= 80 * names.len(),
        t.take(80 * names.len() as int) == table(
            encoded(names),
            sizes_of(contents),
            names.len() as int,
        ),
    ensures
        text::text_or_empty(xnrsfs::entry_name(t, i)) == names[i],
        xnrsfs::entry_place(t, i) == (
            offset_of(sizes_of(contents), i) as u64,
            contents[i].len() as u64,
        ),
{
    let sizes = sizes_of(contents);
    let n = names.len() as int;
    let nb = encode_utf8(names[i]);
    let off = offset_of(sizes, i);
    lemma_offsets(sizes, i);
    assert(off + sizes[i] + 0xfff <= u64::MAX);
    let e = entry(nb, off as u64, sizes[i]);
    assert forall|k: int| 0 <= k < 80 implies t[i * 80 + k] == #[trigger] e[k] by {
        let w = i * 80 + k;
        assert(t.take(80 * n)[w] == t[w]);
        assert(w / 80 == i && w % 80 == k);
    }
    let field = t.subrange(i * 80, i * 80 + 64);
    assert forall|k: int| 0 <= k < 64 implies field[k] == e[k] by {
        assert(t[i * 80 + k] == e[k]);
    }
    assert forall|k: int| 0 <= k < nb.len() implies field[k] != 0 by {
        if nb[k] == 0 {
            assert(nb.contains(nb[k]));
        }
    }
    bytes::lemma_nul_end_unique(field, nb.len() as int);
    assert(xnrsfs::entry_name(t, i) =~= nb);
    encode_utf8_valid_utf8(names[i]);
    encode_utf8_decode_utf8(names[i]);
    let a = bytes::le64_bytes(off as u64);
    let b = bytes::le64_bytes(sizes[i]);
    bytes::lemma_le64_roundtrip(off as u64);
    bytes::lemma_le64_roundtrip(sizes[i]);
    assert forall|k: int| 0 <= k < 8 implies t[i * 80 + 64 + k] == #[trigger] a[0 + k] by {
        assert(t[i * 80 + (64 + k)] == e[64 + k]);
    }
    assert forall|k: int| 0 <= k < 8 implies t[i * 80 + 72 + k] == #[trigger] b[0 + k] by {
        assert(t[i * 80 + (72 + k)] == e[72 + k]);
    }
    bytes::lemma_le_window(t, i * 80 + 64, a, 0, 8);
    bytes::lemma_le_window(t, i * 80 + 72, b, 0, 8);
}

proof fn lemma_found(names: Seq<Seq<char>>, contents: Seq<Seq<u8>>, t: Seq<u8>, i: int, from: int)
    requires
        names.len() == contents.len(),
        0 <= from <= i < names.len(),
        names.no_duplicates(),
        forall|k: int| 0 <= k < names.len() ==> keeps(#[trigger] names[k]),
        fits(sizes_of(contents)),
        forall|k: int| 0 <= k < contents.len() ==> (#[trigger] contents[k]).len() <= u64::MAX,
        t.len() >= 80 * names.len(),
        t.take(80 * names.len() as int) == table(
            encoded(names),
            sizes_of(contents),
            names.len() as int,
        ),
    ensures
        xnrsfs::found_from(t, names.len() as int, names[i], from) == Some(
            (offset_of(sizes_of(contents), i) as u64, contents[i].len() as u64),
        ),
    decreases i - from,
{
    assert(keeps(names[from]));
    assert(contents[from].len() <= u64::MAX);
    lemma_entry_reads(names, contents, t, from);
    if from < i {
        lemma_found(names, contents, t, i, from + 1);
    }
}

/// What starts with a laid-out head has its header and table.
proof fn lemma_head_reads(img: Seq<u8>, names: Seq<Seq<u8>>, sizes: Seq<u64>)
    requires
        names.len() == sizes.len(),
        sizes.len() <= u32::MAX,
        img.len() >= offset_of(sizes, 0),
        img.take(offset_of(sizes, 0)) == head(names, sizes),
    ensures
        xnrsfs::header_count(img) == Some(sizes.len() as int),
        img.skip(8).take(80 * sizes.len() as int) == table(names, sizes, sizes.len() as int),
{
    let n = sizes.len() as int;
    let h = head(names, sizes);
    let first = offset_of(sizes, 0);
    lemma_offsets(sizes, 0);
    let m = bytes::le32_bytes(MAGIC);
    let c = bytes::le32_bytes(n as u32);
    let t = table(names, sizes, n);
    let z = bytes::zeros((first - (8 + 80 * n)) as nat);
    assert(h == m + c + t + z);
    assert forall|k: int| 0 <= k < first implies img[k] == h[k] by {
        assert(img.take(first)[k] == img[k]);
    }
    bytes::lemma_le32_roundtrip(MAGIC);
    bytes::lemma_le32_roundtrip(n as u32);
    assert forall|k: int| 0 <= k < 4 implies img[0 + k] == #[trigger] m[0 + k] by {
        assert(img[k] == h[k]);
    }
    assert forall|k: int| 0 <= k < 4 implies img[4 + k] == #[trigger] c[0 + k] by {
        assert(img[4 + k] == h[4 + k]);
    }
    bytes::lemma_le_window(img, 0, m, 0, 4);
    bytes::lemma_le_window(img, 4, c, 0, 4);
    assert forall|k: int| 0 <= k < 80 * n implies img.skip(8).take(80 * n)[k] == t[k] by {
        assert(img[8 + k] == h[8 + k]);
    }
    assert(img.skip(8).take(80 * n) =~= t);
}

/// An image that was laid out is read back: for files with different names that
/// the table keeps as they are, each is found under its name, at a page
/// boundary, and the bytes there are its contents.
pub proof fn law_rootfs_reads_back(names: Seq<Seq<char>>, contents: Seq<Seq<u8>>, i: int)
    requires
        names.len() == contents.len(),
        names.len() <= u32::MAX,
        0 <= i < names.len(),
        names.no_duplicates(),
        forall|k: int| 0 <= k < names.len() ==> keeps(#[trigger] names[k]),
        fits(sizes_of(contents)),
        forall|k: int| 0 <= k < contents.len() ==> (#[trigger] contents[k]).len() <= u64::MAX,
    ensures
        ({
            let img = image(encoded(names), contents);
            &&& xnrsfs::image_ok(img)
            &&& xnrsfs::image_place(img, names[i]) matches Some((at, size)) && {
                &&& at % 0x1000 == 0
                &&& at + size <= img.len()
                &&& img.subrange(at as int, at + size) == contents[i]
            }
        }),
{
    let nb = encoded(names);
    let sizes = sizes_of(contents);
    let n = names.len() as int;
    let img = image(nb, contents);
    lemma_image_len(nb, contents, n);
    lemma_offsets(sizes, 0);
    lemma_offset_grows(sizes, n);
    lemma_offsets(sizes, i);
    lemma_contents(nb, contents, i, n);
    lemma_head_reads(img, nb, sizes);
    assert(offset_of(sizes, i) + sizes[i] + 0xfff <= u64::MAX);
    lemma_found(names, contents, img.skip(8), i, 0);
}

/// An argument is split into what stands before its first colon and what stands
/// behind it; one without a colon cannot be split.
pub proof fn law_argument_is_split(arg: Seq<u8>)
    ensures
        match arg_split(arg) {
            Some((name, path)) => arg == name + seq![0x3au8] + path && !name.contains(0x3a),
            None => !arg.contains(0x3a),
        },
{
    if arg.contains(0x3a) {
        arg.index_of_first_ensures(0x3a);
        let i = arg.index_of_first(0x3a)->0;
        let (name, path) = arg_split(arg)->0;
        assert(arg =~= name + seq![0x3au8] + path);
        assert forall|k: int| 0 <= k < name.len() implies name[k] != 0x3a by {
            assert(name[k] == arg[k]);
        }
    }
}

/// Files lie behind the table, each at the first page boundary behind the one
/// before it, so that no two overlap and no page is left out.
pub proof fn law_files_follow_each_other(sizes: Seq<u64>, i: int)
    requires
        0 <= i < sizes.len(),
    ensures
        offset_of(sizes, i) % 4096 == 0,
        8 + 80 * sizes.len() <= offset_of(sizes, 0) < 8 + 80 * sizes.len() + 4096,
        offset_of(sizes, i) + sizes[i] <= offset_of(sizes, i + 1) < offset_of(sizes, i) + sizes[i]
            + 4096,
{
    lemma_offsets(sizes, i);
    lemma_offsets(sizes, i + 1);
}

} // verus!
