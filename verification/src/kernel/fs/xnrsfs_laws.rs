//! Which file a search finds, and which sectors a read takes.

use crate::bytes;
use crate::kernel::arch::uart;
use crate::kernel::fs::xnrsfs;
use crate::kernel::fs::xnrsfs::{AskView, QueryView, Stage};
use crate::text;
use vstd::prelude::*;
use vstd::utf8::*;

verus! {

/// The sectors of a read are those that the bytes lie in, and no more: the first
/// one holds the first byte, the last one the last.
pub proof fn law_plan_is_least(offset: u64, size: u64)
    requires
        size > 0,
        offset as int % 512 + size + 511 <= u64::MAX,
    ensures
        ({
            let p = xnrsfs::plan_of(offset, size);
            &&& p.lba * 512 + p.skip == offset
            &&& p.skip < 512
            &&& p.lba * 512 + p.sectors * 512 >= offset + size
            &&& p.lba * 512 + (p.sectors - 1) * 512 < offset + size
        }),
{
}

/// Whether entry `i` of an image names a file: its name up to a zero byte or the
/// end of the field, and the place and the number of its bytes.
pub open spec fn entry_is(
    image: Seq<u8>,
    i: int,
    name: Seq<char>,
    offset: u64,
    size: u64,
) -> bool {
    let at = 8 + 80 * i;
    let e = encode_utf8(name);
    &&& at + 80 <= image.len()
    &&& e.len() <= 64
    &&& image.subrange(at, at + e.len()) == e
    &&& forall|k: int| 0 <= k < e.len() ==> #[trigger] e[k] != 0
    &&& e.len() < 64 ==> image[at + e.len()] == 0
    &&& bytes::le64(image, at + 64) == offset
    &&& bytes::le64(image, at + 72) == size
}

proof fn lemma_entry_name(image: Seq<u8>, i: int, name: Seq<char>, offset: u64, size: u64)
    requires
        0 <= i,
        entry_is(image, i, name, offset, size),
    ensures
        text::text_or_empty(xnrsfs::entry_name(image.skip(8), i)) == name,
        xnrsfs::entry_place(image.skip(8), i) == (offset, size),
{
    let t = image.skip(8);
    let e = encode_utf8(name);
    let field = t.subrange(i * 80, i * 80 + 64);
    assert forall|k: int| 0 <= k < e.len() implies field[k] == e[k] by {
        assert(image.subrange(8 + 80 * i, 8 + 80 * i + e.len())[k] == e[k]);
    }
    assert forall|k: int| 0 <= k < e.len() implies field[k] != 0 by {
        assert(e[k] != 0);
    }
    bytes::lemma_nul_end_unique(field, e.len() as int);
    assert(bytes::until_nul(field) =~= e);
    encode_utf8_valid_utf8(name);
    encode_utf8_decode_utf8(name);
    bytes::lemma_le_window(t, i * 80 + 64, image, 8 + 80 * i + 64, 8);
    bytes::lemma_le_window(t, i * 80 + 72, image, 8 + 80 * i + 72, 8);
}

proof fn lemma_found(
    image: Seq<u8>,
    n: int,
    names: Seq<Seq<char>>,
    places: Seq<(u64, u64)>,
    path: Seq<char>,
    from: int,
    i: int,
)
    requires
        0 <= from <= i < n,
        names.len() == n,
        places.len() == n,
        forall|k: int|
            #![trigger names[k]]
            0 <= k < n ==> entry_is(image, k, names[k], places[k].0, places[k].1),
        names[i] == path,
        forall|k: int| 0 <= k < i ==> #[trigger] names[k] != path,
    ensures
        xnrsfs::found_from(image.skip(8), n, path, from) == Some(places[i]),
    decreases i - from,
{
    assert(entry_is(image, from, names[from], places[from].0, places[from].1));
    lemma_entry_name(image, from, names[from], places[from].0, places[from].1);
    if from < i {
        lemma_found(image, n, names, places, path, from + 1, i);
    }
}

proof fn lemma_not_found(
    image: Seq<u8>,
    n: int,
    names: Seq<Seq<char>>,
    places: Seq<(u64, u64)>,
    path: Seq<char>,
    from: int,
)
    requires
        0 <= from <= n,
        names.len() == n,
        places.len() == n,
        forall|k: int|
            #![trigger names[k]]
            0 <= k < n ==> entry_is(image, k, names[k], places[k].0, places[k].1),
        forall|k: int| 0 <= k < n ==> #[trigger] names[k] != path,
    ensures
        xnrsfs::found_from(image.skip(8), n, path, from) is None,
    decreases n - from,
{
    if from < n {
        assert(entry_is(image, from, names[from], places[from].0, places[from].1));
        lemma_entry_name(image, from, names[from], places[from].0, places[from].1);
        lemma_not_found(image, n, names, places, path, from + 1);
    }
}

/// A search through an image asks for its table, and ends with the place of the
/// first file of the name: the numbers in that file's entry. A name that no file
/// has is not found.
pub proof fn law_search_finds_entry(
    image: Seq<u8>,
    names: Seq<Seq<char>>,
    places: Seq<(u64, u64)>,
    path: Seq<char>,
    log: Seq<u8>,
)
    requires
        image.len() >= 512,
        bytes::le32(image, 0) == 0x5352_4e58,
        bytes::le32(image, 4) == names.len(),
        0 < names.len(),
        places.len() == names.len(),
        forall|k: int|
            #![trigger names[k]]
            0 <= k < names.len() ==> entry_is(image, k, names[k], places[k].0, places[k].1),
    ensures
        ({
            let n = names.len() as int;
            let q = QueryView { path, want_data: false, stage: Stage::Header };
            let a = xnrsfs::query_stepped(q, log, Some(image.take(512)));
            let table = image.subrange(8, 8 + 80 * n);
            let b = xnrsfs::query_stepped(QueryView { stage: a.stage, ..q }, a.log, Some(table));
            &&& a.ask is Read
            &&& a.ask->Read_offset == 8
            &&& a.ask->Read_size == 80 * n
            &&& a.log == log
            &&& b.log == log
            &&& forall|i: int|
                0 <= i < n && names[i] == path && (forall|k: int|
                    0 <= k < i ==> #[trigger] names[k] != path) ==> b.ask == (AskView::Place {
                    offset: (#[trigger] places[i]).0,
                    size: places[i].1,
                })
            &&& (forall|k: int| 0 <= k < n ==> #[trigger] names[k] != path) ==> b.ask
                == AskView::Missing
        }),
{
    let n = names.len() as int;
    assert(entry_is(image, n - 1, names[n - 1], places[n - 1].0, places[n - 1].1));
    bytes::lemma_le_window(image.take(512), 0, image, 0, 4);
    bytes::lemma_le_window(image.take(512), 4, image, 4, 4);
    bytes::lemma_le_window(image.take(512), 0, image, 0, 8);
    assert(xnrsfs::image_ok(image));
    xnrsfs::law_query_finds(image, path, false, log);
    let q = QueryView { path, want_data: false, stage: Stage::Header };
    let a = xnrsfs::query_stepped(q, log, Some(image.take(512)));
    assert(a.ask == (AskView::Read { offset: 8, size: (n * 80) as u64 }));
    assert forall|i: int|
        0 <= i < n && names[i] == path && (forall|k: int|
            0 <= k < i ==> #[trigger] names[k] != path) implies xnrsfs::image_place(image, path)
        == Some(#[trigger] places[i]) by {
        lemma_found(image, n, names, places, path, 0, i);
    }
    if forall|k: int| 0 <= k < n ==> #[trigger] names[k] != path {
        lemma_not_found(image, n, names, places, path, 0);
    }
}

/// The line of a file in a listing.
pub open spec fn line(name: Seq<char>, size: u64) -> Seq<u8> {
    encode_utf8("  "@) + encode_utf8(name) + encode_utf8(" ("@) + uart::put_hex(
        Seq::empty(),
        size,
    ) + encode_utf8(" bytes)\n"@)
}

/// The lines of files, one behind the other.
pub open spec fn lines(names: Seq<Seq<char>>, places: Seq<(u64, u64)>) -> Seq<u8>
    decreases names.len(),
{
    if names.len() == 0 {
        Seq::empty()
    } else {
        lines(names.drop_last(), places.drop_last()) + line(names.last(), places.last().1)
    }
}

/// A listing has a line for each file of the table, in order, with its name and
/// its size.
pub proof fn law_listing_has_all_files(
    image: Seq<u8>,
    names: Seq<Seq<char>>,
    places: Seq<(u64, u64)>,
    log: Seq<u8>,
)
    requires
        places.len() == names.len(),
        forall|k: int|
            #![trigger names[k]]
            0 <= k < names.len() ==> entry_is(image, k, names[k], places[k].0, places[k].1),
    ensures
        xnrsfs::entries_listed(log, image.skip(8), names.len() as int) == log + lines(
            names,
            places,
        ),
    decreases names.len(),
{
    let n = names.len() as int;
    if n > 0 {
        let dn = names.drop_last();
        let dp = places.drop_last();
        assert forall|k: int| #![trigger dn[k]] 0 <= k < dn.len() implies entry_is(
            image,
            k,
            dn[k],
            dp[k].0,
            dp[k].1,
        ) by {
            assert(dn[k] == names[k]);
        }
        law_listing_has_all_files(image, dn, dp, log);
        assert(entry_is(image, n - 1, names[n - 1], places[n - 1].0, places[n - 1].1));
        lemma_entry_name(image, n - 1, names[n - 1], places[n - 1].0, places[n - 1].1);
        lemma_listed_name(image, n - 1, names[n - 1], places[n - 1].0, places[n - 1].1);
        let w = xnrsfs::entries_listed(log, image.skip(8), n);
        assert(w =~= log + lines(names, places));
    } else {
        assert(log + lines(names, places) =~= log);
    }
}

proof fn lemma_listed_name(image: Seq<u8>, i: int, name: Seq<char>, offset: u64, size: u64)
    requires
        0 <= i,
        entry_is(image, i, name, offset, size),
    ensures
        xnrsfs::listed_name(image.skip(8), i) == name,
{
    let t = image.skip(8);
    let e = encode_utf8(name);
    let field = t.subrange(i * 80, i * 80 + 64);
    assert forall|k: int| 0 <= k < e.len() implies field[k] == e[k] by {
        assert(image.subrange(8 + 80 * i, 8 + 80 * i + e.len())[k] == e[k]);
    }
    assert forall|k: int| 0 <= k < e.len() implies field[k] != 0 by {
        assert(e[k] != 0);
    }
    bytes::lemma_nul_end_unique(field, e.len() as int);
    assert(bytes::until_nul(field) =~= e);
    encode_utf8_valid_utf8(name);
    encode_utf8_decode_utf8(name);
}

} // verus!
