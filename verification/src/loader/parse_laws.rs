//! What of a Mach-O file ends up in its image: which commands, segments and
//! sections, and in which order.

use crate::bytes;
use crate::loader::fat;
use crate::loader::image;
use crate::loader::image::{EntryPoint, ImageView, SectionView, SegmentView};
use crate::loader::load_cmd;
use crate::loader::load_cmd::DylibSpec;
use crate::loader::parse;
use crate::loader::records::{SectionSpec, SegmentSpec};
use crate::text;
use vstd::prelude::*;
use vstd::utf8::*;

verus! {

// ── Lists ──────────────────────────────────────────────────────────────────

/// Whether `to` lists, by the indices `at`, exactly the items of `from` that
/// stand for something, in their order.
pub open spec fn lists_at<A, B>(
    from: Seq<A>,
    to: Seq<B>,
    stands: spec_fn(A, B) -> bool,
    at: Seq<int>,
) -> bool {
    &&& at.len() == to.len()
    &&& forall|k: int|
        0 <= k < at.len() ==> 0 <= #[trigger] at[k] < from.len() && stands(from[at[k]], to[k])
    &&& forall|k: int, l: int| 0 <= k < l < at.len() ==> #[trigger] at[k] < #[trigger] at[l]
    &&& forall|i: int, b: B|
        0 <= i < from.len() && #[trigger] stands(from[i], b) ==> at.contains(i)
}

/// Whether `to` lists exactly the items of `from` that stand for something, in
/// their order.
pub open spec fn lists<A, B>(from: Seq<A>, to: Seq<B>, stands: spec_fn(A, B) -> bool) -> bool {
    exists|at: Seq<int>| lists_at(from, to, stands, at)
}

/// Whether the first item that stands for something stands for `b`.
pub open spec fn is_first<A, B>(
    from: Seq<A>,
    b: Option<B>,
    stands: spec_fn(A, B) -> bool,
) -> bool {
    match b {
        Some(x) => exists|i: int|
            0 <= i < from.len() && stands(#[trigger] from[i], x) && forall|j: int, y: B|
                0 <= j < i ==> !#[trigger] stands(from[j], y),
        None => forall|j: int, y: B| 0 <= j < from.len() ==> !#[trigger] stands(from[j], y),
    }
}

/// Whether the last item that stands for something stands for `b`.
pub open spec fn is_last<A, B>(
    from: Seq<A>,
    b: Option<B>,
    stands: spec_fn(A, B) -> bool,
) -> bool {
    match b {
        Some(x) => exists|i: int|
            0 <= i < from.len() && stands(#[trigger] from[i], x) && forall|j: int, y: B|
                i < j < from.len() ==> !#[trigger] stands(from[j], y),
        None => forall|j: int, y: B| 0 <= j < from.len() ==> !#[trigger] stands(from[j], y),
    }
}

/// Whether `f` finds what an item stands for.
pub open spec fn finds<A, B>(f: spec_fn(A) -> Option<B>, stands: spec_fn(A, B) -> bool) -> bool {
    forall|a: A, b: B| #[trigger] stands(a, b) <==> f(a) == Some(b)
}

/// What `f` finds in each item.
pub open spec fn kept<A, B>(from: Seq<A>, f: spec_fn(A) -> Option<B>) -> Seq<B>
    decreases from.len(),
{
    if from.len() == 0 {
        Seq::empty()
    } else {
        match f(from.last()) {
            Some(b) => kept(from.drop_last(), f).push(b),
            None => kept(from.drop_last(), f),
        }
    }
}

pub proof fn lemma_kept<A, B>(
    from: Seq<A>,
    f: spec_fn(A) -> Option<B>,
    stands: spec_fn(A, B) -> bool,
)
    requires
        finds(f, stands),
    ensures
        lists(from, kept(from, f), stands),
    decreases from.len(),
{
    let to = kept(from, f);
    if from.len() == 0 {
        assert(lists_at(from, to, stands, Seq::empty()));
    } else {
        let d = from.drop_last();
        let n = from.len() - 1;
        lemma_kept(d, f, stands);
        let before = choose|at: Seq<int>| lists_at(d, kept(d, f), stands, at);
        match f(from.last()) {
            Some(b) => {
                let at = before.push(n);
                assert(stands(from[n], b));
                assert forall|k: int| 0 <= k < at.len() implies 0 <= #[trigger] at[k] < from.len()
                    && stands(from[at[k]], to[k]) by {
                    if k < before.len() {
                        assert(at[k] == before[k]);
                        assert(d[before[k]] == from[before[k]]);
                    }
                }
                assert forall|i: int, c: B|
                    0 <= i < from.len() && #[trigger] stands(from[i], c) implies at.contains(
                    i,
                ) by {
                    if i < n {
                        assert(stands(d[i], c));
                        let k = choose|k: int| 0 <= k < before.len() && before[k] == i;
                        assert(at[k] == i);
                    } else {
                        assert(at[before.len() as int] == i);
                    }
                }
                assert(lists_at(from, to, stands, at));
            },
            None => {
                assert forall|i: int, c: B|
                    0 <= i < from.len() && #[trigger] stands(from[i], c) implies before.contains(
                    i,
                ) by {
                    if i < n {
                        assert(stands(d[i], c));
                    } else {
                        assert(f(from[i]) == Some(c));
                    }
                }
                assert forall|k: int| 0 <= k < before.len() implies 0 <= #[trigger] before[k]
                    < from.len() && stands(from[before[k]], to[k]) by {
                    assert(d[before[k]] == from[before[k]]);
                }
                assert(lists_at(from, to, stands, before));
            },
        }
    }
}

proof fn lemma_all_some<B>(from: Seq<Seq<u8>>, f: spec_fn(Seq<u8>) -> Option<B>)
    ensures
        parse::all_some(from, f) == kept(from, f),
    decreases from.len(),
{
    if from.len() > 0 {
        lemma_all_some(from.drop_last(), f);
    }
}

proof fn lemma_first_some<B>(
    from: Seq<Seq<u8>>,
    f: spec_fn(Seq<u8>) -> Option<B>,
    stands: spec_fn(Seq<u8>, B) -> bool,
)
    requires
        finds(f, stands),
    ensures
        is_first(from, parse::first_some(from, f), stands),
    decreases from.len(),
{
    if from.len() > 0 {
        let d = from.drop_last();
        let n = from.len() - 1;
        lemma_first_some(d, f, stands);
        match parse::first_some(d, f) {
            Some(x) => {
                let i = choose|i: int|
                    0 <= i < d.len() && stands(#[trigger] d[i], x) && forall|j: int, y: B|
                        0 <= j < i ==> !#[trigger] stands(d[j], y);
                assert(from[i] == d[i]);
                assert forall|j: int, y: B| 0 <= j < i implies !#[trigger] stands(from[j], y) by {
                    assert(!stands(d[j], y));
                }
            },
            None => {
                assert forall|j: int, y: B| 0 <= j < n implies !#[trigger] stands(from[j], y) by {
                    assert(!stands(d[j], y));
                }
                match f(from.last()) {
                    Some(x) => {
                        assert(stands(from[n], x));
                    },
                    None => {},
                }
            },
        }
    }
}

proof fn lemma_last_some<B>(
    from: Seq<Seq<u8>>,
    f: spec_fn(Seq<u8>) -> Option<B>,
    stands: spec_fn(Seq<u8>, B) -> bool,
)
    requires
        finds(f, stands),
    ensures
        is_last(from, parse::last_some(from, f), stands),
    decreases from.len(),
{
    if from.len() > 0 {
        let d = from.drop_last();
        let n = from.len() - 1;
        match f(from.last()) {
            Some(x) => {
                assert(stands(from[n], x));
            },
            None => {
                lemma_last_some(d, f, stands);
                assert forall|y: B| !#[trigger] stands(from[n], y) by {}
                match parse::last_some(d, f) {
                    Some(x) => {
                        let i = choose|i: int|
                            0 <= i < d.len() && stands(#[trigger] d[i], x) && forall|j: int, y: B|
                                i < j < d.len() ==> !#[trigger] stands(d[j], y);
                        assert(from[i] == d[i]);
                        assert forall|j: int, y: B| i < j < from.len() implies !#[trigger] stands(
                            from[j],
                            y,
                        ) by {
                            if j < n {
                                assert(!stands(d[j], y));
                            }
                        }
                    },
                    None => {
                        assert forall|j: int, y: B| 0 <= j < from.len() implies !#[trigger] stands(
                            from[j],
                            y,
                        ) by {
                            if j < n {
                                assert(!stands(d[j], y));
                            }
                        }
                    },
                }
            },
        }
    }
}

// ── Load commands ──────────────────────────────────────────────────────────

/// Whether a command is of a kind and has at least `size` bytes.
pub open spec fn is_kind(raw: Seq<u8>, kind: int, size: int) -> bool {
    raw.len() >= 4 && raw.len() >= size && bytes::le32(raw, 0) == kind
}

/// Whether a text that is not empty stands at `at` in a command, up to a zero
/// byte or the end of the command.
pub open spec fn text_in(raw: Seq<u8>, at: int, t: Seq<char>) -> bool {
    let e = encode_utf8(t);
    &&& t.len() > 0
    &&& 0 <= at
    &&& at + e.len() <= raw.len()
    &&& raw.subrange(at, at + e.len()) == e
    &&& forall|k: int| 0 <= k < e.len() ==> #[trigger] e[k] != 0
    &&& at + e.len() == raw.len() || raw[at + e.len()] == 0
}

proof fn lemma_text_in(raw: Seq<u8>, at: int, t: Seq<char>)
    requires
        0 <= at,
    ensures
        text_in(raw, at, t) <==> t.len() > 0 && load_cmd::lc_str(raw, at) == t,
{
    let e = encode_utf8(t);
    if text_in(raw, at, t) {
        let s = raw.skip(at);
        assert forall|k: int| 0 <= k < e.len() implies s[k] != 0 by {
            assert(raw.subrange(at, at + e.len())[k] == e[k]);
        }
        bytes::lemma_nul_end_unique(s, e.len() as int);
        assert(bytes::until_nul(s) =~= e) by {
            assert forall|k: int| 0 <= k < e.len() implies bytes::until_nul(s)[k] == e[k] by {
                assert(raw.subrange(at, at + e.len())[k] == e[k]);
            }
        }
        encode_utf8_valid_utf8(t);
        encode_utf8_decode_utf8(t);
    }
    if t.len() > 0 && load_cmd::lc_str(raw, at) == t {
        let s = raw.skip(at);
        let u = bytes::until_nul(s);
        bytes::lemma_nul_end(s);
        assert(valid_utf8(u) && decode_utf8(u) == t);
        decode_utf8_encode_utf8(u);
        assert(u == e);
        assert(raw.subrange(at, at + e.len()) =~= e) by {
            assert forall|k: int| 0 <= k < e.len() implies raw.subrange(at, at + e.len())[k]
                == e[k] by {
                assert(u[k] == s[k]);
            }
        }
        assert forall|k: int| 0 <= k < e.len() implies #[trigger] e[k] != 0 by {
            assert(u[k] == s[k]);
        }
        if at + e.len() < raw.len() {
            assert(s[e.len() as int] == raw[at + e.len()]);
        }
    }
}

/// Whether a command of a kind names a dylib: its name stands where the third
/// word says, its versions in the words behind.
pub open spec fn names_dylib(raw: Seq<u8>, kind: int, d: DylibSpec) -> bool {
    &&& is_kind(raw, kind, 24)
    &&& text_in(raw, bytes::le32(raw, 8), d.name)
    &&& d.timestamp == bytes::le32(raw, 12)
    &&& d.current_version == bytes::le32(raw, 16)
    &&& d.compat_version == bytes::le32(raw, 20)
}

proof fn lemma_names_dylib(kind: u32)
    ensures
        finds(
            |c: Seq<u8>| load_cmd::dylib_of(c, kind),
            |c: Seq<u8>, d: DylibSpec| names_dylib(c, kind as int, d),
        ),
{
    let f = |c: Seq<u8>| load_cmd::dylib_of(c, kind);
    let stands = |c: Seq<u8>, d: DylibSpec| names_dylib(c, kind as int, d);
    assert forall|c: Seq<u8>, d: DylibSpec| #[trigger] stands(c, d) <==> f(c) == Some(d) by {
        lemma_text_in(c, bytes::le32(c, 8), d.name);
    }
}

/// Each command that loads a dylib by a name gives one dependency, with that name
/// and those versions, in the order of the commands, and there are no others.
/// The same holds of dylibs that need not be there.
pub proof fn law_dylibs_are_listed(
    segs: Seq<SegmentSpec>,
    sects: Seq<SectionSpec>,
    cmds: Seq<Seq<u8>>,
    thread_entry: u64,
)
    requires
        parse::image_of(segs, sects, cmds, thread_entry) is Some,
    ensures
        ({
            let v = parse::image_of(segs, sects, cmds, thread_entry)->0;
            &&& lists(
                cmds,
                v.dylib_deps,
                |c: Seq<u8>, d: DylibSpec| names_dylib(c, 0xc, d),
            )
            &&& lists(
                cmds,
                v.weak_dylib_deps,
                |c: Seq<u8>, d: DylibSpec| names_dylib(c, 0x8000_0018, d),
            )
        }),
{
    lemma_dylibs(cmds, 0xc);
    lemma_dylibs(cmds, 0x8000_0018);
    let v = parse::image_of(segs, sects, cmds, thread_entry)->0;
    let s1 = |c: Seq<u8>, d: DylibSpec| names_dylib(c, 0xc, d);
    let t1 = |c: Seq<u8>, d: DylibSpec| names_dylib(c, 0xcu32 as int, d);
    assert(s1 =~= t1);
    let s2 = |c: Seq<u8>, d: DylibSpec| names_dylib(c, 0x8000_0018, d);
    let t2 = |c: Seq<u8>, d: DylibSpec| names_dylib(c, 0x8000_0018u32 as int, d);
    assert(s2 =~= t2);
}

proof fn lemma_dylibs(cmds: Seq<Seq<u8>>, kind: u32)
    ensures
        lists(
            cmds,
            parse::dylibs_in(cmds, kind),
            |c: Seq<u8>, d: DylibSpec| names_dylib(c, kind as int, d),
        ),
{
    lemma_names_dylib(kind);
    let f = |c: Seq<u8>| load_cmd::dylib_of(c, kind);
    lemma_all_some(cmds, f);
    lemma_kept(cmds, f, |c: Seq<u8>, d: DylibSpec| names_dylib(c, kind as int, d));
}

/// A list has as many entries as there are items that stand for something: each
/// such item has its entry, and no two share one.
pub proof fn law_listed_once<A, B>(
    from: Seq<A>,
    to: Seq<B>,
    stands: spec_fn(A, B) -> bool,
    i: int,
    j: int,
    b: B,
    c: B,
)
    requires
        lists(from, to, stands),
        forall|a: A, x: B, y: B| #[trigger] stands(a, x) && #[trigger] stands(a, y) ==> x == y,
        0 <= i < j < from.len(),
        stands(from[i], b),
        stands(from[j], c),
    ensures
        exists|k: int, l: int|
            0 <= k < l < to.len() && #[trigger] to[k] == b && #[trigger] to[l] == c,
{
    let at = choose|at: Seq<int>| lists_at(from, to, stands, at);
    let k = choose|k: int| 0 <= k < at.len() && at[k] == i;
    let l = choose|l: int| 0 <= l < at.len() && at[l] == j;
    if l < k {
        assert(at[l] < at[k]);
    }
    assert(stands(from[at[k]], to[k]) && stands(from[at[l]], to[l]));
    assert(to[k] == b && to[l] == c);
}

/// Whether a command names a run path.
pub open spec fn names_rpath(raw: Seq<u8>, path: Seq<char>) -> bool {
    is_kind(raw, 0x8000_001c, 12) && text_in(raw, bytes::le32(raw, 8), path)
}

/// Each command that names a run path gives one, in order; the identity is that
/// of the first command that names one.
pub proof fn law_paths_and_identity(
    segs: Seq<SegmentSpec>,
    sects: Seq<SectionSpec>,
    cmds: Seq<Seq<u8>>,
    thread_entry: u64,
)
    requires
        parse::image_of(segs, sects, cmds, thread_entry) is Some,
    ensures
        ({
            let v = parse::image_of(segs, sects, cmds, thread_entry)->0;
            &&& lists(cmds, v.rpaths, |c: Seq<u8>, p: Seq<char>| names_rpath(c, p))
            &&& is_first(cmds, v.dylib_id, |c: Seq<u8>, d: DylibSpec| names_dylib(c, 0xd, d))
        }),
{
    let f = |c: Seq<u8>| load_cmd::rpath_of(c);
    let stands = |c: Seq<u8>, p: Seq<char>| names_rpath(c, p);
    assert forall|c: Seq<u8>, p: Seq<char>| #[trigger] stands(c, p) <==> f(c) == Some(p) by {
        lemma_text_in(c, bytes::le32(c, 8), p);
    }
    lemma_all_some(cmds, f);
    lemma_kept(cmds, f, stands);
    lemma_names_dylib(0xd);
    let t = |c: Seq<u8>, d: DylibSpec| names_dylib(c, 0xdu32 as int, d);
    lemma_first_some(cmds, |c: Seq<u8>| load_cmd::dylib_of(c, 0xd), t);
    assert(t =~= (|c: Seq<u8>, d: DylibSpec| names_dylib(c, 0xd, d)));
}

/// Whether a command gives a file offset and a size.
pub open spec fn gives_range(raw: Seq<u8>, kind: int, size: int, offset: int, length: int) -> bool {
    is_kind(raw, kind, size) && offset == bytes::le32(raw, 8) && length == bytes::le32(raw, 12)
}

/// Of the commands that an image has once, the last one counts: those of the
/// UUID, the chained fixups, the rebase and bind tables, the signature, the
/// encryption and the versions.
pub proof fn law_last_command_counts(
    segs: Seq<SegmentSpec>,
    sects: Seq<SectionSpec>,
    cmds: Seq<Seq<u8>>,
    thread_entry: u64,
)
    requires
        parse::image_of(segs, sects, cmds, thread_entry) is Some,
    ensures
        ({
            let v = parse::image_of(segs, sects, cmds, thread_entry)->0;
            &&& is_last(
                cmds,
                v.uuid,
                |c: Seq<u8>, u: Seq<u8>| is_kind(c, 0x1b, 24) && u == c.subrange(8, 24),
            )
            &&& is_last(
                cmds,
                v.chained_fixups,
                |c: Seq<u8>, r: load_cmd::ChainedFixupsInfo|
                    gives_range(c, 0x8000_0034, 16, r.dataoff as int, r.datasize as int),
            )
            &&& is_last(
                cmds,
                v.code_signature,
                |c: Seq<u8>, r: load_cmd::LinkeditRange|
                    gives_range(c, 0x1d, 16, r.offset as int, r.size as int),
            )
            &&& is_last(
                cmds,
                v.encryption_info,
                |c: Seq<u8>, r: load_cmd::LinkeditRange|
                    gives_range(c, 0x2c, 24, r.offset as int, r.size as int),
            )
            &&& is_last(
                cmds,
                v.build_version,
                |c: Seq<u8>, r: load_cmd::BuildVersionInfo|
                    is_kind(c, 0x32, 24) && r.platform == bytes::le32(c, 8) && r.minos
                        == bytes::le32(c, 12) && r.sdk == bytes::le32(c, 16),
            )
            &&& is_last(
                cmds,
                v.dyld_info,
                |c: Seq<u8>, r: load_cmd::DyldInfoCmd| gives_tables(c, r),
            )
        }),
{
    let v = parse::image_of(segs, sects, cmds, thread_entry)->0;
    lemma_last_some(
        cmds,
        |c: Seq<u8>| load_cmd::uuid_of(c),
        |c: Seq<u8>, u: Seq<u8>| is_kind(c, 0x1b, 24) && u == c.subrange(8, 24),
    );
    lemma_last_some(
        cmds,
        |c: Seq<u8>| load_cmd::chained_of(c),
        |c: Seq<u8>, r: load_cmd::ChainedFixupsInfo|
            gives_range(c, 0x8000_0034, 16, r.dataoff as int, r.datasize as int),
    );
    lemma_range_found(0x1d, 16);
    lemma_range_found(0x2c, 24);
    let s1 = |c: Seq<u8>, r: load_cmd::LinkeditRange|
        gives_range(c, 0x1du32 as int, 16, r.offset as int, r.size as int);
    let s2 = |c: Seq<u8>, r: load_cmd::LinkeditRange|
        gives_range(c, 0x2cu32 as int, 24, r.offset as int, r.size as int);
    lemma_last_some(cmds, |c: Seq<u8>| load_cmd::range_of(c, 0x1d, 16), s1);
    lemma_last_some(cmds, |c: Seq<u8>| load_cmd::range_of(c, 0x2c, 24), s2);
    assert(s1 =~= (|c: Seq<u8>, r: load_cmd::LinkeditRange|
        gives_range(c, 0x1d, 16, r.offset as int, r.size as int)));
    assert(s2 =~= (|c: Seq<u8>, r: load_cmd::LinkeditRange|
        gives_range(c, 0x2c, 24, r.offset as int, r.size as int)));
    lemma_last_some(
        cmds,
        |c: Seq<u8>| load_cmd::build_version_of(c),
        |c: Seq<u8>, r: load_cmd::BuildVersionInfo|
            is_kind(c, 0x32, 24) && r.platform == bytes::le32(c, 8) && r.minos == bytes::le32(
                c,
                12,
            ) && r.sdk == bytes::le32(c, 16),
    );
    lemma_last_some(
        cmds,
        |c: Seq<u8>| load_cmd::dyld_info_of(c),
        |c: Seq<u8>, r: load_cmd::DyldInfoCmd| gives_tables(c, r),
    );
}

proof fn lemma_range_found(kind: u32, size: int)
    ensures
        finds(
            |c: Seq<u8>| load_cmd::range_of(c, kind, size),
            |c: Seq<u8>, r: load_cmd::LinkeditRange|
                gives_range(c, kind as int, size, r.offset as int, r.size as int),
        ),
{
}

/// Whether a command gives the rebase and bind tables.
pub open spec fn gives_tables(raw: Seq<u8>, r: load_cmd::DyldInfoCmd) -> bool {
    &&& is_kind(raw, 0x22, 48) || is_kind(raw, 0x8000_0022, 48)
    &&& r.rebase_off == bytes::le32(raw, 8)
    &&& r.rebase_size == bytes::le32(raw, 12)
    &&& r.bind_off == bytes::le32(raw, 16)
    &&& r.bind_size == bytes::le32(raw, 20)
    &&& r.lazy_bind_off == bytes::le32(raw, 32)
    &&& r.lazy_bind_size == bytes::le32(raw, 36)
    &&& r.export_off == bytes::le32(raw, 40)
    &&& r.export_size == bytes::le32(raw, 44)
}

/// Whether a command has an entry point.
pub open spec fn has_entry(raw: Seq<u8>) -> bool {
    is_kind(raw, 0x8000_0028, 24) || is_kind(raw, 0x5, 4)
}

/// Where the thread state behind the one at `pos` is.
pub open spec fn next_state(raw: Seq<u8>, pos: int) -> int {
    pos + 8 + 4 * bytes::le32(raw, pos + 4)
}

/// Whether the thread states of a command from `pos` on, after `skipped` of
/// another kind, reach one of 64-bit ARM registers whose program counter is
/// `pc`.
pub open spec fn state_holds(raw: Seq<u8>, pos: int, skipped: nat, pc: int) -> bool
    decreases skipped,
{
    if skipped == 0 {
        &&& pos + 8 + 264 <= raw.len()
        &&& bytes::le32(raw, pos) == 6
        &&& bytes::le32(raw, pos + 4) >= 66
        &&& bytes::le64(raw, pos + 8 + 256) == pc
    } else {
        &&& pos + 8 <= raw.len()
        &&& bytes::le32(raw, pos) != 6
        &&& next_state(raw, pos) <= raw.len()
        &&& state_holds(raw, next_state(raw, pos), (skipped - 1) as nat, pc)
    }
}

pub proof fn lemma_state_holds(raw: Seq<u8>, pos: int, skipped: nat, pc: int)
    requires
        0 <= pos,
        state_holds(raw, pos, skipped, pc),
    ensures
        load_cmd::state_pc(raw, pos) == Some(pc as u64),
        0 <= pc <= u64::MAX,
    decreases skipped,
{
    if skipped > 0 {
        lemma_state_holds(raw, next_state(raw, pos), (skipped - 1) as nat, pc);
    }
}

/// The entry point is that of the first command that has one: the offset in a
/// command for the main function, the program counter in one for a thread. An
/// image has one if some command has one and some segment is loaded.
pub proof fn law_first_entry_counts(
    segs: Seq<SegmentSpec>,
    sects: Seq<SectionSpec>,
    cmds: Seq<Seq<u8>>,
    thread_entry: u64,
    i: int,
)
    requires
        0 <= i < cmds.len(),
        has_entry(cmds[i]),
        forall|j: int| 0 <= j < i ==> !has_entry(#[trigger] cmds[j]),
    ensures
        ({
            let v = parse::image_of(segs, sects, cmds, thread_entry);
            &&& v is Some <==> exists|k: int| 0 <= k < segs.len() && is_loaded(#[trigger] segs[k])
            &&& v is Some && is_kind(cmds[i], 0x8000_0028, 24) ==> v->0.entry
                == EntryPoint::FileOffset(bytes::le64(cmds[i], 8) as u64)
            &&& forall|skipped: nat, pc: int|
                v is Some && is_kind(cmds[i], 0x5, 8) && #[trigger] state_holds(
                    cmds[i],
                    8,
                    skipped,
                    pc,
                ) ==> v->0.entry == EntryPoint::VirtualAddress(pc as u64)
        }),
{
    let f = |c: Seq<u8>| parse::entry_of(c, thread_entry);
    lemma_entry(cmds, f, i);
    let v = parse::image_of(segs, sects, cmds, thread_entry);
    assert(parse::entry_in(cmds, thread_entry) == f(cmds[i]));
    lemma_bare(segs);
    let bare = parse::bare_segments(segs);
    let at = choose|at: Seq<int>| lists_at(segs, bare, becomes_segment(), at);
    if bare.len() > 0 {
        assert(becomes_segment()(segs[at[0]], bare[0]));
        assert(is_loaded(segs[at[0]]));
    }
    assert forall|k: int| 0 <= k < segs.len() && is_loaded(#[trigger] segs[k]) implies bare.len()
        > 0 by {
        assert(becomes_segment()(segs[k], parse::bare_segment(segs[k])));
    }
    assert forall|skipped: nat, pc: int|
        v is Some && is_kind(cmds[i], 0x5, 8) && #[trigger] state_holds(
            cmds[i],
            8,
            skipped,
            pc,
        ) implies v->0.entry == EntryPoint::VirtualAddress(pc as u64) by {
        lemma_state_holds(cmds[i], 8, skipped, pc);
    }
}

proof fn lemma_entry(
    cmds: Seq<Seq<u8>>,
    f: spec_fn(Seq<u8>) -> Option<EntryPoint>,
    i: int,
)
    requires
        0 <= i < cmds.len(),
        forall|c: Seq<u8>| f(c) is Some <==> has_entry(c),
        has_entry(cmds[i]),
        forall|j: int| 0 <= j < i ==> !has_entry(#[trigger] cmds[j]),
    ensures
        parse::first_some(cmds, f) == f(cmds[i]),
    decreases cmds.len(),
{
    let d = cmds.drop_last();
    if i < cmds.len() - 1 {
        assert(d[i] == cmds[i]);
        assert forall|j: int| 0 <= j < i implies !has_entry(#[trigger] d[j]) by {
            assert(d[j] == cmds[j]);
        }
        lemma_entry(d, f, i);
    } else {
        assert forall|j: int| 0 <= j < d.len() implies !has_entry(#[trigger] d[j]) by {
            assert(d[j] == cmds[j]);
        }
        lemma_no_entry(d, f);
    }
}

proof fn lemma_no_entry(cmds: Seq<Seq<u8>>, f: spec_fn(Seq<u8>) -> Option<EntryPoint>)
    requires
        forall|c: Seq<u8>| f(c) is Some <==> has_entry(c),
        forall|j: int| 0 <= j < cmds.len() ==> !has_entry(#[trigger] cmds[j]),
    ensures
        parse::first_some(cmds, f) is None,
    decreases cmds.len(),
{
    if cmds.len() > 0 {
        let d = cmds.drop_last();
        assert forall|j: int| 0 <= j < d.len() implies !has_entry(#[trigger] d[j]) by {
            assert(d[j] == cmds[j]);
        }
        lemma_no_entry(d, f);
        assert(!has_entry(cmds[cmds.len() - 1]));
    }
}

/// An image without a command that has an entry point is none.
pub proof fn law_no_entry_no_image(
    segs: Seq<SegmentSpec>,
    sects: Seq<SectionSpec>,
    cmds: Seq<Seq<u8>>,
    thread_entry: u64,
)
    requires
        forall|j: int| 0 <= j < cmds.len() ==> !has_entry(#[trigger] cmds[j]),
    ensures
        parse::image_of(segs, sects, cmds, thread_entry) is None,
{
    lemma_no_entry(cmds, |c: Seq<u8>| parse::entry_of(c, thread_entry));
}

// ── Segments and sections ──────────────────────────────────────────────────

/// Whether a segment is loaded.
pub open spec fn is_loaded(s: SegmentSpec) -> bool {
    s.vmsize > 0 && s.name != Some("__PAGEZERO"@)
}

/// Whether a name field holds a text, cut after 16 bytes and padded with zeros.
pub open spec fn field_holds(field: Seq<u8>, name: Option<Seq<char>>) -> bool {
    let e = match name {
        Some(n) => encode_utf8(n),
        None => Seq::empty(),
    };
    &&& field.len() == 16
    &&& forall|k: int| 0 <= k < 16 && k < e.len() ==> #[trigger] field[k] == e[k]
    &&& forall|k: int| e.len() <= k < 16 ==> #[trigger] field[k] == 0
}

/// Whether a segment of the file becomes a segment of the image, apart from its
/// sections.
pub open spec fn same_segment(s: SegmentSpec, v: SegmentView) -> bool {
    &&& is_loaded(s)
    &&& field_holds(v.name, s.name)
    &&& v.vmaddr == s.vmaddr
    &&& v.vmsize == s.vmsize
    &&& v.fileoff == s.file_range.0
    &&& v.filesize == s.file_range.1
    &&& v.maxprot == s.maxprot
    &&& v.initprot == s.initprot
    &&& s.data is Some ==> v.data == s.data->0
    &&& s.data is None ==> v.data.len() == 0
}

spec fn becomes_segment() -> spec_fn(SegmentSpec, SegmentView) -> bool {
    |s: SegmentSpec, v: SegmentView| same_segment(s, v) && v.sections.len() == 0
}

proof fn lemma_bare(segs: Seq<SegmentSpec>)
    ensures
        lists(segs, parse::bare_segments(segs), becomes_segment()),
{
    let f = |s: SegmentSpec|
        if parse::loadable(s) {
            Some(parse::bare_segment(s))
        } else {
            None
        };
    lemma_bare_kept(segs, f);
    let stands = becomes_segment();
    assert forall|s: SegmentSpec, v: SegmentView| #[trigger] stands(s, v) <==> f(s) == Some(v) by {
        if stands(s, v) {
            let w = parse::bare_segment(s);
            assert(w.name =~= v.name);
            assert(w.data =~= v.data);
            assert(w.sections =~= v.sections);
            assert(w =~= v);
        }
    }
    lemma_kept(segs, f, stands);
}

proof fn lemma_bare_kept(segs: Seq<SegmentSpec>, f: spec_fn(SegmentSpec) -> Option<SegmentView>)
    requires
        f == (|s: SegmentSpec|
            if parse::loadable(s) {
                Some(parse::bare_segment(s))
            } else {
                None
            }),
    ensures
        parse::bare_segments(segs) == kept(segs, f),
    decreases segs.len(),
{
    if segs.len() > 0 {
        lemma_bare_kept(segs.drop_last(), f);
    }
}

/// The segments of an image are those of the file that have a size, apart from
/// the zero page, in order and with their addresses, ranges, protections and
/// bytes.
pub proof fn law_segments_are_listed(
    segs: Seq<SegmentSpec>,
    sects: Seq<SectionSpec>,
    cmds: Seq<Seq<u8>>,
    thread_entry: u64,
)
    requires
        parse::image_of(segs, sects, cmds, thread_entry) is Some,
    ensures
        exists|at: Seq<int>|
            #![trigger at.len()]
            {
                let v = parse::image_of(segs, sects, cmds, thread_entry)->0;
                &&& at.len() == v.segments.len()
                &&& forall|k: int|
                    0 <= k < at.len() ==> 0 <= #[trigger] at[k] < segs.len() && same_segment(
                        segs[at[k]],
                        v.segments[k],
                    )
                &&& forall|k: int, l: int|
                    0 <= k < l < at.len() ==> #[trigger] at[k] < #[trigger] at[l]
                &&& forall|i: int|
                    0 <= i < segs.len() && is_loaded(#[trigger] segs[i]) ==> at.contains(i)
            },
{
    lemma_bare(segs);
    let v = parse::image_of(segs, sects, cmds, thread_entry)->0;
    let bare = parse::bare_segments(segs);
    let at = choose|at: Seq<int>| lists_at(segs, bare, becomes_segment(), at);
    assert forall|k: int| 0 <= k < at.len() implies 0 <= #[trigger] at[k] < segs.len()
        && same_segment(segs[at[k]], v.segments[k]) by {
        assert(becomes_segment()(segs[at[k]], bare[k]));
    }
    assert forall|i: int| 0 <= i < segs.len() && is_loaded(#[trigger] segs[i]) implies at.contains(
        i,
    ) by {
        let w = parse::bare_segment(segs[i]);
        assert(becomes_segment()(segs[i], w));
    }
    assert(at.len() == v.segments.len());
}

proof fn lemma_lowest(segs: Seq<SegmentView>)
    ensures
        forall|k: int| 0 <= k < segs.len() ==> parse::lowest(segs) <= (#[trigger] segs[k]).vmaddr,
        segs.len() > 0 ==> exists|k: int|
            0 <= k < segs.len() && (#[trigger] segs[k]).vmaddr == parse::lowest(segs),
    decreases segs.len(),
{
    if segs.len() > 0 {
        let d = segs.drop_last();
        lemma_lowest(d);
        assert forall|k: int| 0 <= k < segs.len() implies parse::lowest(segs) <= (
        #[trigger] segs[k]).vmaddr by {
            if k < d.len() {
                assert(d[k] == segs[k]);
            }
        }
        if segs.last().vmaddr < parse::lowest(d) {
            assert(segs[segs.len() - 1].vmaddr == parse::lowest(segs));
        } else if d.len() > 0 {
            let k = choose|k: int| 0 <= k < d.len() && (#[trigger] d[k]).vmaddr == parse::lowest(d);
            assert(segs[k].vmaddr == parse::lowest(segs));
        } else {
            assert(segs[0].vmaddr == parse::lowest(segs));
        }
    }
}

/// The link base is the lowest address of a segment: no segment starts before it,
/// and one starts there.
pub proof fn law_link_base_is_lowest(
    segs: Seq<SegmentSpec>,
    sects: Seq<SectionSpec>,
    cmds: Seq<Seq<u8>>,
    thread_entry: u64,
)
    requires
        parse::image_of(segs, sects, cmds, thread_entry) is Some,
    ensures
        ({
            let v = parse::image_of(segs, sects, cmds, thread_entry)->0;
            &&& forall|k: int|
                0 <= k < v.segments.len() ==> v.link_base <= (#[trigger] v.segments[k]).vmaddr
            &&& v.link_base > 0 ==> exists|k: int|
                0 <= k < v.segments.len() && (#[trigger] v.segments[k]).vmaddr == v.link_base
            &&& v.link_base == 0 ==> exists|k: int|
                0 <= k < v.segments.len() && ((#[trigger] v.segments[k]).vmaddr == 0
                    || v.segments[k].vmaddr == u64::MAX)
        }),
{
    let bare = parse::bare_segments(segs);
    lemma_lowest(bare);
    let v = parse::image_of(segs, sects, cmds, thread_entry)->0;
    assert forall|k: int| 0 <= k < v.segments.len() implies v.link_base <= (
    #[trigger] v.segments[k]).vmaddr by {
        assert(v.segments[k].vmaddr == bare[k].vmaddr);
    }
    let k = choose|k: int| 0 <= k < bare.len() && (#[trigger] bare[k]).vmaddr == parse::lowest(
        bare,
    );
    assert(v.segments[k].vmaddr == bare[k].vmaddr);
}

/// Whether a section of the file becomes a section of a segment of the image.
pub open spec fn same_section(s: SectionSpec, segname: Seq<u8>, v: SectionView) -> bool {
    &&& field_holds(v.sectname, s.name)
    &&& v.segname == segname
    &&& v.addr == s.addr
    &&& v.size == s.size
    &&& v.flags == s.flags
    &&& s.file_range is None ==> v.fileoff == 0
    &&& s.file_range is Some && (s.file_range->0).0 <= u32::MAX ==> v.fileoff == (s.file_range->0).0
}

/// Whether segment `k` is the first one with the name that a section says.
pub open spec fn belongs(s: SectionSpec, segs: Seq<SegmentView>, k: int) -> bool {
    let name = match s.segment_name {
        Some(n) => n,
        None => Seq::empty(),
    };
    &&& 0 <= k < segs.len()
    &&& image::field_text(segs[k].name) == name
    &&& forall|j: int| 0 <= j < k ==> image::field_text(#[trigger] segs[j].name) != name
}

/// Each section is in the first segment of the name that it says, and in no
/// other; those of one segment stay in order.
pub proof fn law_sections_are_listed(
    segs: Seq<SegmentSpec>,
    sects: Seq<SectionSpec>,
    cmds: Seq<Seq<u8>>,
    thread_entry: u64,
    k: int,
)
    requires
        parse::image_of(segs, sects, cmds, thread_entry) is Some,
        0 <= k < (parse::image_of(segs, sects, cmds, thread_entry)->0).segments.len(),
    ensures
        exists|at: Seq<int>|
            #![trigger at.len()]
            {
                let v = parse::image_of(segs, sects, cmds, thread_entry)->0;
                let here = v.segments[k];
                &&& at.len() == here.sections.len()
                &&& forall|n: int|
                    0 <= n < at.len() ==> 0 <= #[trigger] at[n] < sects.len() && same_section(
                        sects[at[n]],
                        here.name,
                        here.sections[n],
                    )
                &&& forall|m: int, n: int|
                    0 <= m < n < at.len() ==> #[trigger] at[m] < #[trigger] at[n]
                &&& forall|i: int|
                    0 <= i < sects.len() ==> (belongs(#[trigger] sects[i], v.segments, k)
                        <==> at.contains(i))
            },
{
    let bare = parse::bare_segments(segs);
    let v = parse::image_of(segs, sects, cmds, thread_entry)->0;
    let here = v.segments[k];
    let f = |s: SectionSpec|
        if parse::is_home(bare, parse::home_name(s), k) {
            Some(parse::section_in(s, bare[k].name))
        } else {
            None
        };
    let stands = |s: SectionSpec, w: SectionView| f(s) == Some(w);
    lemma_sections_kept(sects, bare, k, f);
    assert(finds(f, stands));
    lemma_kept(sects, f, stands);
    let at = choose|at: Seq<int>| lists_at(sects, here.sections, stands, at);
    assert(here.name == bare[k].name);
    assert forall|j: int| 0 <= j < bare.len() implies v.segments[j].name == bare[j].name by {}
    assert forall|s: SectionSpec| #[trigger] belongs(s, v.segments, k) == parse::is_home(
        bare,
        parse::home_name(s),
        k,
    ) by {
        assert forall|j: int| 0 <= j < bare.len() implies v.segments[j].name == bare[j].name by {}
    }
    assert forall|n: int| 0 <= n < at.len() implies 0 <= #[trigger] at[n] < sects.len()
        && same_section(sects[at[n]], here.name, here.sections[n]) by {
        assert(stands(sects[at[n]], here.sections[n]));
    }
    assert forall|i: int| 0 <= i < sects.len() implies (belongs(
        #[trigger] sects[i],
        v.segments,
        k,
    ) <==> at.contains(i)) by {
        if belongs(sects[i], v.segments, k) {
            assert(stands(sects[i], parse::section_in(sects[i], bare[k].name)));
        }
        if at.contains(i) {
            let n = choose|n: int| 0 <= n < at.len() && at[n] == i;
            assert(stands(sects[at[n]], here.sections[n]));
        }
    }
    assert(at.len() == here.sections.len());
}

proof fn lemma_sections_kept(
    sects: Seq<SectionSpec>,
    bare: Seq<SegmentView>,
    k: int,
    f: spec_fn(SectionSpec) -> Option<SectionView>,
)
    requires
        f == (|s: SectionSpec|
            if parse::is_home(bare, parse::home_name(s), k) {
                Some(parse::section_in(s, bare[k].name))
            } else {
                None
            }),
    ensures
        parse::sections_for(sects, bare, k) == kept(sects, f),
    decreases sects.len(),
{
    if sects.len() > 0 {
        lemma_sections_kept(sects.drop_last(), bare, k, f);
    }
}

// ── Whole images ───────────────────────────────────────────────────────────

/// The image for 64-bit ARM in a file with several is the first one of that CPU
/// type.
pub proof fn law_first_arm64_counts(arches: Seq<(u32, Option<Seq<u8>>)>, i: int)
    requires
        0 <= i < arches.len(),
        arches[i].0 == 0x0100_000c,
        forall|j: int| 0 <= j < i ==> (#[trigger] arches[j]).0 != 0x0100_000c,
    ensures
        fat::first_arm64(arches) == Some(arches[i].1),
    decreases arches.len(),
{
    if i > 0 {
        let d = arches.drop_first();
        assert(arches[0].0 != 0x0100_000c);
        assert(d[i - 1] == arches[i]);
        assert forall|j: int| 0 <= j < i - 1 implies (#[trigger] d[j]).0 != 0x0100_000c by {
            assert(d[j] == arches[j + 1]);
        }
        law_first_arm64_counts(d, i - 1);
    }
}

proof fn lemma_segment_named(segments: Seq<SegmentView>, name: Seq<char>, i: int)
    requires
        0 <= i < segments.len(),
        image::field_text(segments[i].name) == name,
        forall|j: int| 0 <= j < i ==> image::field_text((#[trigger] segments[j]).name) != name,
    ensures
        image::segment_named(segments, name) == Some(segments[i]),
    decreases segments.len(),
{
    if i > 0 {
        let d = segments.drop_first();
        assert(image::field_text(segments[0].name) != name);
        assert(d[i - 1] == segments[i]);
        assert forall|j: int| 0 <= j < i - 1 implies image::field_text((#[trigger] d[j]).name)
            != name by {
            assert(d[j] == segments[j + 1]);
        }
        lemma_segment_named(d, name, i - 1);
    }
}

/// The entry address of an image with a file offset is where the first text
/// segment puts that offset; offsets before the segment count as its start.
pub proof fn law_entry_is_in_text(v: ImageView, off: u64, i: int)
    requires
        v.entry == EntryPoint::FileOffset(off),
        0 <= i < v.segments.len(),
        image::field_text(v.segments[i].name) == "__TEXT"@,
        forall|j: int|
            0 <= j < i ==> image::field_text((#[trigger] v.segments[j]).name) != "__TEXT"@,
    ensures
        v.entry_address() is Some,
        off >= v.segments[i].fileoff ==> v.entry_address()->0 - v.segments[i].vmaddr == off
            - v.segments[i].fileoff,
        off < v.segments[i].fileoff ==> v.entry_address()->0 == v.segments[i].vmaddr,
{
    lemma_segment_named(v.segments, "__TEXT"@, i);
}

pub proof fn lemma_highest(segments: Seq<SegmentView>, none: int)
    requires
        segments.len() > 0,
    ensures
        forall|k: int|
            0 <= k < segments.len() ==> image::segment_end(#[trigger] segments[k])
                <= image::highest_end(segments, none),
        exists|k: int|
            0 <= k < segments.len() && image::segment_end(#[trigger] segments[k])
                == image::highest_end(segments, none),
    decreases segments.len(),
{
    if segments.len() == 1 {
        assert(image::segment_end(segments[0]) == image::highest_end(segments, none));
    } else {
        let d = segments.drop_last();
        lemma_highest(d, none);
        let k = choose|k: int|
            0 <= k < d.len() && image::segment_end(#[trigger] d[k]) == image::highest_end(d, none);
        assert(d[k] == segments[k]);
        assert forall|j: int| 0 <= j < segments.len() implies image::segment_end(
            #[trigger] segments[j],
        ) <= image::highest_end(segments, none) by {
            if j < d.len() {
                assert(d[j] == segments[j]);
            }
        }
        assert(image::segment_end(segments[k]) == image::highest_end(segments, none)
            || image::segment_end(segments[segments.len() - 1]) == image::highest_end(
            segments,
            none,
        ));
    }
}

/// An image covers all of its segments from the link base on, and no more than
/// it takes.
pub proof fn law_span_covers_segments(v: ImageView)
    requires
        v.segments.len() > 0,
        forall|k: int|
            0 <= k < v.segments.len() ==> v.link_base <= (#[trigger] v.segments[k]).vmaddr
                && v.segments[k].vmaddr + v.segments[k].vmsize <= u64::MAX,
    ensures
        forall|k: int|
            0 <= k < v.segments.len() ==> (#[trigger] v.segments[k]).vmaddr + v.segments[k].vmsize
                <= v.link_base + v.span(),
        exists|k: int|
            0 <= k < v.segments.len() && (#[trigger] v.segments[k]).vmaddr + v.segments[k].vmsize
                == v.link_base + v.span(),
{
    lemma_highest(v.segments, v.link_base as int);
    let k = choose|k: int|
        0 <= k < v.segments.len() && image::segment_end(#[trigger] v.segments[k])
            == image::highest_end(v.segments, v.link_base as int);
    assert(v.segments[k].vmaddr + v.segments[k].vmsize == v.link_base + v.span());
}

} // verus!
