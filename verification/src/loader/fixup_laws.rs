//! What rebasing an image does to memory, said by the slots themselves.
//!
//! The fixups of an image are described by what stands in them: which segments
//! have a record, where their pages lie, and which slots make up the chain of
//! each page. The law says at which addresses the slots are and what they hold
//! afterwards.

use crate::bytes;
use crate::loader::fixup;
use crate::loader::fixup::{Applied, SegmentStarts};
use crate::mem;
use crate::mem::Memory;
use vstd::prelude::*;

verus! {

/// A slot, taken apart.
pub struct Slot {
    /// Whether it is an authenticated pointer.
    pub auth: bool,
    /// Whether it is an import.
    pub bind: bool,
    /// How many slots of 8 bytes on the next one is; 0 for the last one.
    pub next: int,
    /// The bits between that and the top byte.
    pub rest: int,
    /// The top byte of a plain pointer.
    pub high: int,
    /// The address that it points to, before the slide.
    pub target: int,
}

/// Whether each part of a slot fits into its bits.
pub open spec fn slot_ok(p: Slot) -> bool {
    &&& 0 <= p.next < 0x800
    &&& 0 <= p.rest < 0x800
    &&& 0 <= p.high < 0x100
    &&& 0 <= p.target < 0x1_0000_0000
}

/// The number that a slot holds before the image is rebased.
pub open spec fn slot_value(p: Slot) -> int {
    (if p.auth {
        0x8000_0000_0000_0000int
    } else {
        0
    }) + (if p.bind {
        0x4000_0000_0000_0000int
    } else {
        0
    }) + p.next * 0x8_0000_0000_0000 + p.rest * 0x100_0000_0000 + p.high * 0x1_0000_0000 + p.target
}

/// The number that it holds afterwards: an import stays, a pointer is moved by
/// the slide, and a plain one keeps its top byte.
pub open spec fn slot_after(p: Slot, slide: int) -> int {
    if p.bind {
        slot_value(p)
    } else if p.auth {
        slide + p.target
    } else {
        slide + p.target + p.high * 0x100_0000_0000_0000
    }
}

/// A slot and its address.
pub struct Place {
    pub addr: int,
    pub slot: Slot,
}

/// The slots of a chain that starts at `addr`.
pub open spec fn chain_places(addr: int, chain: Seq<Slot>) -> Seq<Place>
    decreases chain.len(),
{
    if chain.len() == 0 {
        Seq::empty()
    } else {
        seq![Place { addr, slot: chain[0] }] + chain_places(
            addr + 8 * chain[0].next,
            chain.drop_first(),
        )
    }
}

/// Whether slots make a chain: each but the last leads on.
pub open spec fn chain_ok(chain: Seq<Slot>) -> bool {
    &&& chain.len() > 0
    &&& forall|k: int| 0 <= k < chain.len() ==> slot_ok(#[trigger] chain[k])
    &&& forall|k: int|
        0 <= k < chain.len() ==> ((#[trigger] chain[k]).next == 0 <==> k == chain.len() - 1)
}

/// The chain of a page: how far from the start of the page it starts, and its
/// slots.
pub struct PageChain {
    pub start: int,
    pub chain: Seq<Slot>,
}

/// The fixups of a segment.
pub struct SegmentFixups {
    /// How far from the list of segments its record is.
    pub record: int,
    /// The pointer format.
    pub format: int,
    /// Bytes per page.
    pub page_size: int,
    /// How far from the load address the segment is.
    pub offset: int,
    /// The chain of each page, if it has one.
    pub pages: Seq<Option<PageChain>>,
}

/// Where the chain of page `i` starts.
pub open spec fn page_start(load_base: int, seg: SegmentFixups, i: int) -> int {
    load_base + seg.offset + i * seg.page_size + (seg.pages[i]->0).start
}

/// The slots of the pages from `i` on.
pub open spec fn page_places(load_base: int, seg: SegmentFixups, i: int) -> Seq<Place>
    decreases seg.pages.len() - i,
{
    if i < 0 || i >= seg.pages.len() {
        Seq::empty()
    } else {
        (match seg.pages[i] {
            Some(p) => chain_places(page_start(load_base, seg, i), p.chain),
            None => Seq::empty(),
        }) + page_places(load_base, seg, i + 1)
    }
}

/// The slots of the segments from `s` on. Those of another pointer format are
/// left alone.
pub open spec fn image_places(load_base: int, segs: Seq<Option<SegmentFixups>>, s: int) -> Seq<Place>
    decreases segs.len() - s,
{
    if s < 0 || s >= segs.len() {
        Seq::empty()
    } else {
        (match segs[s] {
            Some(seg) => if seg.format == 12 {
                page_places(load_base, seg, 0)
            } else {
                Seq::empty()
            },
            None => Seq::empty(),
        }) + image_places(load_base, segs, s + 1)
    }
}

/// Whether memory holds the record of a segment at `info`.
pub open spec fn record_held(m: Memory, info: int, seg: SegmentFixups) -> bool {
    &&& m.get16(info + 4) == Some(seg.page_size)
    &&& m.get16(info + 6) == Some(seg.format)
    &&& m.get64(info + 8) == Some(seg.offset)
    &&& m.get16(info + 20) == Some(seg.pages.len() as int)
    &&& forall|i: int|
        0 <= i < seg.pages.len() ==> #[trigger] m.get16(info + 22 + i * 2) == Some(
            match seg.pages[i] {
                Some(p) => p.start,
                None => 0xffff,
            },
        )
}

/// Whether memory holds the list of segments at `starts` and their records.
pub open spec fn tables_held(m: Memory, starts: int, segs: Seq<Option<SegmentFixups>>) -> bool {
    &&& m.get32(starts) == Some(segs.len() as int)
    &&& forall|s: int|
        0 <= s < segs.len() ==> #[trigger] m.get32(starts + 4 + s * 4) == Some(
            match segs[s] {
                Some(seg) => seg.record,
                None => 0,
            },
        )
    &&& forall|s: int|
        0 <= s < segs.len() && (#[trigger] segs[s]) is Some ==> record_held(
            m,
            starts + (segs[s]->0).record,
            segs[s]->0,
        )
}

/// Whether the pages and chains of a segment are as they should be.
pub open spec fn segment_ok(seg: SegmentFixups) -> bool {
    &&& seg.record > 0
    &&& forall|i: int|
        0 <= i < seg.pages.len() && (#[trigger] seg.pages[i]) is Some ==> {
            &&& (seg.pages[i]->0).start != 0xffff
            &&& chain_ok((seg.pages[i]->0).chain)
        }
}

/// Whether memory holds the slots.
pub open spec fn slots_held(m: Memory, places: Seq<Place>) -> bool {
    forall|k: int|
        0 <= k < places.len() ==> m.get64((#[trigger] places[k]).addr) == Some(
            slot_value(places[k].slot),
        )
}

/// Whether no slot is moved beyond the address space.
pub open spec fn slides(places: Seq<Place>, slide: int) -> bool {
    forall|k: int|
        0 <= k < places.len() ==> 0 <= slot_after((#[trigger] places[k]).slot, slide) <= u64::MAX
}

/// Whether no two slots overlap.
pub open spec fn places_apart(places: Seq<Place>) -> bool {
    forall|k: int, l: int|
        #![trigger places[k], places[l]]
        0 <= k < l < places.len() ==> places[k].addr + 8 <= places[l].addr || places[l].addr + 8
            <= places[k].addr
}

/// Whether no slot overlaps the bytes from `lo` to `hi`.
pub open spec fn clear_of(places: Seq<Place>, lo: int, hi: int) -> bool {
    forall|k: int|
        0 <= k < places.len() ==> (#[trigger] places[k]).addr + 8 <= lo || hi <= places[k].addr
}

/// Whether no slot overlaps the tables.
pub open spec fn clear_of_tables(
    places: Seq<Place>,
    starts: int,
    segs: Seq<Option<SegmentFixups>>,
) -> bool {
    &&& clear_of(places, starts, starts + 4 + 4 * segs.len())
    &&& forall|s: int|
        0 <= s < segs.len() && (#[trigger] segs[s]) is Some ==> clear_of(
            places,
            starts + (segs[s]->0).record,
            starts + (segs[s]->0).record + 22 + 2 * (segs[s]->0).pages.len(),
        )
}

/// Whether an address lies in one of the slots.
pub open spec fn in_slots(places: Seq<Place>, x: int) -> bool {
    exists|k: int|
        0 <= k < places.len() && (#[trigger] places[k]).addr <= x < places[k].addr + 8
}

/// Whether memory lies in the address space.
pub open spec fn in_space(m: Memory) -> bool {
    0 <= m.base && m.base + m.bytes.len() <= u64::MAX + 1
}

/// Memory with the slots rewritten one after the other.
spec fn written(m: Memory, places: Seq<Place>, slide: int) -> Memory
    decreases places.len(),
{
    if places.len() == 0 {
        m
    } else {
        let n = written(m, places.drop_last(), slide);
        let p = places.last();
        if p.slot.bind {
            n
        } else {
            n.put(p.addr, bytes::le64_bytes(slot_after(p.slot, slide) as u64))
        }
    }
}

/// Whether every slot lies in memory.
spec fn covered(m: Memory, places: Seq<Place>) -> bool {
    forall|k: int| 0 <= k < places.len() ==> m.covers((#[trigger] places[k]).addr, 8)
}

proof fn lemma_written(m: Memory, places: Seq<Place>, slide: int)
    requires
        covered(m, places),
        places_apart(places),
        slides(places, slide),
        slots_held(m, places),
    ensures
        written(m, places, slide).base == m.base,
        written(m, places, slide).bytes.len() == m.bytes.len(),
        forall|k: int|
            0 <= k < places.len() ==> written(m, places, slide).get64((#[trigger] places[k]).addr)
                == Some(slot_after(places[k].slot, slide)),
        forall|x: int|
            !in_slots(places, x) ==> #[trigger] written(m, places, slide).get8(x) == m.get8(x),
    decreases places.len(),
{
    if places.len() > 0 {
        let d = places.drop_last();
        let p = places.last();
        assert(places[places.len() - 1] == p);
        assert forall|k: int| 0 <= k < d.len() implies m.covers((#[trigger] d[k]).addr, 8) && m.get64(
            d[k].addr,
        ) == Some(slot_value(d[k].slot)) && 0 <= slot_after(d[k].slot, slide) <= u64::MAX by {
            assert(places[k] == d[k]);
        }
        assert forall|k: int, l: int|
            #![trigger d[k], d[l]]
            0 <= k < l < d.len() implies d[k].addr + 8 <= d[l].addr || d[l].addr + 8
            <= d[k].addr by {
            assert(places[k] == d[k] && places[l] == d[l]);
        }
        lemma_written(m, d, slide);
        let n = written(m, d, slide);
        let w = written(m, places, slide);
        let v = slot_after(p.slot, slide) as u64;
        bytes::lemma_le64_roundtrip(v);
        assert(m.covers(p.addr, 8));
        assert(w.base == m.base && w.bytes.len() == m.bytes.len());
        assert forall|x: int| !(p.addr <= x < p.addr + 8) implies #[trigger] w.get8(x) == n.get8(
            x,
        ) by {}
        assert forall|x: int| !in_slots(places, x) implies #[trigger] w.get8(x) == m.get8(x) by {
            assert(!(p.addr <= x < p.addr + 8));
            assert(!in_slots(d, x)) by {
                if in_slots(d, x) {
                    let k = choose|k: int|
                        0 <= k < d.len() && (#[trigger] d[k]).addr <= x < d[k].addr + 8;
                    assert(places[k] == d[k]);
                }
            }
        }
        assert forall|k: int| 0 <= k < places.len() implies w.get64((#[trigger] places[k]).addr)
            == Some(slot_after(places[k].slot, slide)) by {
            if k < d.len() {
                assert(d[k] == places[k]);
                lemma_get64(n, w, d[k].addr);
            } else {
                if p.slot.bind {
                    assert(!in_slots_near(d, p.addr)) by {
                        if in_slots_near(d, p.addr) {
                            let j = choose|j: int|
                                0 <= j < d.len() && (#[trigger] d[j]).addr < p.addr + 8 && p.addr
                                    < d[j].addr + 8;
                            assert(places[j] == d[j]);
                        }
                    }
                    assert forall|x: int| p.addr <= x < p.addr + 8 implies #[trigger] w.get8(x)
                        == m.get8(x) by {
                        if in_slots(d, x) {
                            let j = choose|j: int|
                                0 <= j < d.len() && (#[trigger] d[j]).addr <= x < d[j].addr + 8;
                            assert(in_slots_near(d, p.addr));
                        }
                    }
                    lemma_get64(m, w, p.addr);
                } else {
                    mem::lemma_get_after_put64(n, p.addr, v);
                }
            }
        }
    }
}

spec fn in_slots_near(places: Seq<Place>, a: int) -> bool {
    exists|j: int|
        0 <= j < places.len() && (#[trigger] places[j]).addr < a + 8 && a < places[j].addr + 8
}

/// A number depends on its bytes alone.
proof fn lemma_get64(m: Memory, n: Memory, a: int)
    requires
        m.base == n.base,
        m.bytes.len() == n.bytes.len(),
        forall|x: int| a <= x < a + 8 ==> #[trigger] n.get8(x) == m.get8(x),
    ensures
        n.get64(a) == m.get64(a),
{
    if m.covers(a, 8) {
        assert forall|k: int| 0 <= k < 8 implies n.bytes[(a - n.base) + k]
            == #[trigger] m.bytes[(a - m.base) + k] by {
            assert(n.get8(a + k) == m.get8(a + k));
        }
        bytes::lemma_le_window(n.bytes, a - n.base, m.bytes, a - m.base, 8);
    }
}

proof fn lemma_get32(m: Memory, n: Memory, a: int)
    requires
        m.base == n.base,
        m.bytes.len() == n.bytes.len(),
        forall|x: int| a <= x < a + 4 ==> #[trigger] n.get8(x) == m.get8(x),
    ensures
        n.get32(a) == m.get32(a),
{
    if m.covers(a, 4) {
        assert forall|k: int| 0 <= k < 4 implies n.bytes[(a - n.base) + k]
            == #[trigger] m.bytes[(a - m.base) + k] by {
            assert(n.get8(a + k) == m.get8(a + k));
        }
        bytes::lemma_le_window(n.bytes, a - n.base, m.bytes, a - m.base, 4);
    }
}

proof fn lemma_get16(m: Memory, n: Memory, a: int)
    requires
        m.base == n.base,
        m.bytes.len() == n.bytes.len(),
        forall|x: int| a <= x < a + 2 ==> #[trigger] n.get8(x) == m.get8(x),
    ensures
        n.get16(a) == m.get16(a),
{
    if m.covers(a, 2) {
        assert forall|k: int| 0 <= k < 2 implies n.bytes[(a - n.base) + k]
            == #[trigger] m.bytes[(a - m.base) + k] by {
            assert(n.get8(a + k) == m.get8(a + k));
        }
        bytes::lemma_le_window(n.bytes, a - n.base, m.bytes, a - m.base, 2);
    }
}

proof fn lemma_written_concat(m: Memory, a: Seq<Place>, b: Seq<Place>, slide: int)
    ensures
        written(written(m, a, slide), b, slide) == written(m, a + b, slide),
    decreases b.len(),
{
    if b.len() == 0 {
        assert(a + b =~= a);
    } else {
        lemma_written_concat(m, a, b.drop_last(), slide);
        assert((a + b).drop_last() =~= a + b.drop_last());
        assert((a + b).last() == b.last());
    }
}

/// What is said of two lists of slots together is said of each.
proof fn lemma_split(m: Memory, a: Seq<Place>, b: Seq<Place>, slide: int)
    requires
        places_apart(a + b),
        slides(a + b, slide),
        slots_held(m, a + b),
    ensures
        places_apart(a),
        places_apart(b),
        slides(a, slide),
        slides(b, slide),
        slots_held(m, a),
        slots_held(m, b),
        covered(m, a),
        covered(m, b),
        slots_held(written(m, a, slide), b),
        written(m, a, slide).base == m.base,
        written(m, a, slide).bytes.len() == m.bytes.len(),
{
    let c = a + b;
    assert forall|k: int| 0 <= k < a.len() implies m.get64((#[trigger] a[k]).addr) == Some(
        slot_value(a[k].slot),
    ) && 0 <= slot_after(a[k].slot, slide) <= u64::MAX && m.covers(a[k].addr, 8) by {
        assert(c[k] == a[k]);
    }
    assert forall|k: int| 0 <= k < b.len() implies m.get64((#[trigger] b[k]).addr) == Some(
        slot_value(b[k].slot),
    ) && 0 <= slot_after(b[k].slot, slide) <= u64::MAX && m.covers(b[k].addr, 8) by {
        assert(c[a.len() + k] == b[k]);
    }
    assert forall|k: int, l: int|
        #![trigger a[k], a[l]]
        0 <= k < l < a.len() implies a[k].addr + 8 <= a[l].addr || a[l].addr + 8 <= a[k].addr by {
        assert(c[k] == a[k] && c[l] == a[l]);
    }
    assert forall|k: int, l: int|
        #![trigger b[k], b[l]]
        0 <= k < l < b.len() implies b[k].addr + 8 <= b[l].addr || b[l].addr + 8 <= b[k].addr by {
        assert(c[a.len() + k] == b[k] && c[a.len() + l] == b[l]);
    }
    lemma_written(m, a, slide);
    let w = written(m, a, slide);
    assert forall|k: int| 0 <= k < b.len() implies w.get64((#[trigger] b[k]).addr) == Some(
        slot_value(b[k].slot),
    ) by {
        assert forall|x: int| b[k].addr <= x < b[k].addr + 8 implies #[trigger] w.get8(x) == m.get8(
            x,
        ) by {
            if in_slots(a, x) {
                let j = choose|j: int|
                    0 <= j < a.len() && (#[trigger] a[j]).addr <= x < a[j].addr + 8;
                assert(c[j] == a[j] && c[a.len() + k] == b[k]);
            }
        }
        lemma_get64(m, w, b[k].addr);
    }
}

/// The parts of a slot, read off its number.
proof fn lemma_slot_parts(p: Slot, slide: int)
    requires
        slot_ok(p),
    ensures
        fixup::stride(slot_value(p)) == p.next,
        fixup::is_bind(slot_value(p)) == p.bind,
        !p.bind ==> fixup::rebased(slot_value(p), slide) == slot_after(p, slide),
{
    let v = slot_value(p);
    let low = p.rest * 0x100_0000_0000 + p.high * 0x1_0000_0000 + p.target;
    assert(0 <= low < 0x8_0000_0000_0000);
    let top: int = (if p.auth {
        0x1000int
    } else {
        0
    }) + (if p.bind {
        0x800int
    } else {
        0
    });
    assert(v == (top + p.next) * 0x8_0000_0000_0000 + low);
    assert(v / 0x8_0000_0000_0000 == top + p.next);
    assert((top + p.next) % 0x800 == p.next);
    assert(v / 0x4000_0000_0000_0000 == (if p.auth {
        2int
    } else {
        0
    }) + (if p.bind {
        1int
    } else {
        0
    }));
    assert(v / 0x8000_0000_0000_0000 == if p.auth {
        1int
    } else {
        0
    });
    let mid = (top + p.next) * 0x8_0000 + p.rest * 0x100;
    assert(v == (mid + p.high) * 0x1_0000_0000 + p.target);
    assert(v / 0x1_0000_0000 == mid + p.high);
    assert(mid % 0x100 == 0);
    assert(v / 0x1_0000_0000 % 0x100 == p.high);
    assert(v % 0x1_0000_0000 == p.target);
}

proof fn lemma_chain(m: Memory, addr: int, chain: Seq<Slot>, slide: int)
    requires
        in_space(m),
        chain_ok(chain),
        places_apart(chain_places(addr, chain)),
        slots_held(m, chain_places(addr, chain)),
        slides(chain_places(addr, chain), slide),
    ensures
        fixup::chain_applied(m, addr, slide) == (Applied {
            mem: written(m, chain_places(addr, chain), slide),
            stop: None,
        }),
    decreases chain.len(),
{
    let places = chain_places(addr, chain);
    let p = chain[0];
    let rest = chain.drop_first();
    let one = seq![Place { addr, slot: p }];
    let tail = chain_places(addr + 8 * p.next, rest);
    assert(places == one + tail);
    assert(places[0] == one[0]);
    lemma_slot_parts(p, slide);
    lemma_split(m, one, tail, slide);
    lemma_written_concat(m, one, tail, slide);
    let n = written(m, one, slide);
    assert(one.drop_last() =~= Seq::<Place>::empty());
    assert(written(m, one.drop_last(), slide) == m);
    assert(one.last() == one[0]);
    let s = fixup::slot_applied(m, addr, slide);
    assert(m.get64(addr) == Some(slot_value(p)));
    assert(s.mem == n);
    if chain.len() == 1 {
        assert(p.next == 0);
        assert(places =~= one);
    } else {
        assert(p.next != 0);
        assert forall|k: int| 0 <= k < rest.len() implies slot_ok(#[trigger] rest[k]) && (
        rest[k].next == 0 <==> k == rest.len() - 1) by {
            assert(rest[k] == chain[k + 1]);
        }
        assert(tail[0] == (Place { addr: addr + 8 * p.next, slot: rest[0] }));
        assert(covered(m, tail));
        assert(m.covers(tail[0].addr, 8));
        lemma_chain(n, addr + 8 * p.next, rest, slide);
    }
}

/// Tables that no slot touches stay as they are.
proof fn lemma_record_stays(m: Memory, places: Seq<Place>, slide: int, info: int, seg: SegmentFixups)
    requires
        covered(m, places),
        places_apart(places),
        slides(places, slide),
        slots_held(m, places),
        record_held(m, info, seg),
        clear_of(places, info, info + 22 + 2 * seg.pages.len()),
    ensures
        record_held(written(m, places, slide), info, seg),
{
    lemma_written(m, places, slide);
    let w = written(m, places, slide);
    assert forall|x: int| info <= x < info + 22 + 2 * seg.pages.len() implies #[trigger] w.get8(x)
        == m.get8(x) by {
        if in_slots(places, x) {
            let k = choose|k: int|
                0 <= k < places.len() && (#[trigger] places[k]).addr <= x < places[k].addr + 8;
            assert(places[k].addr + 8 <= info || info + 22 + 2 * seg.pages.len()
                <= places[k].addr);
        }
    }
    lemma_get16(m, w, info + 4);
    lemma_get16(m, w, info + 6);
    lemma_get64(m, w, info + 8);
    lemma_get16(m, w, info + 20);
    assert forall|i: int| 0 <= i < seg.pages.len() implies #[trigger] w.get16(info + 22 + i * 2)
        == Some(
        match seg.pages[i] {
            Some(p) => p.start,
            None => 0xffff,
        },
    ) by {
        assert(m.get16(info + 22 + i * 2) is Some);
        lemma_get16(m, w, info + 22 + i * 2);
    }
}

proof fn lemma_tables_stay(
    m: Memory,
    places: Seq<Place>,
    slide: int,
    starts: int,
    segs: Seq<Option<SegmentFixups>>,
)
    requires
        covered(m, places),
        places_apart(places),
        slides(places, slide),
        slots_held(m, places),
        tables_held(m, starts, segs),
        clear_of_tables(places, starts, segs),
    ensures
        tables_held(written(m, places, slide), starts, segs),
{
    lemma_written(m, places, slide);
    let w = written(m, places, slide);
    let hi = starts + 4 + 4 * segs.len();
    assert forall|x: int| starts <= x < hi implies #[trigger] w.get8(x) == m.get8(x) by {
        if in_slots(places, x) {
            let k = choose|k: int|
                0 <= k < places.len() && (#[trigger] places[k]).addr <= x < places[k].addr + 8;
            assert(places[k].addr + 8 <= starts || hi <= places[k].addr);
        }
    }
    lemma_get32(m, w, starts);
    assert forall|s: int| 0 <= s < segs.len() implies #[trigger] w.get32(starts + 4 + s * 4) == Some(
        match segs[s] {
            Some(seg) => seg.record,
            None => 0,
        },
    ) by {
        assert(m.get32(starts + 4 + s * 4) is Some);
        lemma_get32(m, w, starts + 4 + s * 4);
    }
    assert forall|s: int| 0 <= s < segs.len() && (#[trigger] segs[s]) is Some implies record_held(
        w,
        starts + (segs[s]->0).record,
        segs[s]->0,
    ) by {
        lemma_record_stays(m, places, slide, starts + (segs[s]->0).record, segs[s]->0);
    }
}

proof fn lemma_clear_split(a: Seq<Place>, b: Seq<Place>, lo: int, hi: int)
    requires
        clear_of(a + b, lo, hi),
    ensures
        clear_of(a, lo, hi),
        clear_of(b, lo, hi),
{
    let c = a + b;
    assert forall|k: int| 0 <= k < a.len() implies (#[trigger] a[k]).addr + 8 <= lo || hi
        <= a[k].addr by {
        assert(c[k] == a[k]);
    }
    assert forall|k: int| 0 <= k < b.len() implies (#[trigger] b[k]).addr + 8 <= lo || hi
        <= b[k].addr by {
        assert(c[a.len() + k] == b[k]);
    }
}

/// The record of a segment as the walk takes it.
spec fn starts_of(info: int, seg: SegmentFixups) -> SegmentStarts {
    SegmentStarts {
        info,
        page_size: seg.page_size,
        segment_offset: seg.offset,
        page_count: seg.pages.len() as int,
    }
}

proof fn lemma_pages(m: Memory, load_base: int, slide: int, info: int, seg: SegmentFixups, i: int)
    requires
        in_space(m),
        segment_ok(seg),
        record_held(m, info, seg),
        0 <= i <= seg.pages.len(),
        places_apart(page_places(load_base, seg, i)),
        slots_held(m, page_places(load_base, seg, i)),
        slides(page_places(load_base, seg, i), slide),
        clear_of(page_places(load_base, seg, i), info, info + 22 + 2 * seg.pages.len()),
    ensures
        fixup::pages_applied(m, load_base, slide, starts_of(info, seg), i) == (Applied {
            mem: written(m, page_places(load_base, seg, i), slide),
            stop: None,
        }),
    decreases seg.pages.len() - i,
{
    if i < seg.pages.len() {
        let places = page_places(load_base, seg, i);
        let tail = page_places(load_base, seg, i + 1);
        assert(m.get16(info + 22 + i * 2) is Some);
        assert(m.covers(info + 22 + i * 2, 2));
        match seg.pages[i] {
            None => {
                assert(places =~= tail);
                lemma_pages(m, load_base, slide, info, seg, i + 1);
            },
            Some(p) => {
                let at = page_start(load_base, seg, i);
                let here = chain_places(at, p.chain);
                assert(places == here + tail);
                lemma_split(m, here, tail, slide);
                lemma_clear_split(here, tail, info, info + 22 + 2 * seg.pages.len());
                lemma_chain(m, at, p.chain, slide);
                lemma_written_concat(m, here, tail, slide);
                let n = written(m, here, slide);
                lemma_record_stays(m, here, slide, info, seg);
                lemma_pages(n, load_base, slide, info, seg, i + 1);
            },
        }
    }
}

proof fn lemma_segments(
    m: Memory,
    load_base: int,
    slide: int,
    starts: int,
    segs: Seq<Option<SegmentFixups>>,
    s: int,
)
    requires
        in_space(m),
        0 <= s <= segs.len(),
        forall|k: int|
            0 <= k < segs.len() && (#[trigger] segs[k]) is Some ==> segment_ok(segs[k]->0),
        tables_held(m, starts, segs),
        places_apart(image_places(load_base, segs, s)),
        slots_held(m, image_places(load_base, segs, s)),
        slides(image_places(load_base, segs, s), slide),
        clear_of_tables(image_places(load_base, segs, s), starts, segs),
    ensures
        fixup::segments_applied(m, load_base, slide, starts, s, segs.len() as int) == (Applied {
            mem: written(m, image_places(load_base, segs, s), slide),
            stop: None,
        }),
    decreases segs.len() - s,
{
    if s < segs.len() {
        let places = image_places(load_base, segs, s);
        let tail = image_places(load_base, segs, s + 1);
        assert(m.get32(starts + 4 + s * 4) is Some);
        assert(m.covers(starts + 4 + s * 4, 4));
        let here: Seq<Place> = match segs[s] {
            Some(seg) => if seg.format == 12 {
                page_places(load_base, seg, 0)
            } else {
                Seq::empty()
            },
            None => Seq::empty(),
        };
        assert(places == here + tail);
        lemma_split(m, here, tail, slide);
        lemma_clear_split(here, tail, starts, starts + 4 + 4 * segs.len());
        assert forall|k: int| 0 <= k < segs.len() && (#[trigger] segs[k]) is Some implies clear_of(
            here,
            starts + (segs[k]->0).record,
            starts + (segs[k]->0).record + 22 + 2 * (segs[k]->0).pages.len(),
        ) && clear_of(
            tail,
            starts + (segs[k]->0).record,
            starts + (segs[k]->0).record + 22 + 2 * (segs[k]->0).pages.len(),
        ) by {
            lemma_clear_split(
                here,
                tail,
                starts + (segs[k]->0).record,
                starts + (segs[k]->0).record + 22 + 2 * (segs[k]->0).pages.len(),
            );
        }
        assert(clear_of_tables(here, starts, segs));
        assert(clear_of_tables(tail, starts, segs));
        lemma_written_concat(m, here, tail, slide);
        lemma_tables_stay(m, here, slide, starts, segs);
        let n = written(m, here, slide);
        assert(fixup::segment_applied(m, load_base, slide, starts, s) == (Applied {
            mem: n,
            stop: None,
        })) by {
            if let Some(seg) = segs[s] {
                let info = starts + seg.record;
                assert(record_held(m, info, seg));
                assert(m.covers(info + 4, 2) && m.covers(info + 6, 2) && m.covers(info + 8, 8)
                    && m.covers(info + 20, 2));
                if seg.format == 12 {
                    lemma_pages(m, load_base, slide, info, seg, 0);
                    assert(fixup::segment_starts(m, info) == Ok::<
                        Option<SegmentStarts>,
                        mem::Stop,
                    >(Some(starts_of(info, seg))));
                }
            }
        }
        lemma_segments(n, load_base, slide, starts, segs, s + 1);
    }
}

proof fn lemma_page_in_places(load_base: int, seg: SegmentFixups, from: int, i: int)
    requires
        segment_ok(seg),
        0 <= from <= i < seg.pages.len(),
        seg.pages[i] is Some,
    ensures
        page_places(load_base, seg, from).contains(
            Place {
                addr: page_start(load_base, seg, i),
                slot: (seg.pages[i]->0).chain[0],
            },
        ),
    decreases i - from,
{
    let all = page_places(load_base, seg, from);
    let want = Place { addr: page_start(load_base, seg, i), slot: (seg.pages[i]->0).chain[0] };
    if from == i {
        let chain = (seg.pages[i]->0).chain;
        assert(chain_places(want.addr, chain)[0] == want);
        assert(all[0] == want);
    } else {
        lemma_page_in_places(load_base, seg, from + 1, i);
        let tail = page_places(load_base, seg, from + 1);
        let k = choose|k: int| 0 <= k < tail.len() && tail[k] == want;
        assert(all[all.len() - tail.len() + k] == want);
    }
}

proof fn lemma_page_in_image(
    load_base: int,
    segs: Seq<Option<SegmentFixups>>,
    from: int,
    s: int,
    i: int,
)
    requires
        0 <= from <= s < segs.len(),
        segs[s] is Some,
        segment_ok(segs[s]->0),
        (segs[s]->0).format == 12,
        0 <= i < (segs[s]->0).pages.len(),
        (segs[s]->0).pages[i] is Some,
    ensures
        image_places(load_base, segs, from).contains(
            Place {
                addr: page_start(load_base, segs[s]->0, i),
                slot: ((segs[s]->0).pages[i]->0).chain[0],
            },
        ),
    decreases s - from,
{
    let seg = segs[s]->0;
    let all = image_places(load_base, segs, from);
    let want = Place { addr: page_start(load_base, seg, i), slot: (seg.pages[i]->0).chain[0] };
    let tail = image_places(load_base, segs, from + 1);
    if from == s {
        lemma_page_in_places(load_base, seg, 0, i);
        let here = page_places(load_base, seg, 0);
        let k = choose|k: int| 0 <= k < here.len() && here[k] == want;
        assert(all[k] == want);
    } else {
        lemma_page_in_image(load_base, segs, from + 1, s, i);
        let k = choose|k: int| 0 <= k < tail.len() && tail[k] == want;
        assert(all[all.len() - tail.len() + k] == want);
    }
}

/// Rebasing an image changes its slots and nothing else. The chain of page `i`
/// of a segment starts at the load address, plus the segment's offset, plus `i`
/// times the page size, plus the page's start; from there each slot is as many
/// times 8 bytes on as the one before it says. Afterwards each pointer holds its
/// target moved by the slide, each import what it held before, and every byte
/// outside of the slots is as it was. The slots must lie in memory and overlap
/// neither each other nor the tables.
pub proof fn law_slots_are_rebased(
    m: Memory,
    load_base: int,
    slide: int,
    foff: int,
    starts_offset: int,
    segs: Seq<Option<SegmentFixups>>,
)
    requires
        in_space(m),
        forall|s: int|
            0 <= s < segs.len() && (#[trigger] segs[s]) is Some ==> segment_ok(segs[s]->0),
        m.get32(load_base + foff + 4) == Some(starts_offset),
        tables_held(m, load_base + foff + starts_offset, segs),
        slots_held(m, image_places(load_base, segs, 0)),
        slides(image_places(load_base, segs, 0), slide),
        places_apart(image_places(load_base, segs, 0)),
        clear_of_tables(
            image_places(load_base, segs, 0),
            load_base + foff + starts_offset,
            segs,
        ),
    ensures
        ({
            let a = fixup::image_applied(m, load_base, slide, foff);
            let places = image_places(load_base, segs, 0);
            &&& a.stop is None
            &&& a.mem.base == m.base
            &&& a.mem.bytes.len() == m.bytes.len()
            &&& forall|k: int|
                0 <= k < places.len() ==> a.mem.get64((#[trigger] places[k]).addr) == Some(
                    slot_after(places[k].slot, slide),
                )
            &&& forall|x: int| !in_slots(places, x) ==> #[trigger] a.mem.get8(x) == m.get8(x)
            &&& forall|s: int, i: int|
                #![trigger (segs[s]->0).pages[i]]
                0 <= s < segs.len() && segs[s] is Some && (segs[s]->0).format == 12 && 0 <= i
                    < (segs[s]->0).pages.len() && (segs[s]->0).pages[i] is Some ==> a.mem.get64(
                    load_base + (segs[s]->0).offset + i * (segs[s]->0).page_size + (
                    (segs[s]->0).pages[i]->0).start,
                ) == Some(slot_after(((segs[s]->0).pages[i]->0).chain[0], slide))
        }),
{
    let places = image_places(load_base, segs, 0);
    let starts = load_base + foff + starts_offset;
    assert(m.covers(load_base + foff + 4, 4));
    assert(m.covers(starts, 4));
    lemma_segments(m, load_base, slide, starts, segs, 0);
    assert(places =~= places + Seq::<Place>::empty());
    lemma_split(m, places, Seq::empty(), slide);
    lemma_written(m, places, slide);
    let a = fixup::image_applied(m, load_base, slide, foff);
    assert(a.mem == written(m, places, slide));
    assert forall|s: int, i: int|
        #![trigger (segs[s]->0).pages[i]]
        0 <= s < segs.len() && segs[s] is Some && (segs[s]->0).format == 12 && 0 <= i < (
        segs[s]->0).pages.len() && (segs[s]->0).pages[i] is Some implies a.mem.get64(
        load_base + (segs[s]->0).offset + i * (segs[s]->0).page_size + (
        (segs[s]->0).pages[i]->0).start,
    ) == Some(slot_after(((segs[s]->0).pages[i]->0).chain[0], slide)) by {
        assert(segment_ok(segs[s]->0));
        lemma_page_in_image(load_base, segs, 0, s, i);
        let want = Place {
            addr: page_start(load_base, segs[s]->0, i),
            slot: ((segs[s]->0).pages[i]->0).chain[0],
        };
        let k = choose|k: int| 0 <= k < places.len() && places[k] == want;
        assert(places[k].addr == want.addr);
    }
}

/// The fixups are where the first command for them says, if that command is long
/// enough; later ones do not count.
pub proof fn law_first_fixups_command_counts(cmds: Seq<Seq<u8>>, i: int)
    requires
        0 <= i < cmds.len(),
        cmds[i].len() >= 4,
        bytes::le32(cmds[i], 0) == 0x8000_0034,
        forall|j: int|
            0 <= j < i ==> (#[trigger] cmds[j]).len() < 4 || bytes::le32(cmds[j], 0) != 0x8000_0034,
    ensures
        cmds[i].len() >= 16 ==> fixup::fixups_offset(cmds) == Some(bytes::le32(cmds[i], 8)),
        cmds[i].len() < 16 ==> fixup::fixups_offset(cmds) is None,
    decreases cmds.len(),
{
    if i > 0 {
        let d = cmds.drop_first();
        assert(cmds[0].len() < 4 || bytes::le32(cmds[0], 0) != 0x8000_0034);
        assert(d[i - 1] == cmds[i]);
        assert forall|j: int| 0 <= j < i - 1 implies (#[trigger] d[j]).len() < 4 || bytes::le32(
            d[j],
            0,
        ) != 0x8000_0034 by {
            assert(d[j] == cmds[j + 1]);
        }
        law_first_fixups_command_counts(d, i - 1);
    }
}

/// An image without a command for fixups has none.
pub proof fn law_no_fixups_command(cmds: Seq<Seq<u8>>)
    requires
        forall|j: int|
            0 <= j < cmds.len() ==> (#[trigger] cmds[j]).len() < 4 || bytes::le32(cmds[j], 0)
                != 0x8000_0034,
    ensures
        fixup::fixups_offset(cmds) is None,
    decreases cmds.len(),
{
    if cmds.len() > 0 {
        let d = cmds.drop_first();
        assert(cmds[0].len() < 4 || bytes::le32(cmds[0], 0) != 0x8000_0034);
        assert forall|j: int| 0 <= j < d.len() implies (#[trigger] d[j]).len() < 4 || bytes::le32(
            d[j],
            0,
        ) != 0x8000_0034 by {
            assert(d[j] == cmds[j + 1]);
        }
        law_no_fixups_command(d);
    }
}

/// A table or a slot outside of memory stops the rebasing at its address.
pub proof fn law_missing_memory_stops(
    m: Memory,
    load_base: int,
    slide: int,
    foff: int,
    starts_offset: int,
    segs: Seq<Option<SegmentFixups>>,
)
    requires
        in_space(m),
        0 <= load_base,
        0 <= foff,
        load_base + foff + 4 <= u64::MAX,
    ensures
        ({
            let a = fixup::image_applied(m, load_base, slide, foff);
            &&& !m.covers(load_base + foff + 4, 4) ==> a.mem == m && a.stop == Some(
                mem::Stop::Fault((load_base + foff + 4) as u64),
            )
            &&& m.get32(load_base + foff + 4) == Some(starts_offset) && tables_held(
                m,
                load_base + foff + starts_offset,
                segs,
            ) && segs.len() > 0 && segs[0] is Some && (segs[0]->0).record > 0 && (
            segs[0]->0).format == 12 && (segs[0]->0).pages.len() > 0 && (
            segs[0]->0).pages[0] is Some && ((segs[0]->0).pages[0]->0).start != 0xffff && {
                let at = page_start(load_base, segs[0]->0, 0);
                0 <= at <= u64::MAX && !m.covers(at, 8)
            } ==> a.mem == m && a.stop == Some(
                mem::Stop::Fault(page_start(load_base, segs[0]->0, 0) as u64),
            )
        }),
{
    if m.get32(load_base + foff + 4) == Some(starts_offset) && tables_held(
        m,
        load_base + foff + starts_offset,
        segs,
    ) && segs.len() > 0 && segs[0] is Some && (segs[0]->0).record > 0 && (segs[0]->0).format == 12
        && (segs[0]->0).pages.len() > 0 && (segs[0]->0).pages[0] is Some {
        let starts = load_base + foff + starts_offset;
        let seg = segs[0]->0;
        let info = starts + seg.record;
        assert(m.get32(starts + 4 + 0 * 4) == Some(seg.record));
        assert(record_held(m, info, seg));
        assert(m.get16(info + 22 + 0 * 2) is Some);
        assert(m.covers(starts, 4));
        assert(m.covers(info + 4, 2) && m.covers(info + 6, 2) && m.covers(info + 8, 8) && m.covers(
            info + 20,
            2,
        ));
        assert(fixup::segment_starts(m, info) == Ok::<Option<SegmentStarts>, mem::Stop>(
            Some(starts_of(info, seg)),
        ));
    }
}

} // verus!
