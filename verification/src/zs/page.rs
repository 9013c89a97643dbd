//! One page of slots.

use crate::bits;
use crate::bytes;
use crate::zs::class;
use crate::zs::class::{NUM_CLASSES, PAGE_SIZE, SLOT_HEADER};
use crate::zs::lz4;
use vstd::prelude::*;

verus! {

/// Why a slot could not be read.
#[derive(Debug, Clone, Copy, PartialEq, Eq, Structural)]
pub enum SlotError {
    InvalidSlot,
    SlotFree,
    BufferTooSmall { need: usize },
    DecompressFailed,
}

/// One 4 KiB page of slot storage.
///
/// Slots are packed end to end from offset 0. Each begins with a header of the
/// original and the stored length, 16 bits each, little endian; the payload
/// follows. Bit `n` of the bitmap is set while slot `n` is free.
pub struct ZsPage {
    /// The backing storage, `PAGE_SIZE` bytes.
    pub data: Vec<u8>,
    /// Bit `n` is set while slot `n` is free.
    pub free_bitmap: u128,
    /// The size class whose slots this page holds.
    pub class_idx: usize,
}

impl ZsPage {
    /// How many slots the page has.
    pub open spec fn slots(self) -> int {
        class::slots_per_page(self.class_idx as int)
    }

    /// Where slot `s` starts.
    pub open spec fn offset(self, s: int) -> int {
        s * class::slot_size(self.class_idx as int)
    }

    /// Whether slot `s` exists and is free.
    pub open spec fn free(self, s: int) -> bool {
        0 <= s < self.slots() && bits::bit128(self.free_bitmap, s)
    }

    /// Whether slot `s` exists and holds an object.
    pub open spec fn live(self, s: int) -> bool {
        0 <= s < self.slots() && !bits::bit128(self.free_bitmap, s)
    }

    /// Whether no slot is free.
    pub open spec fn full(self) -> bool {
        forall|s: int| 0 <= s < self.slots() ==> self.live(s)
    }

    /// The uncompressed length recorded in slot `s`.
    pub open spec fn original_len(self, s: int) -> int {
        bytes::le16(self.data@, self.offset(s))
    }

    /// The payload length recorded in slot `s`.
    pub open spec fn stored_len(self, s: int) -> int {
        bytes::le16(self.data@, self.offset(s) + 2)
    }

    /// The payload of slot `s`.
    pub open spec fn payload(self, s: int) -> Seq<u8> {
        self.data@.subrange(
            self.offset(s) + SLOT_HEADER,
            self.offset(s) + SLOT_HEADER + self.stored_len(s),
        )
    }

    /// The object in slot `s`: the payload itself where both lengths agree, what
    /// it decompresses to otherwise.
    pub open spec fn object(self, s: int) -> Option<Seq<u8>> {
        object_of(self.original_len(s), self.payload(s))
    }

    /// The page's invariant: the storage has page size, no bit past the last
    /// slot is set, and every payload lies inside its slot.
    pub open spec fn wf(self) -> bool {
        &&& self.class_idx < NUM_CLASSES
        &&& self.data@.len() == PAGE_SIZE
        &&& forall|b: int| self.slots() <= b < 128 ==> !bits::bit128(self.free_bitmap, b)
        &&& forall|s: int| #[trigger]
            self.live(s) ==> self.stored_len(s) <= class::max_payload(self.class_idx as int)
    }

    /// Every object can be read back, at the length recorded for it.
    pub open spec fn sound(self) -> bool {
        forall|s: int| #[trigger]
            self.live(s) ==> self.object(s) is Some && self.object(s)->0.len()
                == self.original_len(s)
    }

    /// Slot `s` holds the same header and payload in `other`.
    pub open spec fn same_slot(self, other: ZsPage, s: int) -> bool {
        &&& self.original_len(s) == other.original_len(s)
        &&& self.stored_len(s) == other.stored_len(s)
        &&& self.payload(s) == other.payload(s)
    }
}

/// The object that a payload stands for, given its uncompressed length.
pub open spec fn object_of(original_len: int, payload: Seq<u8>) -> Option<Seq<u8>> {
    if payload.len() == original_len {
        Some(payload)
    } else {
        lz4::lz4_decoded(payload, original_len as nat)
    }
}

/// A slot keeps its header and payload when no byte of it changes.
proof fn lemma_slot_unchanged(p: ZsPage, q: ZsPage, s: int)
    requires
        p.class_idx == q.class_idx,
        p.class_idx < NUM_CLASSES,
        p.data@.len() == PAGE_SIZE,
        q.data@.len() == PAGE_SIZE,
        0 <= s < p.slots(),
        forall|i: int|
            p.offset(s) <= i < p.offset(s) + class::slot_size(p.class_idx as int) ==> p.data@[i]
                == q.data@[i],
        p.stored_len(s) <= class::max_payload(p.class_idx as int),
    ensures
        p.same_slot(q, s),
{
    class::lemma_slots_tile_page(p.class_idx as int, s);
    assert(p.payload(s) =~= q.payload(s));
}

/// The bitmap in which the low `slots` bits are set.
pub fn full_mask(slots: usize) -> (m: u128)
    requires
        1 <= slots <= 128,
    ensures
        forall|b: int| 0 <= b < 128 ==> (bits::bit128(m, b) <==> b < slots),
{
    if slots == 128 {
        let m: u128 = u128::MAX;
        assert forall|b: int| 0 <= b < 128 implies bits::bit128(m, b) by {
            let k = b as u32;
            assert((0xffff_ffff_ffff_ffff_ffff_ffff_ffff_ffffu128 >> k) & 1 == 1) by (bit_vector)
                requires
                    k < 128,
            ;
        }
        m
    } else {
        let n: u32 = slots as u32;
        assert(1u128 << n >= 1) by (bit_vector)
            requires
                n < 128,
        ;
        let m: u128 = (1u128 << n) - 1;
        assert forall|b: int| 0 <= b < 128 implies (bits::bit128(m, b) <==> b < slots) by {
            let k = b as u32;
            assert(((((1u128 << n) - 1) as u128) >> k) & 1 == 1 <==> k < n) by (bit_vector)
                requires
                    k < 128,
                    n < 128,
            ;
        }
        m
    }
}

impl ZsPage {
    /// An empty page for class `class_idx`.
    pub fn new(class_idx: usize) -> (r: ZsPage)
        requires
            class_idx < NUM_CLASSES,
        ensures
            r.wf(),
            r.class_idx == class_idx,
            r.data@ == bytes::zeros(PAGE_SIZE as nat),
            forall|s: int| 0 <= s < r.slots() ==> r.free(s),
    {
        proof {
            class::lemma_slots_tile_page(class_idx as int, 0);
        }
        let slots: usize = class::size_class(class_idx).slots_per_page;
        ZsPage {
            data: bytes::zeroed(PAGE_SIZE),
            free_bitmap: full_mask(slots),
            class_idx,
        }
    }

    /// Whether the page has no free slot.
    pub fn is_full(&self) -> (r: bool)
        requires
            self.wf(),
        ensures
            r == self.full(),
    {
        proof {
            class::lemma_slots_tile_page(self.class_idx as int, 0);
            bits::lemma_zero128(self.free_bitmap);
            if self.free_bitmap != 0 {
                let b = choose|b: int| 0 <= b < 128 && bits::bit128(self.free_bitmap, b);
                assert(!self.live(b) && b < self.slots());
            }
        }
        self.free_bitmap == 0
    }

    /// Writes `payload` into the lowest free slot, together with
    /// `original_len`. Gives the slot's index; `None`, with nothing changed, if
    /// the page is full or the payload does not fit in a slot.
    pub fn alloc_slot(&mut self, original_len: u16, payload: &[u8]) -> (r: Option<usize>)
        requires
            old(self).wf(),
        ensures
            final(self).wf(),
            r is Some <==> !old(self).full() && payload@.len() <= class::max_payload(
                old(self).class_idx as int,
            ),
            r is None ==> *final(self) == *old(self),
            r matches Some(s) ==> {
                &&& old(self).free(s as int)
                &&& forall|t: int| 0 <= t < s ==> old(self).live(t)
                &&& final(self).class_idx == old(self).class_idx
                &&& final(self).live(s as int)
                &&& final(self).original_len(s as int) == original_len
                &&& final(self).payload(s as int) == payload@
                &&& final(self).data@ == bytes::splice(
                    old(self).data@,
                    old(self).offset(s as int),
                    bytes::le16_bytes(original_len) + bytes::le16_bytes(payload@.len() as u16)
                        + payload@,
                )
                &&& forall|i: int|
                    0 <= i < PAGE_SIZE && !(old(self).offset(s as int) <= i < old(self).offset(
                        s as int,
                    ) + class::slot_size(old(self).class_idx as int)) ==> (
                    #[trigger] final(self).data@[i]) == old(self).data@[i]
                &&& forall|t: int| t != s ==> final(self).live(t) == old(self).live(t)
                &&& forall|t: int| #[trigger]
                    old(self).live(t) ==> old(self).same_slot(*final(self), t)
            },
    {
        let sc = class::size_class(self.class_idx);
        proof {
            class::lemma_slots_tile_page(self.class_idx as int, 0);
        }
        if payload.len() > sc.max_payload {
            return None;
        }
        let slot32: u32 = bits::lowest_set128(self.free_bitmap);
        let slot: usize = slot32 as usize;
        if slot >= sc.slots_per_page {
            assert(forall|s: int| 0 <= s < self.slots() ==> self.live(s));
            return None;
        }
        assert(!self.live(slot as int));
        proof {
            class::lemma_slots_tile_page(self.class_idx as int, slot as int);
            assert forall|t: int| 0 <= t < 128 implies bits::bit128(
                self.free_bitmap & !(1u128 << slot32),
                t,
            ) == (t != slot && bits::bit128(self.free_bitmap, t)) by {
                bits::lemma_mask128(self.free_bitmap, slot32, t as u32);
            }
        }
        self.free_bitmap = self.free_bitmap & !(1u128 << slot32);
        let off: usize = slot * sc.slot_size;
        let stored_len: u16 = payload.len() as u16;
        let mut header: Vec<u8> = Vec::new();
        bytes::push_le16(&mut header, original_len);
        bytes::push_le16(&mut header, stored_len);
        bytes::write_at(&mut self.data, off, &header);
        bytes::write_at(&mut self.data, off + SLOT_HEADER, payload);
        proof {
            let n = *self;
            let o = *old(self);
            assert forall|b: int| n.slots() <= b < 128 implies !bits::bit128(
                n.free_bitmap,
                b,
            ) by {
                assert(!bits::bit128(o.free_bitmap, b));
            }
            bytes::lemma_le16_roundtrip(original_len);
            bytes::lemma_le16_roundtrip(stored_len);
            bytes::lemma_le_window(n.data@, off as int, bytes::le16_bytes(original_len), 0, 2);
            bytes::lemma_le_window(n.data@, off as int + 2, bytes::le16_bytes(stored_len), 0, 2);
            assert(n.payload(slot as int) =~= payload@);
            assert(n.data@ =~= bytes::splice(
                o.data@,
                off as int,
                bytes::le16_bytes(original_len) + bytes::le16_bytes(stored_len) + payload@,
            ));
            assert forall|t: int| #[trigger] o.live(t) implies o.same_slot(n, t) by {
                class::lemma_slots_tile_page(o.class_idx as int, t);
                class::lemma_slots_disjoint(o.class_idx as int, t, slot as int);
                lemma_slot_unchanged(o, n, t);
            }
            assert forall|t: int| #[trigger] n.live(t) implies n.stored_len(t)
                <= class::max_payload(n.class_idx as int) by {
                if t != slot {
                    assert(o.live(t));
                    assert(o.same_slot(n, t));
                }
            }
        }
        Some(slot)
    }

    /// The uncompressed length of the object in slot `slot_idx`; `None` if the
    /// slot is free or does not exist.
    pub fn slot_original_len(&self, slot_idx: usize) -> (r: Option<usize>)
        requires
            self.wf(),
        ensures
            match r {
                Some(n) => self.live(slot_idx as int) && n == self.original_len(slot_idx as int),
                None => !self.live(slot_idx as int),
            },
    {
        let sc = class::size_class(self.class_idx);
        proof {
            class::lemma_slots_tile_page(self.class_idx as int, slot_idx as int);
        }
        if slot_idx >= sc.slots_per_page {
            return None;
        }
        proof {
            bits::lemma_mask128(self.free_bitmap, slot_idx as u32, 0);
        }
        if self.free_bitmap & (1u128 << (slot_idx as u32)) != 0 {
            return None;
        }
        let off: usize = slot_idx * sc.slot_size;
        Some(bytes::read_le16(&self.data, off) as usize)
    }

    /// Copies or decompresses the object in slot `slot_idx` to the start of
    /// `out` and gives its length.
    pub fn read_slot(&self, slot_idx: usize, out: &mut [u8]) -> (r: Result<usize, SlotError>)
        requires
            self.wf(),
        ensures
            final(out)@.len() == old(out)@.len(),
            ({
                let s = slot_idx as int;
                match r {
                    Err(SlotError::InvalidSlot) => slot_idx >= self.slots() && final(out)@ == old(
                        out,
                    )@,
                    Err(SlotError::SlotFree) => self.free(s) && final(out)@ == old(out)@,
                    Err(SlotError::BufferTooSmall { need }) => self.live(s) && old(out)@.len()
                        < self.original_len(s) && need == self.original_len(s) && final(out)@
                        == old(out)@,
                    Err(SlotError::DecompressFailed) => self.live(s) && old(out)@.len()
                        >= self.original_len(s) && self.object(s) is None,
                    Ok(n) => {
                        &&& self.live(s)
                        &&& old(out)@.len() >= self.original_len(s)
                        &&& self.object(s) is Some
                        &&& n == self.object(s)->0.len()
                        &&& n <= self.original_len(s)
                        &&& final(out)@.take(n as int) == self.object(s)->0
                        &&& final(out)@.skip(self.original_len(s)) == old(out)@.skip(
                            self.original_len(s),
                        )
                    },
                }
            }),
    {
        let sc = class::size_class(self.class_idx);
        proof {
            class::lemma_slots_tile_page(self.class_idx as int, slot_idx as int);
        }
        if slot_idx >= sc.slots_per_page {
            return Err(SlotError::InvalidSlot);
        }
        proof {
            bits::lemma_mask128(self.free_bitmap, slot_idx as u32, 0);
        }
        if self.free_bitmap & (1u128 << (slot_idx as u32)) != 0 {
            return Err(SlotError::SlotFree);
        }
        assert(self.live(slot_idx as int));
        let off: usize = slot_idx * sc.slot_size;
        let original_len: usize = bytes::read_le16(&self.data, off) as usize;
        let stored_len: usize = bytes::read_le16(&self.data, off + 2) as usize;
        if out.len() < original_len {
            return Err(SlotError::BufferTooSmall { need: original_len });
        }
        let payload = &self.data[off + SLOT_HEADER..off + SLOT_HEADER + stored_len];
        if stored_len == original_len {
            bytes::write_slice_at(out, 0, payload);
            proof {
                assert(final(out)@.take(original_len as int) =~= payload@);
                assert(final(out)@.skip(original_len as int) =~= old(out)@.skip(
                    original_len as int,
                ));
            }
            Ok(original_len)
        } else {
            let (head, _rest) = out.split_at_mut(original_len);
            match lz4::decompress_into(payload, head) {
                Ok(n) => {
                    Ok(n)
                },
                Err(_) => Err(SlotError::DecompressFailed),
            }
        }
    }

    /// Marks slot `slot_idx` as free; `false`, with nothing changed, if it was
    /// free already or does not exist.
    pub fn free_slot(&mut self, slot_idx: usize) -> (r: bool)
        requires
            old(self).wf(),
        ensures
            final(self).wf(),
            r == old(self).live(slot_idx as int),
            !r ==> *final(self) == *old(self),
            r ==> {
                &&& final(self).class_idx == old(self).class_idx
                &&& final(self).data@ == old(self).data@
                &&& final(self).free(slot_idx as int)
                &&& forall|t: int|
                    t != slot_idx ==> final(self).live(t) == old(self).live(t)
            },
    {
        let sc = class::size_class(self.class_idx);
        proof {
            class::lemma_slots_tile_page(self.class_idx as int, slot_idx as int);
        }
        if slot_idx >= sc.slots_per_page {
            return false;
        }
        let bit: u32 = slot_idx as u32;
        proof {
            assert forall|t: int| 0 <= t < 128 implies bits::bit128(
                self.free_bitmap | (1u128 << bit),
                t,
            ) == (t == slot_idx || bits::bit128(self.free_bitmap, t)) by {
                bits::lemma_mask128(self.free_bitmap, bit, t as u32);
            }
            bits::lemma_mask128(self.free_bitmap, bit, 0);
        }
        if self.free_bitmap & (1u128 << bit) != 0 {
            return false;
        }
        self.free_bitmap = self.free_bitmap | (1u128 << bit);
        proof {
            assert forall|b: int| self.slots() <= b < 128 implies !bits::bit128(
                self.free_bitmap,
                b,
            ) by {
                assert(!bits::bit128(old(self).free_bitmap, b));
            }
            assert forall|t: int| #[trigger] self.live(t) implies self.stored_len(t)
                <= class::max_payload(self.class_idx as int) by {
                assert(old(self).live(t));
            }
        }
        true
    }
}

} // verus!
