//! The object store.

use crate::zs::class;
use crate::zs::class::{NUM_CLASSES, PAGE_SIZE};
use crate::zs::lz4;
use crate::zs::page;
use crate::zs::page::{SlotError, ZsPage};
use vstd::prelude::*;

verus! {

/// The largest uncompressed object that the store accepts.
pub const MAX_OBJECT_SIZE: usize = 4092;

/// How many pages a handle can tell apart.
pub const MAX_PAGES: u64 = 0x1_0000_0000;

/// An opaque handle to a stored object, valid only for the store that produced
/// it.
///
/// Bits 47 to 16 hold the page index, bits 15 to 8 the class index and bits 7
/// to 0 the slot index; the bits above are zero.
#[derive(Clone, Copy, PartialEq, Eq, Debug, Structural)]
pub struct Handle(pub u64);

impl Handle {
    /// The page index.
    pub open spec fn page(self) -> int {
        self.0 as int / 0x1_0000 % 0x1_0000_0000
    }

    /// The class index.
    pub open spec fn class(self) -> int {
        self.0 as int / 0x100 % 0x100
    }

    /// The slot index.
    pub open spec fn slot(self) -> int {
        self.0 as int % 0x100
    }

    /// What the handle names: a slot of a page.
    pub open spec fn key(self) -> (int, int) {
        (self.page(), self.slot())
    }

    /// The handle of slot `slot_idx` in page `page_idx` of class `class_idx`.
    pub fn encode(page_idx: u32, class_idx: u8, slot_idx: u8) -> (r: Handle)
        ensures
            r.page() == page_idx,
            r.class() == class_idx,
            r.slot() == slot_idx,
            r.0 < 0x1_0000_0000_0000,
    {
        let p: u64 = page_idx as u64;
        let c: u64 = class_idx as u64;
        let s: u64 = slot_idx as u64;
        assert((p << 16u32) | (c << 8u32) | s == p * 0x1_0000 + c * 0x100 + s) by (bit_vector)
            requires
                p <= 0xffff_ffff,
                c <= 0xff,
                s <= 0xff,
        ;
        Handle((p << 16u32) | (c << 8u32) | s)
    }

    /// The page, class and slot index that the handle holds.
    pub fn decode(self) -> (r: (u32, usize, usize))
        ensures
            r.0 == self.page(),
            r.1 == self.class(),
            r.2 == self.slot(),
    {
        let h: u64 = self.0;
        assert((h >> 16u32) as u32 == (h / 0x1_0000) % 0x1_0000_0000 && ((h >> 8u32) & 0xFF) == (h
            / 0x100) % 0x100 && h & 0xFF == h % 0x100) by (bit_vector);
        ((h >> 16u32) as u32, ((h >> 8u32) & 0xFF) as usize, (h & 0xFF) as usize)
    }
}

/// Figures about a store.
#[derive(Clone, Copy, Debug)]
pub struct Stats {
    /// How many objects are live.
    pub objects_stored: u64,
    /// The uncompressed bytes of all live objects.
    pub original_bytes: u64,
    /// The payload bytes ever written to pages.
    pub stored_bytes: u64,
    /// The pages allocated; pages are never given back.
    pub pages_allocated: usize,
}

impl Default for Stats {
    fn default() -> (r: Self)
        ensures
            r.objects_stored == 0,
            r.original_bytes == 0,
            r.stored_bytes == 0,
            r.pages_allocated == 0,
    {
        Stats { objects_stored: 0, original_bytes: 0, stored_bytes: 0, pages_allocated: 0 }
    }
}

impl Stats {
    /// Stored bytes per 100 original bytes, rounded down; 100 when there are no
    /// original bytes.
    #[must_use]
    pub fn compression_percent(&self) -> (r: u64)
        requires
            100 * self.stored_bytes <= u64::MAX,
        ensures
            self.original_bytes == 0 ==> r == 100,
            self.original_bytes > 0 ==> r == 100 * self.stored_bytes / (self.original_bytes as int),
    {
        if self.original_bytes == 0 {
            100
        } else {
            100 * self.stored_bytes / self.original_bytes
        }
    }

    /// The bytes of memory behind all pages.
    #[must_use]
    pub fn backing_bytes(&self) -> (r: usize)
        requires
            self.pages_allocated * PAGE_SIZE <= usize::MAX,
        ensures
            r == self.pages_allocated * PAGE_SIZE,
    {
        self.pages_allocated * PAGE_SIZE
    }
}

/// Why an object could not be stored.
#[derive(Debug, Clone, Copy, PartialEq, Eq, Structural)]
pub enum StoreError {
    /// The object is longer than `MAX_OBJECT_SIZE`.
    ObjectTooLarge,
    /// The page index would not fit in 32 bits.
    TooManyPages,
}

/// Why an object could not be loaded or freed.
#[derive(Debug, Clone, Copy, PartialEq, Eq, Structural)]
pub enum LoadError {
    /// The handle names a page that does not exist.
    InvalidPage,
    /// The handle names a slot that is not allocated.
    InvalidSlot,
    /// The output buffer is shorter than the object.
    BufferTooSmall {
        /// How many bytes are needed.
        need: usize,
    },
    /// The payload could not be decompressed.
    DecompressFailed,
}

/// The error that a slot error comes out as.
pub open spec fn load_error(e: SlotError) -> LoadError {
    match e {
        SlotError::InvalidSlot | SlotError::SlotFree => LoadError::InvalidSlot,
        SlotError::BufferTooSmall { need } => LoadError::BufferTooSmall { need },
        SlotError::DecompressFailed => LoadError::DecompressFailed,
    }
}

impl From<SlotError> for LoadError {
    fn from(e: SlotError) -> (r: LoadError) {
        match e {
            SlotError::InvalidSlot | SlotError::SlotFree => LoadError::InvalidSlot,
            SlotError::BufferTooSmall { need } => LoadError::BufferTooSmall { need },
            SlotError::DecompressFailed => LoadError::DecompressFailed,
        }
    }
}

impl vstd::std_specs::convert::FromSpecImpl<SlotError> for LoadError {
    open spec fn obeys_from_spec() -> bool {
        true
    }

    open spec fn from_spec(e: SlotError) -> LoadError {
        load_error(e)
    }
}

/// The pages of one size class that have a free slot.
pub struct ClassState {
    /// Page indices, in the order in which the pages became available.
    pub partial: Vec<usize>,
}

impl ClassState {
    /// A class without pages.
    pub fn new() -> (r: ClassState)
        ensures
            r.partial@ == Seq::<usize>::empty(),
    {
        ClassState { partial: Vec::new() }
    }
}

/// A store of objects of up to `MAX_OBJECT_SIZE` bytes, compressed where that
/// makes them smaller and packed into size-class slots.
pub struct ZsStore {
    /// All pages ever allocated.
    pub pages: Vec<ZsPage>,
    /// The pages with free slots, by class.
    pub classes: Vec<ClassState>,
    /// The figures kept along.
    pub stats: Stats,
}

/// What slot `s` of page `p` counts for: its object's length, or one.
pub open spec fn slot_weight(p: ZsPage, s: int, by_bytes: bool) -> int {
    if !p.live(s) {
        0
    } else if by_bytes {
        p.original_len(s)
    } else {
        1
    }
}

/// The weight of the first `n` slots of page `p`.
pub open spec fn page_weight(p: ZsPage, n: int, by_bytes: bool) -> int
    decreases n,
{
    if n <= 0 {
        0
    } else {
        page_weight(p, n - 1, by_bytes) + slot_weight(p, n - 1, by_bytes)
    }
}

/// The weight of all slots of `pages`.
pub open spec fn total_weight(pages: Seq<ZsPage>, by_bytes: bool) -> int
    decreases pages.len(),
{
    if pages.len() == 0 {
        0
    } else {
        total_weight(pages.drop_last(), by_bytes) + page_weight(pages.last(), 128, by_bytes)
    }
}

proof fn lemma_page_weight(p: ZsPage, q: ZsPage, n: int, s: int, by_bytes: bool)
    requires
        forall|t: int| t != s ==> slot_weight(p, t, by_bytes) == slot_weight(q, t, by_bytes),
    ensures
        page_weight(q, n, by_bytes) - page_weight(p, n, by_bytes) == if 0 <= s < n {
            slot_weight(q, s, by_bytes) - slot_weight(p, s, by_bytes)
        } else {
            0
        },
    decreases n,
{
    if n > 0 {
        lemma_page_weight(p, q, n - 1, s, by_bytes);
    }
}

proof fn lemma_page_weight_bounds(p: ZsPage, n: int, by_bytes: bool)
    requires
        p.wf(),
        0 <= n,
    ensures
        0 <= page_weight(p, n, by_bytes) <= n * 0x1_0000,
        forall|s: int| 0 <= s < n ==> slot_weight(p, s, by_bytes) <= page_weight(p, n, by_bytes),
    decreases n,
{
    if n > 0 {
        lemma_page_weight_bounds(p, n - 1, by_bytes);
    }
}

proof fn lemma_total_weight(pages: Seq<ZsPage>, i: int, q: ZsPage, by_bytes: bool)
    requires
        0 <= i < pages.len(),
    ensures
        total_weight(pages.update(i, q), by_bytes) == total_weight(pages, by_bytes) - page_weight(
            pages[i],
            128,
            by_bytes,
        ) + page_weight(q, 128, by_bytes),
    decreases pages.len(),
{
    let u = pages.update(i, q);
    if i < pages.len() - 1 {
        assert(u.drop_last() =~= pages.drop_last().update(i, q));
        lemma_total_weight(pages.drop_last(), i, q, by_bytes);
    } else {
        assert(u.drop_last() =~= pages.drop_last());
    }
}

proof fn lemma_total_weight_bounds(pages: Seq<ZsPage>, by_bytes: bool)
    requires
        forall|i: int| 0 <= i < pages.len() ==> (#[trigger] pages[i]).wf(),
    ensures
        0 <= total_weight(pages, by_bytes) <= pages.len() * 0x80_0000,
        forall|i: int|
            0 <= i < pages.len() ==> page_weight(#[trigger] pages[i], 128, by_bytes)
                <= total_weight(pages, by_bytes),
    decreases pages.len(),
{
    if pages.len() > 0 {
        let d = pages.drop_last();
        assert forall|i: int| 0 <= i < d.len() implies (#[trigger] d[i]).wf() by {
            assert(pages[i].wf());
        }
        lemma_total_weight_bounds(d, by_bytes);
        lemma_page_weight_bounds(pages.last(), 128, by_bytes);
        assert forall|i: int| 0 <= i < pages.len() implies page_weight(
            #[trigger] pages[i],
            128,
            by_bytes,
        ) <= total_weight(pages, by_bytes) by {
            if i < d.len() {
                assert(d[i] == pages[i]);
            }
        }
    }
}

proof fn lemma_empty_page_weight(p: ZsPage, n: int, by_bytes: bool)
    requires
        forall|s: int| !p.live(s),
    ensures
        page_weight(p, n, by_bytes) == 0,
    decreases n,
{
    if n > 0 {
        lemma_empty_page_weight(p, n - 1, by_bytes);
    }
}

/// What is written for `data`: its compressed form if that is shorter.
pub open spec fn chosen_payload(data: Seq<u8>, compressed: Option<Seq<u8>>) -> Seq<u8> {
    match compressed {
        Some(c) => if c.len() < data.len() {
            c
        } else {
            data
        },
        None => data,
    }
}

/// Whether the LZ4 block `block` stands for `data`.
pub open spec fn encodes(block: Seq<u8>, data: Seq<u8>) -> bool {
    lz4::lz4_decoded(block, data.len()) == Some(data)
}

impl ZsStore {
    /// The available pages of class `c`.
    pub open spec fn partial(self, c: int) -> Seq<usize> {
        self.classes@[c].partial@
    }

    /// Whether `key` names a live slot.
    pub open spec fn has(self, key: (int, int)) -> bool {
        0 <= key.0 < self.pages@.len() && self.pages@[key.0].live(key.1)
    }

    /// The live objects, by page and slot.
    pub open spec fn objects(self) -> Map<(int, int), Seq<u8>> {
        Map::new(|k: (int, int)| self.has(k), |k: (int, int)| self.pages@[k.0].object(k.1)->0)
    }

    /// Page `p` stands in its class's list exactly if it has a free slot.
    pub open spec fn listed(self, p: int) -> bool {
        self.partial(self.pages@[p].class_idx as int).contains(p as usize)
    }

    /// The lists hold pages of their own class that have a free slot, each once.
    pub open spec fn lists_ok(self) -> bool {
        &&& self.classes@.len() == NUM_CLASSES
        &&& forall|c: int|
            0 <= c < NUM_CLASSES ==> (#[trigger] self.partial(c)).no_duplicates()
        &&& forall|c: int, i: int|
            0 <= c < NUM_CLASSES && 0 <= i < self.partial(c).len() ==> {
                let p = #[trigger] self.partial(c)[i];
                p < self.pages@.len() && self.pages@[p as int].class_idx == c
                    && !self.pages@[p as int].full()
            }
        &&& forall|p: int|
            0 <= p < self.pages@.len() && !(#[trigger] self.pages@[p]).full() ==> self.listed(p)
    }

    /// Every page is sound.
    pub open spec fn pages_ok(self) -> bool {
        &&& self.pages@.len() <= MAX_PAGES
        &&& forall|p: int|
            0 <= p < self.pages@.len() ==> (#[trigger] self.pages@[p]).wf()
                && self.pages@[p].sound()
    }

    /// The figures agree with the pages.
    pub open spec fn stats_ok(self) -> bool {
        &&& self.stats.pages_allocated == self.pages@.len()
        &&& self.stats.objects_stored == total_weight(self.pages@, false)
        &&& self.stats.original_bytes == total_weight(self.pages@, true)
    }

    /// The store's invariant.
    pub open spec fn wf(self) -> bool {
        self.pages_ok() && self.lists_ok() && self.stats_ok()
    }

    /// The page in which the next object of class `c` goes.
    pub open spec fn target_page(self, c: int) -> int {
        if self.partial(c).len() > 0 {
            self.partial(c).last() as int
        } else {
            self.pages@.len() as int
        }
    }

    /// The available pages of class `d` after an object was stored under `h`: a
    /// page that was added for it stands last, and the last page is gone if it is
    /// full now. The lists of other classes are as they were.
    pub open spec fn partial_after_store(self, after: ZsStore, d: int, h: Handle) -> Seq<usize> {
        let with_page = if d == h.class() && h.page() == self.pages@.len() {
            self.partial(d).push(h.page() as usize)
        } else {
            self.partial(d)
        };
        if d == h.class() && after.pages@[h.page()].full() {
            with_page.drop_last()
        } else {
            with_page
        }
    }

    /// The available pages of class `d` after the object of `h` was freed: its
    /// page stands last if it was full before. The lists of other classes are as
    /// they were.
    pub open spec fn partial_after_free(self, d: int, h: Handle) -> Seq<usize> {
        if d == self.pages@[h.page()].class_idx && self.pages@[h.page()].full() {
            self.partial(d).push(h.page() as usize)
        } else {
            self.partial(d)
        }
    }

    /// `after` is this store with `data` added under handle `h`, written as
    /// `stored_len` bytes.
    pub open spec fn stores(self, after: ZsStore, data: Seq<u8>, stored_len: int, h: Handle) -> bool {
        &&& !self.has(h.key())
        &&& after.has(h.key())
        &&& after.objects() == self.objects().insert(h.key(), data)
        &&& after.pages@[h.page()].class_idx == h.class()
        &&& class::is_class_for(stored_len, h.class())
        &&& h.page() == self.target_page(h.class())
        &&& forall|t: int|
            0 <= t < h.slot() ==> #[trigger] self.has((h.page(), t))
        &&& after.pages@.len() == if h.page() == self.pages@.len() {
            self.pages@.len() + 1
        } else {
            self.pages@.len()
        }
        &&& forall|p: int|
            0 <= p < self.pages@.len() ==> (#[trigger] after.pages@[p]).class_idx
                == self.pages@[p].class_idx
        &&& forall|p: int|
            0 <= p < self.pages@.len() && p != h.page() ==> (#[trigger] after.pages@[p])
                == self.pages@[p]
        &&& after.classes@.len() == NUM_CLASSES
        &&& forall|d: int|
            0 <= d < NUM_CLASSES ==> #[trigger] after.partial(d) == self.partial_after_store(
                after,
                d,
                h,
            )
        &&& after.stats.objects_stored == self.stats.objects_stored + 1
        &&& after.stats.original_bytes == self.stats.original_bytes + data.len()
        &&& after.stats.stored_bytes == self.stats.stored_bytes + stored_len
        &&& after.stats.pages_allocated == after.pages@.len()
    }

    /// `after` is this store without the object that `h` names.
    pub open spec fn frees(self, after: ZsStore, h: Handle) -> bool {
        &&& self.has(h.key())
        &&& after.objects() == self.objects().remove(h.key())
        &&& after.pages@.len() == self.pages@.len()
        &&& forall|p: int|
            0 <= p < self.pages@.len() ==> (#[trigger] after.pages@[p]).class_idx
                == self.pages@[p].class_idx
        &&& forall|p: int|
            0 <= p < self.pages@.len() && p != h.page() ==> (#[trigger] after.pages@[p])
                == self.pages@[p]
        &&& after.pages@[h.page()].data@ == self.pages@[h.page()].data@
        &&& after.classes@.len() == NUM_CLASSES
        &&& forall|d: int|
            0 <= d < NUM_CLASSES ==> #[trigger] after.partial(d) == self.partial_after_free(d, h)
        &&& after.stats.objects_stored == self.stats.objects_stored - 1
        &&& after.stats.original_bytes == self.stats.original_bytes - self.objects()[h.key()].len()
        &&& after.stats.stored_bytes == self.stats.stored_bytes
        &&& after.stats.pages_allocated == self.stats.pages_allocated
    }

    /// What storing `data` as `payload` leaves behind and returns.
    pub open spec fn stored_as(
        self,
        after: ZsStore,
        data: Seq<u8>,
        payload: Seq<u8>,
        r: Result<Handle, StoreError>,
    ) -> bool {
        match r {
            Err(StoreError::ObjectTooLarge) => data.len() > MAX_OBJECT_SIZE && after == self,
            Err(StoreError::TooManyPages) => {
                &&& data.len() <= MAX_OBJECT_SIZE
                &&& self.pages@.len() == MAX_PAGES
                &&& exists|c: int|
                    class::is_class_for(payload.len() as int, c) && (#[trigger] self.partial(
                        c,
                    )).len() == 0
                &&& after == self
            },
            Ok(h) => {
                &&& data.len() <= MAX_OBJECT_SIZE
                &&& self.stores(after, data, payload.len() as int, h)
                &&& after.pages@[h.page()].payload(h.slot()) == payload
            },
        }
    }

    /// What loading `h` into a buffer of `room` bytes gives.
    pub open spec fn load_result(self, h: Handle, room: int) -> Result<Seq<u8>, LoadError> {
        if h.page() >= self.pages@.len() {
            Err(LoadError::InvalidPage)
        } else if !self.has(h.key()) {
            Err(LoadError::InvalidSlot)
        } else if room < self.objects()[h.key()].len() {
            Err(LoadError::BufferTooSmall { need: self.objects()[h.key()].len() as usize })
        } else {
            Ok(self.objects()[h.key()])
        }
    }

    /// An empty store.
    #[must_use]
    pub fn new() -> (r: ZsStore)
        ensures
            r.wf(),
            r.objects() == Map::<(int, int), Seq<u8>>::empty(),
            r.pages@.len() == 0,
            r.stats.stored_bytes == 0,
    {
        let mut classes: Vec<ClassState> = Vec::new();
        let mut c: usize = 0;
        while c < NUM_CLASSES
            invariant
                c <= NUM_CLASSES,
                classes@.len() == c,
                forall|i: int| 0 <= i < c ==> (#[trigger] classes@[i]).partial@.len() == 0,
            decreases NUM_CLASSES - c,
        {
            classes.push(ClassState::new());
            c = c + 1;
        }
        let r = ZsStore { pages: Vec::new(), classes, stats: Stats::default() };
        assert(r.objects() =~= Map::<(int, int), Seq<u8>>::empty());
        r
    }

    /// Adds an empty page of class `c` and gives its index.
    fn add_page(&mut self, c: usize) -> (pi: usize)
        requires
            old(self).wf(),
            c < NUM_CLASSES,
            old(self).partial(c as int).len() == 0,
            old(self).pages@.len() < MAX_PAGES,
        ensures
            final(self).wf(),
            pi == old(self).pages@.len(),
            final(self).pages@.len() == old(self).pages@.len() + 1,
            final(self).pages@.drop_last() == old(self).pages@,
            final(self).pages@[pi as int].class_idx == c,
            forall|s: int| !final(self).pages@[pi as int].live(s),
            final(self).objects() == old(self).objects(),
            final(self).partial(c as int) == seq![pi],
            forall|d: int|
                0 <= d < NUM_CLASSES && d != c ==> #[trigger] final(self).partial(d) == old(
                    self,
                ).partial(d),
            final(self).stats == (Stats {
                pages_allocated: (old(self).stats.pages_allocated + 1) as usize,
                ..old(self).stats
            }),
    {
        let ghost o = *self;
        let pi: usize = self.pages.len();
        let page = ZsPage::new(c);
        self.pages.push(page);
        let cls = &mut self.classes[c];
        cls.partial.push(pi);
        self.stats.pages_allocated = self.pages.len();
        proof {
            class::lemma_slots_tile_page(c as int, 0);
            let n = *self;
            assert(n.pages@.drop_last() =~= o.pages@);
            assert(n.partial(c as int) =~= seq![pi]);
            assert forall|d: int| 0 <= d < NUM_CLASSES && d != c implies n.partial(d)
                == o.partial(d) by {}
            assert(page.free(0));
            assert(!page.live(0));
            assert(!page.full());
            assert forall|s: int| !page.live(s) by {
                if 0 <= s < page.slots() {
                    assert(page.free(s));
                }
            }
            lemma_empty_page_weight(page, 128, false);
            lemma_empty_page_weight(page, 128, true);
            assert forall|p: int|
                0 <= p < n.pages@.len() && !(#[trigger] n.pages@[p]).full() implies n.listed(p) by {
                if p < pi {
                    assert(o.pages@[p] == n.pages@[p]);
                    assert(o.listed(p));
                    let d = o.pages@[p].class_idx as int;
                    assert(d != c);
                    assert(n.partial(d) == o.partial(d));
                } else {
                    assert(n.partial(c as int)[0] == pi);
                }
            }
            assert forall|d: int, i: int|
                0 <= d < NUM_CLASSES && 0 <= i < n.partial(d).len() implies {
                let p = #[trigger] n.partial(d)[i];
                p < n.pages@.len() && n.pages@[p as int].class_idx == d
                    && !n.pages@[p as int].full()
            } by {
                if d != c {
                    let p = o.partial(d)[i];
                    assert(n.pages@[p as int] == o.pages@[p as int]);
                }
            }
            assert forall|d: int| 0 <= d < NUM_CLASSES implies (#[trigger] n.partial(
                d,
            )).no_duplicates() by {
                if d != c {
                    assert(o.partial(d).no_duplicates());
                }
            }
            assert forall|p: int| 0 <= p < n.pages@.len() implies (#[trigger] n.pages@[p]).wf()
                && n.pages@[p].sound() by {
                if p < pi {
                    assert(o.pages@[p].wf());
                }
            }
            assert(n.objects() =~= o.objects());
        }
        pi
    }

    /// Stores `data`, written as `compressed` if that is given and shorter.
    pub fn store_encoded(&mut self, data: &[u8], compressed: Option<&[u8]>) -> (r: Result<
        Handle,
        StoreError,
    >)
        requires
            old(self).wf(),
            data@.len() <= MAX_OBJECT_SIZE ==> old(self).stats.stored_bytes + chosen_payload(
                data@,
                match compressed {
                    Some(c) => Some(c@),
                    None => None,
                },
            ).len() <= u64::MAX,
            compressed matches Some(c) ==> lz4::lz4_decoded(c@, data@.len()) == Some(data@),
        ensures
            final(self).wf(),
            old(self).stored_as(
                *final(self),
                data@,
                chosen_payload(
                    data@,
                    match compressed {
                        Some(c) => Some(c@),
                        None => None,
                    },
                ),
                r,
            ),
    {
        if data.len() > MAX_OBJECT_SIZE {
            return Err(StoreError::ObjectTooLarge);
        }
        let ghost o = *self;
        let payload: &[u8] = match compressed {
            Some(c) => if c.len() < data.len() {
                c
            } else {
                data
            },
            None => data,
        };
        let stored_len: usize = payload.len();
        let class_idx: usize = match class::class_for_size(stored_len) {
            Some(c) => c,
            None => NUM_CLASSES - 1,
        };
        let listed: usize = self.classes[class_idx].partial.len();
        let pi: usize = if listed > 0 {
            self.classes[class_idx].partial[listed - 1]
        } else {
            if self.pages.len() > u32::MAX as usize {
                assert(self.partial(class_idx as int).len() == 0);
                return Err(StoreError::TooManyPages);
            }
            self.add_page(class_idx)
        };
        let ghost m = *self;
        proof {
            assert(m.partial(class_idx as int).last() == pi);
            assert(!m.pages@[pi as int].full());
            assert(m.pages@[pi as int].wf());
        }
        let page = &mut self.pages[pi];
        let slot: usize = match page.alloc_slot(data.len() as u16, payload) {
            Some(s) => s,
            None => 0,
        };
        let now_full: bool = page.is_full();
        if now_full {
            let cls = &mut self.classes[class_idx];
            cls.partial.pop();
        }
        proof {
            lemma_total_weight_bounds(m.pages@, false);
            lemma_total_weight_bounds(m.pages@, true);
        }
        self.stats.objects_stored = self.stats.objects_stored + 1;
        self.stats.original_bytes = self.stats.original_bytes + data.len() as u64;
        self.stats.stored_bytes = self.stats.stored_bytes + stored_len as u64;
        proof {
            class::lemma_slots_tile_page(class_idx as int, slot as int);
        }
        let h = Handle::encode(pi as u32, class_idx as u8, slot as u8);
        proof {
            let n = *self;
            assert forall|d: int| 0 <= d < NUM_CLASSES implies #[trigger] n.partial(d) == if d
                == class_idx && n.pages@[pi as int].full() {
                m.partial(class_idx as int).drop_last()
            } else {
                m.partial(d)
            } by {}
            lemma_store(m, n, pi as int, slot as int, class_idx as int, data@, payload@);
            lemma_stores(o, m, n, data@, stored_len as int, h);
        }
        Ok(h)
    }

    /// Compresses `data` and stores it; it is stored as it is where compression
    /// does not make it shorter.
    pub fn store(&mut self, data: &[u8]) -> (r: Result<Handle, StoreError>)
        requires
            old(self).wf(),
            data@.len() <= MAX_OBJECT_SIZE ==> old(self).stats.stored_bytes + data@.len()
                <= u64::MAX,
        ensures
            final(self).wf(),
            if data@.len() > MAX_OBJECT_SIZE {
                r == Err::<Handle, StoreError>(StoreError::ObjectTooLarge) && *final(self) == *old(
                    self,
                )
            } else {
                exists|block: Seq<u8>| #[trigger]
                    encodes(block, data@) && old(self).stored_as(
                        *final(self),
                        data@,
                        chosen_payload(data@, Some(block)),
                        r,
                    )
            },
    {
        if data.len() > MAX_OBJECT_SIZE {
            return Err(StoreError::ObjectTooLarge);
        }
        let mut tmp: Vec<u8> = vec![0u8; lz4::maximum_output_size(data.len())];
        match lz4::compress_into(data, tmp.as_mut_slice()) {
            Ok(n) => {
                let c: &[u8] = &tmp[0..n];
                assert(c@ =~= tmp@.take(n as int));
                assert(encodes(c@, data@));
                self.store_encoded(data, Some(c))
            },
            Err(_) => self.store_encoded(data, None),
        }
    }

    /// The uncompressed length of the object that `handle` names; `None` if it
    /// names none.
    #[must_use]
    pub fn query_size(&self, handle: Handle) -> (r: Option<usize>)
        requires
            self.wf(),
        ensures
            match r {
                Some(n) => self.has(handle.key()) && n == self.objects()[handle.key()].len(),
                None => !self.has(handle.key()),
            },
    {
        let (page_idx, _, slot_idx) = handle.decode();
        let pi: usize = page_idx as usize;
        if pi >= self.pages.len() {
            return None;
        }
        assert(self.pages@[pi as int].wf() && self.pages@[pi as int].sound());
        self.pages[pi].slot_original_len(slot_idx)
    }

    /// Writes the object that `handle` names to the start of `out` and gives
    /// its length.
    pub fn load(&self, handle: Handle, out: &mut [u8]) -> (r: Result<usize, LoadError>)
        requires
            self.wf(),
        ensures
            final(out)@.len() == old(out)@.len(),
            match (r, self.load_result(handle, old(out)@.len() as int)) {
                (Ok(n), Ok(d)) => n == d.len() && final(out)@ == d + old(out)@.skip(n as int),
                (Err(e), Err(f)) => e == f && final(out)@ == old(out)@,
                _ => false,
            },
    {
        let (page_idx, _, slot_idx) = handle.decode();
        let pi: usize = page_idx as usize;
        if pi >= self.pages.len() {
            return Err(LoadError::InvalidPage);
        }
        assert(self.pages@[pi as int].wf() && self.pages@[pi as int].sound());
        match self.pages[pi].read_slot(slot_idx, out) {
            Ok(n) => {
                proof {
                    let d = self.objects()[handle.key()];
                    assert(final(out)@ =~= final(out)@.take(n as int) + final(out)@.skip(n as int));
                }
                Ok(n)
            },
            Err(e) => Err(LoadError::from(e)),
        }
    }

    /// Releases the object that `handle` names; its slot can be used again.
    pub fn free(&mut self, handle: Handle) -> (r: Result<(), LoadError>)
        requires
            old(self).wf(),
            old(self).has(handle.key()) ==> handle.class() == old(
                self,
            ).pages@[handle.page()].class_idx,
        ensures
            final(self).wf(),
            match r {
                Err(LoadError::InvalidPage) => handle.page() >= old(self).pages@.len()
                    && *final(self) == *old(self),
                Err(LoadError::InvalidSlot) => handle.page() < old(self).pages@.len() && !old(
                    self,
                ).has(handle.key()) && *final(self) == *old(self),
                Err(_) => false,
                Ok(()) => old(self).frees(*final(self), handle),
            },
    {
        let ghost o = *self;
        let (page_idx, class_idx, slot_idx) = handle.decode();
        let pi: usize = page_idx as usize;
        if pi >= self.pages.len() {
            return Err(LoadError::InvalidPage);
        }
        assert(o.pages@[pi as int].wf() && o.pages@[pi as int].sound());
        let original_len: u64 = match self.pages[pi].slot_original_len(slot_idx) {
            Some(n) => n as u64,
            None => {
                return Err(LoadError::InvalidSlot);
            },
        };
        let page = &mut self.pages[pi];
        let was_full: bool = page.is_full();
        page.free_slot(slot_idx);
        if was_full {
            let cls = &mut self.classes[class_idx];
            cls.partial.push(pi);
        }
        proof {
            lemma_total_weight_bounds(o.pages@, false);
            lemma_total_weight_bounds(o.pages@, true);
            class::lemma_slots_tile_page(o.pages@[pi as int].class_idx as int, slot_idx as int);
            lemma_page_weight_bounds(o.pages@[pi as int], 128, true);
            lemma_page_weight_bounds(o.pages@[pi as int], 128, false);
            assert(slot_weight(o.pages@[pi as int], slot_idx as int, true) == original_len);
            assert(slot_weight(o.pages@[pi as int], slot_idx as int, false) == 1);
        }
        self.stats.objects_stored = self.stats.objects_stored - 1;
        self.stats.original_bytes = self.stats.original_bytes - original_len;
        proof {
            lemma_free(o, *self, pi as int, slot_idx as int);
        }
        Ok(())
    }

    /// The figures about the store.
    #[must_use]
    pub fn stats(&self) -> (r: Stats)
        ensures
            r == self.stats,
    {
        self.stats
    }

    /// How many pages are allocated.
    #[must_use]
    pub fn page_count(&self) -> (r: usize)
        ensures
            r == self.pages@.len(),
    {
        self.pages.len()
    }
}

impl Default for ZsStore {
    fn default() -> (r: Self)
        ensures
            r.wf(),
            r.objects() == Map::<(int, int), Seq<u8>>::empty(),
            r.pages@.len() == 0,
            r.stats.stored_bytes == 0,
    {
        ZsStore::new()
    }
}

/// Filling a slot keeps the invariant and adds one object.
proof fn lemma_store(
    m: ZsStore,
    n: ZsStore,
    pi: int,
    slot: int,
    c: int,
    data: Seq<u8>,
    payload: Seq<u8>,
)
    requires
        m.wf(),
        0 <= c < NUM_CLASSES,
        0 <= pi < m.pages@.len(),
        m.partial(c).len() > 0,
        m.partial(c).last() == pi,
        data.len() <= MAX_OBJECT_SIZE,
        page::object_of(data.len() as int, payload) == Some(data),
        n.pages@ == m.pages@.update(pi, n.pages@[pi]),
        n.pages@[pi].wf(),
        n.pages@[pi].class_idx == c,
        m.pages@[pi].free(slot),
        n.pages@[pi].live(slot),
        n.pages@[pi].original_len(slot) == data.len(),
        n.pages@[pi].payload(slot) == payload,
        forall|t: int| t != slot ==> n.pages@[pi].live(t) == m.pages@[pi].live(t),
        forall|t: int| #[trigger]
            m.pages@[pi].live(t) ==> m.pages@[pi].same_slot(n.pages@[pi], t),
        n.classes@.len() == NUM_CLASSES,
        forall|d: int|
            0 <= d < NUM_CLASSES ==> #[trigger] n.partial(d) == if d == c && n.pages@[pi].full() {
                m.partial(c).drop_last()
            } else {
                m.partial(d)
            },
        n.stats == (Stats {
            objects_stored: (m.stats.objects_stored + 1) as u64,
            original_bytes: (m.stats.original_bytes + data.len()) as u64,
            stored_bytes: n.stats.stored_bytes,
            pages_allocated: m.stats.pages_allocated,
        }),
        m.stats.objects_stored < u64::MAX,
        m.stats.original_bytes + data.len() <= u64::MAX,
    ensures
        n.wf(),
        n.objects() == m.objects().insert((pi, slot), data),
{
    let p = m.pages@[pi];
    let q = n.pages@[pi];
    assert(p.wf() && p.sound());
    assert(m.partial(c)[m.partial(c).len() - 1] == pi);
    assert(p.class_idx == c);
    assert(!p.full());
    class::lemma_slots_tile_page(c, slot);
    assert(q.sound()) by {
        assert forall|s: int| #[trigger] q.live(s) implies q.object(s) is Some
            && q.object(s)->0.len() == q.original_len(s) by {
            if s != slot {
                assert(p.live(s));
                assert(p.same_slot(q, s));
            }
        }
    }
    assert forall|i: int| 0 <= i < n.pages@.len() implies (#[trigger] n.pages@[i]).wf()
        && n.pages@[i].sound() by {
        if i != pi {
            assert(n.pages@[i] == m.pages@[i]);
        }
    }
    assert(!p.live(slot));
    assert(slot_weight(p, slot, true) == 0 && slot_weight(p, slot, false) == 0);
    assert(slot_weight(q, slot, true) == data.len() && slot_weight(q, slot, false) == 1);
    assert forall|t: int| t != slot implies slot_weight(p, t, true) == slot_weight(q, t, true) by {
        if p.live(t) {
            assert(p.same_slot(q, t));
        }
    }
    lemma_page_weight(p, q, 128, slot, true);
    lemma_page_weight(p, q, 128, slot, false);
    lemma_total_weight(m.pages@, pi, q, true);
    lemma_total_weight(m.pages@, pi, q, false);
    assert forall|d: int| 0 <= d < NUM_CLASSES implies (#[trigger] n.partial(
        d,
    )).no_duplicates() by {
        assert(m.partial(d).no_duplicates());
    }
    assert forall|d: int, i: int| 0 <= d < NUM_CLASSES && 0 <= i < n.partial(d).len() implies {
        let j = #[trigger] n.partial(d)[i];
        j < n.pages@.len() && n.pages@[j as int].class_idx == d && !n.pages@[j as int].full()
    } by {
        let j = m.partial(d)[i];
        assert(n.partial(d)[i] == j);
        if j == pi {
            assert(d == c);
            if q.full() {
                assert(m.partial(c).no_duplicates());
                assert(i < m.partial(c).len() - 1);
            }
        }
    }
    assert forall|j: int| 0 <= j < n.pages@.len() && !(#[trigger] n.pages@[j]).full() implies n.listed(
        j,
    ) by {
        assert(m.pages@[j].class_idx == n.pages@[j].class_idx);
        let d = m.pages@[j].class_idx as int;
        assert(m.pages@[j].wf());
        assert(m.listed(j));
        let i = choose|i: int| 0 <= i < m.partial(d).len() && m.partial(d)[i] == j as usize;
        if d == c && q.full() {
            assert(j != pi);
            assert(n.partial(d)[i] == j as usize);
        }
    }
    assert forall|k: (int, int)| n.has(k) == (m.has(k) || k == (pi, slot)) by {
        if k.0 == pi {
            assert(k == (k.0, k.1));
        }
    }
    assert forall|k: (int, int)| m.has(k) implies n.pages@[k.0].object(k.1)
        == m.pages@[k.0].object(k.1) by {
        if k.0 == pi {
            assert(p.same_slot(q, k.1));
        }
    }
    assert(!m.has((pi, slot)));
    assert(n.objects() =~= m.objects().insert((pi, slot), data));
}

/// What a store looks like to its callers, by way of the store in which the page
/// for the object has been found or added.
proof fn lemma_stores(
    o: ZsStore,
    m: ZsStore,
    n: ZsStore,
    data: Seq<u8>,
    stored_len: int,
    h: Handle,
)
    requires
        o.lists_ok(),
        m.lists_ok(),
        n.lists_ok(),
        0 <= h.page() < m.pages@.len(),
        class::is_class_for(stored_len, h.class()),
        if o.partial(h.class()).len() > 0 {
            m == o && h.page() == o.partial(h.class()).last()
        } else {
            &&& h.page() == o.pages@.len()
            &&& m.pages@.len() == o.pages@.len() + 1
            &&& m.pages@.drop_last() == o.pages@
            &&& forall|s: int| !m.pages@[h.page()].live(s)
            &&& m.partial(h.class()) == seq![h.page() as usize]
            &&& forall|d: int|
                0 <= d < NUM_CLASSES && d != h.class() ==> #[trigger] m.partial(d) == o.partial(d)
            &&& m.objects() == o.objects()
            &&& m.stats == (Stats {
                pages_allocated: (o.stats.pages_allocated + 1) as usize,
                ..o.stats
            })
            &&& m.stats.pages_allocated == m.pages@.len()
        },
        n.pages@ == m.pages@.update(h.page(), n.pages@[h.page()]),
        m.pages@[h.page()].free(h.slot()),
        forall|t: int| 0 <= t < h.slot() ==> m.pages@[h.page()].live(t),
        n.pages@[h.page()].live(h.slot()),
        n.pages@[h.page()].class_idx == h.class(),
        m.pages@[h.page()].class_idx == h.class(),
        n.objects() == m.objects().insert(h.key(), data),
        forall|d: int|
            0 <= d < NUM_CLASSES ==> #[trigger] n.partial(d) == if d == h.class()
                && n.pages@[h.page()].full() {
                m.partial(h.class()).drop_last()
            } else {
                m.partial(d)
            },
        m.stats.pages_allocated == m.pages@.len(),
        n.stats.objects_stored == m.stats.objects_stored + 1,
        n.stats.original_bytes == m.stats.original_bytes + data.len(),
        n.stats.stored_bytes == m.stats.stored_bytes + stored_len,
        n.stats.pages_allocated == m.stats.pages_allocated,
    ensures
        o.stores(n, data, stored_len, h),
{
    let p = h.page();
    let c = h.class();
    assert(!m.pages@[p].live(h.slot()));
    if o.partial(c).len() > 0 {
        assert(o.partial(c)[o.partial(c).len() - 1] == p);
        assert(p < o.pages@.len());
    }
    assert forall|t: int| 0 <= t < h.slot() implies #[trigger] o.has((p, t)) by {
        assert(m.pages@[p].live(t));
    }
    assert forall|q: int| 0 <= q < o.pages@.len() implies (#[trigger] n.pages@[q]).class_idx
        == o.pages@[q].class_idx && (q != p ==> n.pages@[q] == o.pages@[q]) by {
        if o.partial(c).len() == 0 {
            assert(m.pages@.drop_last()[q] == o.pages@[q]);
        }
    }
    assert forall|d: int| 0 <= d < NUM_CLASSES implies #[trigger] n.partial(d)
        == o.partial_after_store(n, d, h) by {
        if d == c && o.partial(c).len() == 0 {
            assert(o.partial(c).push(p as usize) =~= seq![p as usize]);
        }
    }
}

/// Freeing a slot keeps the invariant and removes one object.
proof fn lemma_free(o: ZsStore, n: ZsStore, pi: int, slot: int)
    requires
        o.wf(),
        0 <= pi < o.pages@.len(),
        n.pages@ == o.pages@.update(pi, n.pages@[pi]),
        o.pages@[pi].live(slot),
        n.pages@[pi].wf(),
        n.pages@[pi].class_idx == o.pages@[pi].class_idx,
        n.pages@[pi].data@ == o.pages@[pi].data@,
        n.pages@[pi].free(slot),
        forall|t: int| t != slot ==> n.pages@[pi].live(t) == o.pages@[pi].live(t),
        n.classes@.len() == NUM_CLASSES,
        forall|d: int|
            0 <= d < NUM_CLASSES ==> #[trigger] n.partial(d) == if d == o.pages@[pi].class_idx
                && o.pages@[pi].full() {
                o.partial(d).push(pi as usize)
            } else {
                o.partial(d)
            },
        o.stats.objects_stored >= 1,
        o.stats.original_bytes >= o.pages@[pi].original_len(slot),
        n.stats == (Stats {
            objects_stored: (o.stats.objects_stored - 1) as u64,
            original_bytes: (o.stats.original_bytes - o.pages@[pi].original_len(slot)) as u64,
            ..o.stats
        }),
    ensures
        n.wf(),
        n.objects() == o.objects().remove((pi, slot)),
{
    let p = o.pages@[pi];
    let q = n.pages@[pi];
    let c = p.class_idx as int;
    assert(p.wf() && p.sound());
    class::lemma_slots_tile_page(c, slot);
    assert forall|s: int| q.live(s) implies q.object(s) == p.object(s) && q.original_len(s)
        == p.original_len(s) by {}
    assert(q.sound()) by {
        assert forall|s: int| #[trigger] q.live(s) implies q.object(s) is Some
            && q.object(s)->0.len() == q.original_len(s) by {
            assert(p.live(s));
        }
    }
    assert forall|i: int| 0 <= i < n.pages@.len() implies (#[trigger] n.pages@[i]).wf()
        && n.pages@[i].sound() by {
        if i != pi {
            assert(n.pages@[i] == o.pages@[i]);
        }
    }
    assert(!q.live(slot));
    assert(!q.full());
    assert forall|t: int| t != slot implies slot_weight(p, t, true) == slot_weight(q, t, true) by {}
    lemma_page_weight(p, q, 128, slot, true);
    lemma_page_weight(p, q, 128, slot, false);
    lemma_total_weight(o.pages@, pi, q, true);
    lemma_total_weight(o.pages@, pi, q, false);
    assert(!o.partial(c).contains(pi as usize) || !p.full()) by {
        if o.partial(c).contains(pi as usize) {
            let i = choose|i: int| 0 <= i < o.partial(c).len() && o.partial(c)[i] == pi as usize;
            assert(!o.pages@[o.partial(c)[i] as int].full());
        }
    }
    assert forall|d: int| 0 <= d < NUM_CLASSES implies (#[trigger] n.partial(
        d,
    )).no_duplicates() by {
        assert(o.partial(d).no_duplicates());
    }
    assert forall|d: int, i: int| 0 <= d < NUM_CLASSES && 0 <= i < n.partial(d).len() implies {
        let j = #[trigger] n.partial(d)[i];
        j < n.pages@.len() && n.pages@[j as int].class_idx == d && !n.pages@[j as int].full()
    } by {
        if i < o.partial(d).len() {
            let j = o.partial(d)[i];
            assert(n.partial(d)[i] == j);
        }
    }
    assert forall|j: int| 0 <= j < n.pages@.len() && !(#[trigger] n.pages@[j]).full() implies n.listed(
        j,
    ) by {
        assert(o.pages@[j].class_idx == n.pages@[j].class_idx);
        assert(o.pages@[j].wf());
        let d = o.pages@[j].class_idx as int;
        if j == pi && p.full() {
            assert(n.partial(d)[o.partial(d).len() as int] == pi as usize);
        } else {
            assert(o.listed(j));
            let i = choose|i: int| 0 <= i < o.partial(d).len() && o.partial(d)[i] == j as usize;
            assert(n.partial(d)[i] == j as usize);
        }
    }
    assert forall|k: (int, int)| n.has(k) == (o.has(k) && k != (pi, slot)) by {
        if k.0 == pi {
            assert(k == (k.0, k.1));
        }
    }
    assert(n.objects() =~= o.objects().remove((pi, slot)));
}

/// A stored object is loaded again as it was, into any buffer that is long
/// enough, and storing it changes what no other handle loads.
pub proof fn law_load_after_store(
    before: ZsStore,
    after: ZsStore,
    data: Seq<u8>,
    stored_len: int,
    h: Handle,
    other: Handle,
    room: int,
)
    requires
        before.stores(after, data, stored_len, h),
        room >= data.len(),
    ensures
        after.load_result(h, room) == Ok::<Seq<u8>, LoadError>(data),
        before.has(other.key()) ==> after.load_result(other, room) == before.load_result(
            other,
            room,
        ),
{
    assert(after.objects()[h.key()] == data);
    if before.has(other.key()) {
        assert(before.objects().contains_key(other.key()));
        assert(after.objects().contains_key(other.key()));
    }
}

/// A freed object can no longer be loaded, and freeing it changes what no other
/// handle loads.
pub proof fn law_load_after_free(
    before: ZsStore,
    after: ZsStore,
    h: Handle,
    other: Handle,
    room: int,
)
    requires
        before.frees(after, h),
    ensures
        after.load_result(h, room) == Err::<Seq<u8>, LoadError>(LoadError::InvalidSlot),
        other.key() != h.key() ==> after.load_result(other, room) == before.load_result(
            other,
            room,
        ),
{
    assert(!after.objects().contains_key(h.key()));
    assert(before.objects().contains_key(other.key()) == before.has(other.key()));
    assert(after.objects().contains_key(other.key()) == after.has(other.key()));
}

/// The smallest class that holds a payload is unique.
proof fn lemma_class_unique(n: int, c: int, d: int)
    requires
        class::is_class_for(n, c),
        class::is_class_for(n, d),
    ensures
        c == d,
{
    if c < d {
        assert(class::max_payload(c) < n);
    }
    if d < c {
        assert(class::max_payload(d) < n);
    }
}

/// A slot that is given back is used again: after an object is freed, an object
/// whose payload is of the same size class is stored without a new page.
pub proof fn law_freed_slot_is_used_again(
    first: ZsStore,
    full: ZsStore,
    freed: ZsStore,
    again: ZsStore,
    data: Seq<u8>,
    stored_len: int,
    h: Handle,
    other: Seq<u8>,
    payload: Seq<u8>,
    r: Result<Handle, StoreError>,
)
    requires
        first.stores(full, data, stored_len, h),
        class::is_class_for(payload.len() as int, h.class()),
        full.frees(freed, h),
        freed.wf(),
        other.len() <= MAX_OBJECT_SIZE,
        freed.stored_as(again, other, payload, r),
    ensures
        r is Ok,
        again.pages@.len() == freed.pages@.len(),
        freed.pages@.len() == full.pages@.len(),
{
    let c = h.class();
    let p = h.page();
    assert(full.objects().contains_key(h.key()));
    assert(!freed.objects().contains_key(h.key()));
    assert(!freed.has(h.key()));
    assert(full.pages@[p].live(h.slot()));
    assert(freed.pages@[p].class_idx == full.pages@[p].class_idx);
    assert(!freed.pages@[p].live(h.slot()));
    assert(!freed.pages@[p].full());
    assert(freed.listed(p));
    assert(freed.partial(c).len() > 0);
    let last = freed.partial(c)[freed.partial(c).len() - 1];
    assert(last < freed.pages@.len());
    match r {
        Ok(h2) => {
            lemma_class_unique(payload.len() as int, c, h2.class());
        },
        Err(StoreError::TooManyPages) => {
            let d = choose|d: int|
                class::is_class_for(payload.len() as int, d) && (#[trigger] freed.partial(d)).len()
                    == 0;
            lemma_class_unique(payload.len() as int, c, d);
        },
        Err(StoreError::ObjectTooLarge) => {},
    }
}

/// An object that fits into the smallest slot as it is needs no new page when it
/// is stored, freed and stored again, whichever blocks the two calls of the
/// compressor gave for it.
pub proof fn law_small_object_needs_no_new_page(
    first: ZsStore,
    full: ZsStore,
    freed: ZsStore,
    again: ZsStore,
    data: Seq<u8>,
    block: Seq<u8>,
    h: Handle,
    other_block: Seq<u8>,
    r: Result<Handle, StoreError>,
)
    requires
        data.len() <= class::max_payload(0),
        first.stored_as(full, data, chosen_payload(data, Some(block)), Ok(h)),
        full.frees(freed, h),
        freed.wf(),
        freed.stored_as(again, data, chosen_payload(data, Some(other_block)), r),
    ensures
        r is Ok,
        again.pages@.len() == full.pages@.len(),
{
    class::lemma_class_table();
    let one = chosen_payload(data, Some(block)).len() as int;
    let two = chosen_payload(data, Some(other_block));
    lemma_class_unique(one, 0, h.class());
    law_freed_slot_is_used_again(first, full, freed, again, data, one, h, data, two, r);
}

/// One call on a store.
pub enum Step {
    /// An object was stored under a handle, as this many bytes.
    Store { data: Seq<u8>, stored_len: int, handle: Handle },
    /// An object was freed.
    Free { handle: Handle },
    /// A call that changes nothing: a load, a query, or one that failed.
    Other,
}

/// Whether a call takes one store to the other.
pub open spec fn is_step(a: ZsStore, step: Step, b: ZsStore) -> bool {
    match step {
        Step::Store { data, stored_len, handle } => a.stores(b, data, stored_len, handle),
        Step::Free { handle } => a.frees(b, handle),
        Step::Other => b == a,
    }
}

/// Whether the calls take each store to the next.
pub open spec fn is_run(stores: Seq<ZsStore>, steps: Seq<Step>) -> bool {
    &&& stores.len() == steps.len() + 1
    &&& forall|i: int|
        0 <= i < steps.len() ==> is_step(stores[i], #[trigger] steps[i], stores[i + 1])
}

proof fn lemma_run_prefix(stores: Seq<ZsStore>, steps: Seq<Step>)
    requires
        is_run(stores, steps),
        steps.len() > 0,
    ensures
        is_run(stores.drop_last(), steps.drop_last()),
        stores.drop_last().last() == stores[steps.len() - 1],
        is_step(stores[steps.len() - 1], steps.last(), stores.last()),
{
    let s = stores.drop_last();
    let t = steps.drop_last();
    assert forall|i: int| 0 <= i < t.len() implies is_step(s[i], #[trigger] t[i], s[i + 1]) by {
        assert(is_step(stores[i], steps[i], stores[i + 1]));
    }
    assert(is_step(stores[steps.len() - 1], steps[steps.len() - 1], stores[steps.len() as int]));
}

/// An object stays what it is through any calls that do not free it: it loads
/// into any buffer that is long enough, and its size can be queried.
pub proof fn law_object_outlives_other_calls(
    stores: Seq<ZsStore>,
    steps: Seq<Step>,
    h: Handle,
    room: int,
)
    requires
        is_run(stores, steps),
        stores[0].has(h.key()),
        room >= stores[0].objects()[h.key()].len(),
        forall|i: int|
            0 <= i < steps.len() ==> ((#[trigger] steps[i]) matches Step::Free { handle }
                ==> handle.key() != h.key()),
    ensures
        stores.last().has(h.key()),
        stores.last().objects()[h.key()] == stores[0].objects()[h.key()],
        stores.last().load_result(h, room) == Ok::<Seq<u8>, LoadError>(
            stores[0].objects()[h.key()],
        ),
    decreases steps.len(),
{
    if steps.len() > 0 {
        lemma_run_prefix(stores, steps);
        let s = stores.drop_last();
        let t = steps.drop_last();
        assert forall|i: int| 0 <= i < t.len() implies ((#[trigger] t[i]) matches Step::Free {
            handle,
        } ==> handle.key() != h.key()) by {
            assert(t[i] == steps[i]);
        }
        law_object_outlives_other_calls(s, t, h, room);
        let a = s.last();
        let b = stores.last();
        assert(steps.last() == steps[steps.len() - 1]);
        assert(a.objects().contains_key(h.key()));
        assert(b.objects().contains_key(h.key()) && b.objects()[h.key()] == a.objects()[h.key()]);
        assert(b.has(h.key()));
    }
}

/// The bytes of some objects in all.
pub open spec fn bytes_of(live: Seq<(Handle, Seq<u8>)>) -> int
    decreases live.len(),
{
    if live.len() == 0 {
        0
    } else {
        bytes_of(live.drop_last()) + live.last().1.len()
    }
}

proof fn lemma_bytes_of_remove(live: Seq<(Handle, Seq<u8>)>, i: int)
    requires
        0 <= i < live.len(),
    ensures
        bytes_of(live.remove(i)) == bytes_of(live) - live[i].1.len(),
    decreases live.len(),
{
    let rest = live.remove(i);
    if i == live.len() - 1 {
        assert(rest =~= live.drop_last());
    } else {
        assert(rest.drop_last() =~= live.drop_last().remove(i));
        assert(rest.last() == live.last());
        lemma_bytes_of_remove(live.drop_last(), i);
    }
}

/// Whether the live handles and their objects are exactly those listed, each
/// once, and the figures are their number and their bytes.
pub open spec fn accounts(s: ZsStore, live: Seq<(Handle, Seq<u8>)>) -> bool {
    &&& forall|i: int|
        0 <= i < live.len() ==> s.has((#[trigger] live[i]).0.key())
            && s.objects()[live[i].0.key()] == live[i].1
    &&& forall|i: int, j: int|
        #![trigger live[i], live[j]]
        0 <= i < live.len() && 0 <= j < live.len() && i != j ==> live[i].0.key() != live[j].0.key()
    &&& forall|k: (int, int)| #[trigger]
        s.has(k) ==> exists|i: int| 0 <= i < live.len() && (#[trigger] live[i]).0.key() == k
    &&& s.stats.objects_stored == live.len()
    &&& s.stats.original_bytes == bytes_of(live)
    &&& s.stats.pages_allocated == s.pages@.len()
}

/// Where a handle is listed.
pub open spec fn place_of(live: Seq<(Handle, Seq<u8>)>, h: Handle) -> int {
    choose|i: int| 0 <= i < live.len() && (#[trigger] live[i]).0 == h
}

/// The live handles and their objects after some calls on an empty store.
pub open spec fn live_after(steps: Seq<Step>) -> Seq<(Handle, Seq<u8>)>
    decreases steps.len(),
{
    if steps.len() == 0 {
        Seq::empty()
    } else {
        let live = live_after(steps.drop_last());
        match steps.last() {
            Step::Store { data, handle, .. } => live.push((handle, data)),
            Step::Free { handle } => live.remove(place_of(live, handle)),
            Step::Other => live,
        }
    }
}

/// Whether each call that frees does so with a handle that is live then.
pub open spec fn frees_live_handles(steps: Seq<Step>) -> bool {
    forall|n: int|
        0 <= n < steps.len() ==> ((#[trigger] steps[n]) matches Step::Free { handle } ==> {
            exists|i: int|
                0 <= i < live_after(steps.take(n)).len() && (#[trigger] live_after(
                    steps.take(n),
                )[i]).0 == handle
        })
}

/// A new handle differs from every live one, and the live handles are then those
/// and the new one. The live ones load what they loaded before, and the new one
/// the object that was stored.
pub proof fn law_store_adds_a_handle(
    a: ZsStore,
    b: ZsStore,
    live: Seq<(Handle, Seq<u8>)>,
    data: Seq<u8>,
    stored_len: int,
    h: Handle,
)
    requires
        accounts(a, live),
        a.stores(b, data, stored_len, h),
    ensures
        accounts(b, live.push((h, data))),
        forall|i: int| 0 <= i < live.len() ==> (#[trigger] live[i]).0 != h,
        forall|i: int, room: int|
            #![trigger b.load_result(live[i].0, room)]
            0 <= i < live.len() ==> b.load_result(live[i].0, room) == a.load_result(
                live[i].0,
                room,
            ),
        forall|room: int|
            room >= data.len() ==> #[trigger] b.load_result(h, room) == Ok::<Seq<u8>, LoadError>(
                data,
            ),
{
    let all = live.push((h, data));
    assert(b.objects()[h.key()] == data);
    assert forall|i: int| 0 <= i < all.len() implies b.has((#[trigger] all[i]).0.key())
        && b.objects()[all[i].0.key()] == all[i].1 && (i < live.len() ==> all[i].0.key()
        != h.key()) by {
        if i < live.len() {
            assert(a.has(live[i].0.key()));
            assert(a.objects().contains_key(live[i].0.key()));
            assert(b.objects().contains_key(live[i].0.key()));
        }
    }
    assert forall|k: (int, int)| #[trigger] b.has(k) implies exists|i: int|
        0 <= i < all.len() && (#[trigger] all[i]).0.key() == k by {
        assert(b.objects().contains_key(k));
        if k == h.key() {
            assert(all[live.len() as int].0.key() == k);
        } else {
            assert(a.objects().contains_key(k));
            assert(a.has(k));
            let i = choose|i: int| 0 <= i < live.len() && (#[trigger] live[i]).0.key() == k;
            assert(all[i].0.key() == k);
        }
    }
    assert(all.drop_last() =~= live);
    assert forall|i: int| 0 <= i < live.len() implies (#[trigger] live[i]).0 != h by {
        assert(all[i] == live[i]);
    }
    assert forall|i: int, room: int|
        #![trigger b.load_result(live[i].0, room)]
        0 <= i < live.len() implies b.load_result(live[i].0, room) == a.load_result(
        live[i].0,
        room,
    ) by {
        assert(all[i] == live[i]);
        assert(a.has(live[i].0.key()) && b.has(live[i].0.key()));
    }
}

/// Freeing a live handle leaves the others live.
pub proof fn law_free_removes_a_handle(
    a: ZsStore,
    b: ZsStore,
    live: Seq<(Handle, Seq<u8>)>,
    n: int,
)
    requires
        accounts(a, live),
        0 <= n < live.len(),
        a.frees(b, live[n].0),
    ensures
        accounts(b, live.remove(n)),
{
    let rest = live.remove(n);
    assert(a.has(live[n].0.key()));
    lemma_bytes_of_remove(live, n);
    assert forall|i: int| 0 <= i < rest.len() implies b.has((#[trigger] rest[i]).0.key())
        && b.objects()[rest[i].0.key()] == rest[i].1 by {
        let o = if i < n {
            i
        } else {
            i + 1
        };
        assert(rest[i] == live[o]);
        assert(live[o].0.key() != live[n].0.key());
        assert(a.has(live[o].0.key()));
        assert(a.objects().contains_key(live[o].0.key()));
        assert(b.objects().contains_key(live[o].0.key()));
    }
    assert forall|i: int, j: int|
        #![trigger rest[i], rest[j]]
        0 <= i < rest.len() && 0 <= j < rest.len() && i != j implies rest[i].0.key()
        != rest[j].0.key() by {
        let oi = if i < n {
            i
        } else {
            i + 1
        };
        let oj = if j < n {
            j
        } else {
            j + 1
        };
        assert(rest[i] == live[oi] && rest[j] == live[oj]);
    }
    assert forall|k: (int, int)| #[trigger] b.has(k) implies exists|i: int|
        0 <= i < rest.len() && (#[trigger] rest[i]).0.key() == k by {
        assert(b.objects().contains_key(k));
        assert(a.objects().contains_key(k));
        assert(a.has(k));
        let o = choose|i: int| 0 <= i < live.len() && (#[trigger] live[i]).0.key() == k;
        let i = if o < n {
            o
        } else {
            o - 1
        };
        assert(rest[i] == live[o]);
    }
}

/// After any calls on an empty store that free live handles only, the live
/// objects are those that were stored and not freed, their handles all differ,
/// and the figures are their number and their bytes. Pages are never given back.
pub proof fn law_figures_count_the_live_objects(stores: Seq<ZsStore>, steps: Seq<Step>)
    requires
        is_run(stores, steps),
        frees_live_handles(steps),
        accounts(stores[0], Seq::empty()),
    ensures
        accounts(stores.last(), live_after(steps)),
        forall|i: int, j: int|
            #![trigger live_after(steps)[i], live_after(steps)[j]]
            0 <= i < live_after(steps).len() && 0 <= j < live_after(steps).len() && i != j
                ==> live_after(steps)[i].0 != live_after(steps)[j].0,
        stores.last().pages@.len() >= stores[0].pages@.len(),
    decreases steps.len(),
{
    if steps.len() > 0 {
        lemma_run_prefix(stores, steps);
        let s = stores.drop_last();
        let t = steps.drop_last();
        let n = steps.len() - 1;
        assert(steps.take(n) =~= t);
        assert forall|k: int| 0 <= k < t.len() implies ((#[trigger] t[k]) matches Step::Free {
            handle,
        } ==> {
            exists|i: int|
                0 <= i < live_after(t.take(k)).len() && (#[trigger] live_after(t.take(k))[i]).0
                    == handle
        }) by {
            assert(t[k] == steps[k]);
            assert(t.take(k) =~= steps.take(k));
        }
        law_figures_count_the_live_objects(s, t);
        let live = live_after(t);
        let a = s.last();
        let b = stores.last();
        match steps.last() {
            Step::Store { data, stored_len, handle } => {
                law_store_adds_a_handle(a, b, live, data, stored_len, handle);
            },
            Step::Free { handle } => {
                assert(steps[n] == steps.last());
                let i = place_of(live, handle);
                assert(0 <= i < live.len() && live[i].0 == handle);
                law_free_removes_a_handle(a, b, live, i);
            },
            Step::Other => {},
        }
    }
}

/// An empty store has no live handles.
pub proof fn law_empty_store_has_no_handles(s: ZsStore)
    requires
        s.wf(),
        s.pages@.len() == 0,
    ensures
        accounts(s, Seq::empty()),
{
}

/// An object is written as whichever is shorter, its block or itself: that is what
/// its slot holds, and how much the figure for stored bytes grows.
pub proof fn law_shorter_form_is_stored(
    before: ZsStore,
    after: ZsStore,
    data: Seq<u8>,
    block: Seq<u8>,
    h: Handle,
)
    requires
        before.stored_as(after, data, chosen_payload(data, Some(block)), Ok(h)),
    ensures
        block.len() < data.len() ==> after.pages@[h.page()].payload(h.slot()) == block,
        block.len() >= data.len() ==> after.pages@[h.page()].payload(h.slot()) == data,
        after.stats.stored_bytes - before.stats.stored_bytes <= block.len(),
        after.stats.stored_bytes - before.stats.stored_bytes <= data.len(),
        after.stats.stored_bytes - before.stats.stored_bytes == block.len() || after.stats.stored_bytes
            - before.stats.stored_bytes == data.len(),
{
}

/// The bytes that calls wrote to pages.
pub open spec fn bytes_written(steps: Seq<Step>) -> int
    decreases steps.len(),
{
    if steps.len() == 0 {
        0
    } else {
        bytes_written(steps.drop_last()) + match steps.last() {
            Step::Store { stored_len, .. } => stored_len,
            _ => 0,
        }
    }
}

/// The figure for stored bytes is what was ever written: it grows with each
/// object that is stored and never falls.
pub proof fn law_stored_bytes_never_fall(stores: Seq<ZsStore>, steps: Seq<Step>)
    requires
        is_run(stores, steps),
    ensures
        stores.last().stats.stored_bytes == stores[0].stats.stored_bytes + bytes_written(steps),
    decreases steps.len(),
{
    if steps.len() > 0 {
        lemma_run_prefix(stores, steps);
        law_stored_bytes_never_fall(stores.drop_last(), steps.drop_last());
        assert(steps.last() == steps[steps.len() - 1]);
    }
}

/// A slot that becomes free in a full page is the next one that an object of the
/// class gets.
pub proof fn law_full_page_is_used_next(
    full: ZsStore,
    freed: ZsStore,
    again: ZsStore,
    h: Handle,
    data: Seq<u8>,
    stored_len: int,
    next: Handle,
)
    requires
        full.lists_ok(),
        full.pages_ok(),
        full.has(h.key()),
        full.pages@[h.page()].full(),
        full.pages@[h.page()].class_idx == h.class(),
        full.frees(freed, h),
        freed.stores(again, data, stored_len, next),
        next.class() == h.class(),
    ensures
        next.page() == h.page(),
        next.slot() == h.slot(),
{
    let c = h.class();
    let p = h.page();
    assert(full.pages@[p].wf());
    assert(freed.partial(c) == full.partial(c).push(p as usize));
    assert(freed.partial(c).last() == p);
    assert(next.page() == p);
    assert(!freed.has(next.key()));
    assert(freed.objects().contains_key(next.key()) == freed.has(next.key()));
    assert(again.has(next.key()));
    assert(again.pages@[p].class_idx == freed.pages@[p].class_idx);
    assert(again.pages@[p].live(next.slot()));
    assert(full.pages@[p].live(next.slot()));
    assert(full.objects().contains_key(next.key()));
    assert(full.has(next.key()));
}

} // verus!
