//! The kernel heap: a table of free regions.

use vstd::arithmetic::div_mod::*;
use vstd::prelude::*;

verus! {

/// Bytes of the heap.
pub const HEAP_SIZE: usize = 0x400_0000;

/// How many disjoint free regions the table holds.
pub const MAX_FREE_REGIONS: usize = 256;

/// One contiguous free span of the heap.
#[derive(Clone, Copy, Debug, PartialEq, Eq, Structural)]
pub struct Region {
    /// The first address.
    pub addr: usize,
    /// How many bytes.
    pub size: usize,
}

/// The free regions of the heap, in no order.
pub struct FreeList {
    regions: [Region; MAX_FREE_REGIONS],
    len: usize,
}

/// Where the addresses of the kernel's heap end at the latest: in the lower half,
/// so that no alignment takes one beyond the address space.
pub open spec fn heap_limit() -> int {
    usize::MAX / 2 + 1
}

/// The address after a region.
pub open spec fn region_end(r: Region) -> int {
    r.addr + r.size
}

/// Whether a region is a span of addresses.
pub open spec fn is_span(r: Region) -> bool {
    r.size > 0 && region_end(r) <= usize::MAX
}

/// Whether every region is a span of addresses and the table holds them all.
pub open spec fn spans(list: Seq<Region>) -> bool {
    &&& list.len() <= MAX_FREE_REGIONS
    &&& forall|i: int| 0 <= i < list.len() ==> is_span(#[trigger] list[i])
}

/// Whether every region lies below the limit of the kernel's heap.
pub open spec fn low(list: Seq<Region>) -> bool {
    forall|i: int| 0 <= i < list.len() ==> region_end(#[trigger] list[i]) <= heap_limit()
}

/// Whether no region's start is aligned beyond the address space.
pub open spec fn alignable(list: Seq<Region>, align: int) -> bool {
    forall|i: int| 0 <= i < list.len() ==> (#[trigger] list[i]).addr + align - 1 <= usize::MAX
}

/// Whether two regions have no address in common.
pub open spec fn apart(a: Region, b: Region) -> bool {
    region_end(a) <= b.addr || region_end(b) <= a.addr
}

/// Whether no two regions have an address in common.
pub open spec fn disjoint(list: Seq<Region>) -> bool {
    forall|i: int, j: int|
        #![trigger list[i], list[j]]
        0 <= i < list.len() && 0 <= j < list.len() && i != j ==> apart(list[i], list[j])
}

/// Whether a region has no address in common with the regions of the list.
pub open spec fn outside(list: Seq<Region>, r: Region) -> bool {
    forall|i: int| 0 <= i < list.len() ==> apart(#[trigger] list[i], r)
}

/// Whether the region holds the address.
pub open spec fn holds(r: Region, a: int) -> bool {
    r.addr <= a < region_end(r)
}

/// Whether the address is free.
pub open spec fn free_at(list: Seq<Region>, a: int) -> bool {
    exists|i: int| 0 <= i < list.len() && holds(#[trigger] list[i], a)
}

/// The smallest multiple of `align` that is not below `x`.
pub open spec fn align_up(x: int, align: int) -> int {
    (x + align - 1) - (x + align - 1) % align
}

/// Whether an aligned block fits into a region.
pub open spec fn fits(r: Region, align: int, size: int) -> bool {
    align_up(r.addr as int, align) + size <= region_end(r)
}

/// The first region from `i` on into which an aligned block fits.
pub open spec fn first_fit(list: Seq<Region>, i: int, align: int, size: int) -> Option<int>
    decreases list.len() - i,
{
    if i >= list.len() {
        None
    } else if fits(list[i], align, size) {
        Some(i)
    } else {
        first_fit(list, i + 1, align, size)
    }
}

/// The list with one more region, if the table has room for it.
pub open spec fn pushed(list: Seq<Region>, r: Region) -> Seq<Region> {
    if list.len() < MAX_FREE_REGIONS {
        list.push(r)
    } else {
        list
    }
}

/// The list without its region `i`, whose place the last one takes.
pub open spec fn removed(list: Seq<Region>, i: int) -> Seq<Region> {
    list.update(i, list.last()).drop_last()
}

/// The list after the block at `start` has been cut out of region `i`. What is
/// left before the block stays in place; what is left behind it takes the place
/// if there is nothing before, and goes to the end of the list otherwise.
pub open spec fn cut(list: Seq<Region>, i: int, start: int, size: int) -> Seq<Region> {
    let r = list[i];
    let before = start - r.addr;
    let after = region_end(r) - (start + size);
    let tail = Region { addr: (start + size) as usize, size: after as usize };
    if before == 0 {
        if after > 0 {
            list.update(i, tail)
        } else {
            removed(list, i)
        }
    } else {
        let head = list.update(i, Region { addr: r.addr, size: before as usize });
        if after > 0 {
            pushed(head, tail)
        } else {
            head
        }
    }
}

/// Whether the region ends where the span starts.
pub open spec fn before(r: Region, span: Region) -> bool {
    region_end(r) == span.addr
}

/// Whether the region starts where the span ends.
pub open spec fn behind(r: Region, span: Region) -> bool {
    region_end(span) == r.addr
}

/// The first region from `i` on that touches the span.
pub open spec fn first_neighbour(list: Seq<Region>, i: int, span: Region) -> Option<int>
    decreases list.len() - i,
{
    if i >= list.len() {
        None
    } else if before(list[i], span) || behind(list[i], span) {
        Some(i)
    } else {
        first_neighbour(list, i + 1, span)
    }
}

/// The first region from `j` on, other than `i`, that touches the span on the
/// side that region `i` does not touch.
pub open spec fn first_across(list: Seq<Region>, j: int, i: int, span: Region) -> Option<int>
    decreases list.len() - j,
{
    if j >= list.len() {
        None
    } else if j != i && if before(list[i], span) {
        behind(list[j], span)
    } else {
        before(list[j], span)
    } {
        Some(j)
    } else {
        first_across(list, j + 1, i, span)
    }
}

/// One region in place of two that touch.
pub open spec fn joined(a: Region, b: Region) -> Region {
    Region {
        addr: if a.addr < b.addr {
            a.addr
        } else {
            b.addr
        },
        size: (a.size + b.size) as usize,
    }
}

/// The list after a span has been given back: the first region that touches it
/// takes it in, together with the region that touches it on its other side.
/// Without a neighbour the span is a region of its own.
pub open spec fn given_back(list: Seq<Region>, span: Region) -> Seq<Region> {
    match first_neighbour(list, 0, span) {
        None => pushed(list, span),
        Some(i) => {
            let whole = joined(list[i], span);
            match first_across(list, 0, i, span) {
                None => list.update(i, whole),
                Some(j) => removed(list.update(i, joined(whole, list[j])), j),
            }
        },
    }
}

/// Whether no region of the list touches an end of the span.
pub open spec fn untouched(list: Seq<Region>, span: Region) -> bool {
    forall|k: int|
        0 <= k < list.len() ==> !before(#[trigger] list[k], span) && !behind(list[k], span)
}

/// Whether no two regions touch.
pub open spec fn coalesced(list: Seq<Region>) -> bool {
    forall|i: int, j: int|
        #![trigger list[i], list[j]]
        0 <= i < list.len() && 0 <= j < list.len() ==> !before(list[i], list[j])
}

/// What `align_up` is, said without the remainder.
proof fn lemma_align_up(x: int, align: int)
    requires
        0 <= x,
        0 < align,
    ensures
        x <= align_up(x, align) < x + align,
        align_up(x, align) % align == 0,
{
    let y = x + align - 1;
    lemma_mod_bound(y, align);
    lemma_fundamental_div_mod(y, align);
    lemma_mod_multiples_basic(y / align, align);
    assert(align_up(x, align) == align * (y / align));
    assert((y / align) * align == align * (y / align)) by (nonlinear_arith);
}

proof fn lemma_first_fit(list: Seq<Region>, i: int, align: int, size: int)
    requires
        0 <= i,
    ensures
        match first_fit(list, i, align, size) {
            Some(k) => i <= k < list.len() && fits(list[k], align, size) && forall|j: int|
                i <= j < k ==> !fits(#[trigger] list[j], align, size),
            None => forall|j: int| i <= j < list.len() ==> !fits(#[trigger] list[j], align, size),
        },
    decreases list.len() - i,
{
    if i < list.len() && !fits(list[i], align, size) {
        lemma_first_fit(list, i + 1, align, size);
    }
}

proof fn lemma_first_neighbour(list: Seq<Region>, i: int, span: Region)
    requires
        0 <= i,
    ensures
        match first_neighbour(list, i, span) {
            Some(k) => i <= k < list.len() && (before(list[k], span) || behind(list[k], span)),
            None => forall|k: int|
                i <= k < list.len() ==> !before(#[trigger] list[k], span) && !behind(list[k], span),
        },
    decreases list.len() - i,
{
    if i < list.len() {
        lemma_first_neighbour(list, i + 1, span);
    }
}

proof fn lemma_first_across(list: Seq<Region>, j: int, i: int, span: Region)
    requires
        0 <= j,
    ensures
        match first_across(list, j, i, span) {
            Some(k) => j <= k < list.len() && k != i && if before(list[i], span) {
                behind(list[k], span)
            } else {
                before(list[k], span)
            },
            None => forall|k: int|
                j <= k < list.len() && k != i ==> if before(list[i], span) {
                    !behind(#[trigger] list[k], span)
                } else {
                    !before(list[k], span)
                },
        },
    decreases list.len() - j,
{
    if j < list.len() {
        lemma_first_across(list, j + 1, i, span);
    }
}

impl FreeList {
    /// The free regions.
    pub closed spec fn list(self) -> Seq<Region> {
        self.regions@.take(self.len as int)
    }

    /// Whether the table is in order.
    pub closed spec fn wf(self) -> bool {
        self.len <= MAX_FREE_REGIONS && spans(self.list())
    }

    /// What a table that is in order says of its regions.
    pub proof fn lemma_wf(self)
        requires
            self.wf(),
        ensures
            spans(self.list()),
    {
    }

    /// A list without free regions.
    #[must_use]
    pub fn new() -> (r: Self)
        ensures
            r.wf(),
            r.list() == Seq::<Region>::empty(),
    {
        let r = FreeList { regions: [Region { addr: 0, size: 0 };MAX_FREE_REGIONS], len: 0 };
        assert(r.list() =~= Seq::<Region>::empty());
        r
    }

    /// Makes the heap at `base` the only free region.
    pub fn init(&mut self, base: usize)
        requires
            base + HEAP_SIZE <= usize::MAX,
        ensures
            final(self).wf(),
            final(self).list() == seq![Region { addr: base, size: HEAP_SIZE }],
    {
        self.regions[0] = Region { addr: base, size: HEAP_SIZE };
        self.len = 1;
        assert(self.list() =~= seq![Region { addr: base, size: HEAP_SIZE }]);
    }

    /// Takes an aligned block out of the first region into which it fits.
    pub fn allocate(&mut self, align: usize, size: usize) -> (r: Option<usize>)
        requires
            old(self).wf(),
            0 < align,
            alignable(old(self).list(), align as int),
        ensures
            final(self).wf(),
            match first_fit(old(self).list(), 0, align as int, size as int) {
                Some(i) => {
                    let start = align_up(old(self).list()[i].addr as int, align as int);
                    &&& r matches Some(p) && p == start
                    &&& final(self).list() == cut(old(self).list(), i, start, size as int)
                },
                None => r is None && final(self).list() == old(self).list(),
            },
    {
        let ghost list = self.list();
        let mut i: usize = 0;
        while i < self.len
            invariant
                i <= self.len,
                self.wf(),
                0 < align,
                alignable(list, align as int),
                self.list() == list,
                list == old(self).list(),
                first_fit(list, 0, align as int, size as int) == first_fit(
                    list,
                    i as int,
                    align as int,
                    size as int,
                ),
            decreases self.len - i,
        {
            let r = self.regions[i];
            assert(list[i as int] == r);
            assert(is_span(r));
            proof {
                lemma_align_up(r.addr as int, align as int);
            }
            let top: usize = r.addr + (align - 1);
            let aligned: usize = top - top % align;
            assert(aligned == align_up(r.addr as int, align as int));
            let region_end: usize = r.addr + r.size;
            let fit: bool = match aligned.checked_add(size) {
                Some(e) => e <= region_end,
                None => false,
            };
            if fit {
                self.take(i, aligned, size);
                return Some(aligned);
            }
            i += 1;
        }
        None
    }

    /// Cuts the block at `start` out of region `i`.
    fn take(&mut self, i: usize, start: usize, size: usize)
        requires
            old(self).wf(),
            i < old(self).list().len(),
            old(self).list()[i as int].addr <= start,
            start + size <= region_end(old(self).list()[i as int]),
        ensures
            final(self).wf(),
            final(self).list() == cut(old(self).list(), i as int, start as int, size as int),
    {
        let ghost list = self.list();
        let r = self.regions[i];
        assert(list[i as int] == r);
        assert(is_span(r));
        let end: usize = start + size;
        let before: usize = start - r.addr;
        let after: usize = (r.addr + r.size) - end;
        let tail = Region { addr: end, size: after };
        if before == 0 {
            if after > 0 {
                self.set(i, tail);
            } else {
                self.remove(i);
            }
        } else {
            self.set(i, Region { addr: r.addr, size: before });
            if after > 0 {
                self.push(tail);
            }
        }
    }

    /// Gives a span back.
    pub fn dealloc(&mut self, addr: usize, size: usize)
        requires
            old(self).wf(),
            is_span(Region { addr, size }),
        ensures
            final(self).wf(),
            final(self).list() == given_back(old(self).list(), Region { addr, size }),
    {
        let span = Region { addr, size };
        let ghost list = self.list();
        let mut i: usize = 0;
        while i < self.len
            invariant
                i <= self.len,
                self.wf(),
                self.list() == list,
                list == old(self).list(),
                span == (Region { addr, size }),
                is_span(span),
                first_neighbour(list, 0, span) == first_neighbour(list, i as int, span),
            decreases self.len - i,
        {
            let r = self.regions[i];
            assert(list[i as int] == r);
            assert(is_span(r));
            if r.addr + r.size == addr || addr + size == r.addr {
                self.join(i, span);
                return;
            }
            i += 1;
        }
        self.push(span);
    }

    /// Lets region `i` take in the span, and the region on the span's other side.
    fn join(&mut self, i: usize, span: Region)
        requires
            old(self).wf(),
            is_span(span),
            i < old(self).list().len(),
            before(old(self).list()[i as int], span) || behind(old(self).list()[i as int], span),
        ensures
            final(self).wf(),
            final(self).list() == ({
                let list = old(self).list();
                let whole = joined(list[i as int], span);
                match first_across(list, 0, i as int, span) {
                    None => list.update(i as int, whole),
                    Some(j) => removed(list.update(i as int, joined(whole, list[j])), j),
                }
            }),
    {
        let ghost list = self.list();
        let r = self.regions[i];
        assert(list[i as int] == r);
        assert(is_span(r));
        let end: usize = span.addr + span.size;
        let is_before: bool = r.addr + r.size == span.addr;
        let whole = Region {
            addr: if is_before {
                r.addr
            } else {
                span.addr
            },
            size: r.size + span.size,
        };
        assert(whole == joined(r, span));
        let mut j: usize = 0;
        while j < self.len
            invariant
                j <= self.len,
                i < self.len,
                self.wf(),
                self.list() == list,
                list == old(self).list(),
                list[i as int] == r,
                is_span(r),
                is_span(span),
                end == region_end(span),
                is_before == before(r, span),
                is_before || behind(r, span),
                whole == joined(r, span),
                whole.size == r.size + span.size,
                first_across(list, 0, i as int, span) == first_across(
                    list,
                    j as int,
                    i as int,
                    span,
                ),
            decreases self.len - j,
        {
            let o = self.regions[j];
            assert(list[j as int] == o);
            assert(is_span(o));
            let touches: bool = if is_before {
                o.addr == end
            } else {
                o.addr + o.size == span.addr
            };
            if j != i && touches {
                let all = Region {
                    addr: if is_before {
                        r.addr
                    } else {
                        o.addr
                    },
                    size: whole.size + o.size,
                };
                assert(all == joined(whole, o));
                self.set(i, all);
                self.remove(j);
                return;
            }
            j += 1;
        }
        self.set(i, whole);
    }

    /// Replaces region `i`.
    fn set(&mut self, i: usize, r: Region)
        requires
            old(self).wf(),
            i < old(self).list().len(),
            is_span(r),
        ensures
            final(self).wf(),
            final(self).list() == old(self).list().update(i as int, r),
    {
        self.regions[i] = r;
        assert(self.list() =~= old(self).list().update(i as int, r));
    }

    /// Adds a region, which is lost if the table is full.
    fn push(&mut self, r: Region)
        requires
            old(self).wf(),
            is_span(r),
        ensures
            final(self).wf(),
            final(self).list() == pushed(old(self).list(), r),
    {
        if self.len < MAX_FREE_REGIONS {
            self.regions[self.len] = r;
            self.len += 1;
            assert(self.list() =~= old(self).list().push(r));
        }
    }

    /// Removes region `i`.
    fn remove(&mut self, i: usize)
        requires
            old(self).wf(),
            i < old(self).list().len(),
        ensures
            final(self).wf(),
            final(self).list() == removed(old(self).list(), i as int),
    {
        if i + 1 < self.len {
            self.regions[i] = self.regions[self.len - 1];
        }
        self.len -= 1;
        assert(self.list() =~= removed(old(self).list(), i as int));
    }
}

/// The allocator of the kernel, which sets its heap up on first use.
pub struct KernelAllocator {
    free_list: FreeList,
    ready: bool,
}

/// What a `KernelAllocator` holds.
#[verifier::ext_equal]
pub struct HeapView {
    /// Whether the heap has been set up.
    pub ready: bool,
    /// The free regions.
    pub list: Seq<Region>,
}

impl View for KernelAllocator {
    type V = HeapView;

    closed spec fn view(&self) -> HeapView {
        HeapView { ready: self.ready, list: self.free_list.list() }
    }
}

impl HeapView {
    /// The free regions of a heap at `base` at the next use.
    pub open spec fn list_at(self, base: usize) -> Seq<Region> {
        if self.ready {
            self.list
        } else {
            seq![Region { addr: base, size: HEAP_SIZE }]
        }
    }
}

impl KernelAllocator {
    /// Whether the table of free regions is in order and below the limit.
    pub closed spec fn wf(self) -> bool {
        self.free_list.wf() && low(self.free_list.list())
    }

    /// What an allocator that is in order says of its regions.
    pub proof fn lemma_wf(self)
        requires
            self.wf(),
        ensures
            spans(self@.list),
            low(self@.list),
    {
        self.free_list.lemma_wf();
    }

    /// An allocator without a heap.
    #[must_use]
    pub fn new() -> (r: Self)
        ensures
            r.wf(),
            r@ == (HeapView { ready: false, list: Seq::empty() }),
    {
        KernelAllocator { free_list: FreeList::new(), ready: false }
    }

    /// Takes an aligned block out of the heap at `base`.
    pub fn allocate(&mut self, base: usize, align: usize, size: usize) -> (r: Option<usize>)
        requires
            old(self).wf(),
            base + HEAP_SIZE <= heap_limit(),
            0 < align <= heap_limit(),
        ensures
            final(self).wf(),
            final(self)@.ready,
            ({
                let list = old(self)@.list_at(base);
                match first_fit(list, 0, align as int, size as int) {
                    Some(i) => {
                        let start = align_up(list[i].addr as int, align as int);
                        &&& r matches Some(p) && p == start
                        &&& final(self)@.list == cut(list, i, start, size as int)
                    },
                    None => r is None && final(self)@.list == list,
                }
            }),
    {
        if !self.ready {
            self.free_list.init(base);
            self.ready = true;
        }
        proof {
            self.free_list.lemma_wf();
            lemma_low_allocate(self.free_list.list(), align as int, size as int);
        }
        self.free_list.allocate(align, size)
    }

    /// Gives a block back.
    pub fn dealloc(&mut self, addr: usize, size: usize)
        requires
            old(self).wf(),
            is_span(Region { addr, size }),
            addr + size <= heap_limit(),
        ensures
            final(self).wf(),
            final(self)@ == (HeapView {
                list: given_back(old(self)@.list, Region { addr, size }),
                ..old(self)@
            }),
    {
        proof {
            self.free_list.lemma_wf();
            lemma_low_given_back(self.free_list.list(), Region { addr, size });
        }
        self.free_list.dealloc(addr, size);
    }
}

/// Below the limit every region can be aligned, and what a cut leaves is below
/// the limit too.
proof fn lemma_low_allocate(list: Seq<Region>, align: int, size: int)
    requires
        spans(list),
        low(list),
        0 < align <= heap_limit(),
        0 <= size,
    ensures
        alignable(list, align),
        match first_fit(list, 0, align, size) {
            Some(i) => low(cut(list, i, align_up(list[i].addr as int, align), size)),
            None => true,
        },
{
    assert forall|i: int| 0 <= i < list.len() implies (#[trigger] list[i]).addr + align - 1
        <= usize::MAX by {
        assert(is_span(list[i]) && region_end(list[i]) <= heap_limit());
    }
    lemma_first_fit(list, 0, align, size);
    if let Some(i) = first_fit(list, 0, align, size) {
        lemma_align_up(list[i].addr as int, align);
        let start = align_up(list[i].addr as int, align);
        let new = cut(list, i, start, size);
        assert forall|k: int| 0 <= k < new.len() implies region_end(#[trigger] new[k])
            <= heap_limit() by {
            lemma_cut_from(list, i, start, size, k);
            let from = origin(list, i, start, size, k);
            assert(region_end(list[from]) <= heap_limit());
        }
    }
}

/// What giving a span below the limit back leaves is below the limit.
proof fn lemma_low_given_back(list: Seq<Region>, span: Region)
    requires
        spans(list),
        low(list),
        is_span(span),
        region_end(span) <= heap_limit(),
    ensures
        low(given_back(list, span)),
{
    let new = given_back(list, span);
    lemma_first_neighbour(list, 0, span);
    if let Some(i) = first_neighbour(list, 0, span) {
        assert(is_span(list[i]) && region_end(list[i]) <= heap_limit());
        let whole = joined(list[i], span);
        lemma_first_across(list, 0, i, span);
        if let Some(j) = first_across(list, 0, i, span) {
            assert(is_span(list[j]) && region_end(list[j]) <= heap_limit());
            assert(region_end(joined(whole, list[j])) <= heap_limit());
        }
    }
}

/// Whether a region other than `i` holds the address.
spec fn free_but(list: Seq<Region>, i: int, a: int) -> bool {
    exists|k: int| 0 <= k < list.len() && k != i && holds(#[trigger] list[k], a)
}

proof fn lemma_free_split(list: Seq<Region>, i: int, a: int)
    requires
        0 <= i < list.len(),
    ensures
        free_at(list, a) == (free_but(list, i, a) || holds(list[i], a)),
{
    if free_at(list, a) {
        let k = choose|k: int| 0 <= k < list.len() && holds(#[trigger] list[k], a);
        assert(holds(list[k], a));
    }
}

proof fn lemma_free_update(list: Seq<Region>, i: int, r: Region, a: int)
    requires
        0 <= i < list.len(),
    ensures
        free_at(list.update(i, r), a) == (free_but(list, i, a) || holds(r, a)),
        free_but(list.update(i, r), i, a) == free_but(list, i, a),
{
    let new = list.update(i, r);
    lemma_free_split(new, i, a);
    if free_but(list, i, a) {
        let k = choose|k: int| 0 <= k < list.len() && k != i && holds(#[trigger] list[k], a);
        assert(holds(new[k], a));
    }
    if free_but(new, i, a) {
        let k = choose|k: int| 0 <= k < new.len() && k != i && holds(#[trigger] new[k], a);
        assert(holds(list[k], a));
    }
}

proof fn lemma_free_removed(list: Seq<Region>, i: int, a: int)
    requires
        0 <= i < list.len(),
    ensures
        free_at(removed(list, i), a) == free_but(list, i, a),
{
    let new = removed(list, i);
    if free_but(list, i, a) {
        let k = choose|k: int| 0 <= k < list.len() && k != i && holds(#[trigger] list[k], a);
        if k == list.len() - 1 {
            assert(holds(new[i], a));
        } else {
            assert(holds(new[k], a));
        }
    }
    if free_at(new, a) {
        let k = choose|k: int| 0 <= k < new.len() && holds(#[trigger] new[k], a);
        if k == i {
            assert(holds(list[list.len() - 1], a));
        } else {
            assert(holds(list[k], a));
        }
    }
}

proof fn lemma_free_push(list: Seq<Region>, r: Region, a: int)
    ensures
        free_at(list.push(r), a) == (free_at(list, a) || holds(r, a)),
{
    let new = list.push(r);
    if free_at(list, a) {
        let k = choose|k: int| 0 <= k < list.len() && holds(#[trigger] list[k], a);
        assert(holds(new[k], a));
    }
    if holds(r, a) {
        assert(holds(new[list.len() as int], a));
    }
    if free_at(new, a) {
        let k = choose|k: int| 0 <= k < new.len() && holds(#[trigger] new[k], a);
        if k < list.len() {
            assert(holds(list[k], a));
        }
    }
}

/// Whether the tail that a cut leaves is kept: it is lost if it needs a place in
/// the table and the table is full.
pub open spec fn keeps_tail(list: Seq<Region>, i: int, start: int, size: int) -> bool {
    list.len() < MAX_FREE_REGIONS || start == list[i].addr || start + size == region_end(list[i])
}

/// A block that is handed out was free and is aligned. Afterwards its addresses
/// are no longer free, all others are as they were (but for a tail that the full
/// table has no place for), the regions stay disjoint, and if no two of them
/// touched, no two touch now (unless the block is empty: it may cut a region in
/// two).
pub proof fn law_allocated_block_was_free(list: Seq<Region>, align: int, size: int)
    requires
        spans(list),
        disjoint(list),
        0 < align,
        0 <= size,
        first_fit(list, 0, align, size) is Some,
    ensures
        ({
            let i = first_fit(list, 0, align, size)->0;
            let start = align_up(list[i].addr as int, align);
            let new = cut(list, i, start, size);
            let block = Region { addr: start as usize, size: size as usize };
            &&& start % align == 0
            &&& block.addr == start && block.size == size
            &&& region_end(block) <= usize::MAX
            &&& forall|a: int| holds(block, a) ==> #[trigger] free_at(list, a)
            &&& spans(new)
            &&& disjoint(new)
            &&& outside(new, block)
            &&& size > 0 && coalesced(list) ==> coalesced(new)
            &&& forall|a: int| #[trigger] free_at(new, a) ==> free_at(list, a) && !holds(block, a)
            &&& keeps_tail(list, i, start, size) ==> forall|a: int| #[trigger]
                free_at(new, a) == (free_at(list, a) && !holds(block, a))
        }),
{
    lemma_first_fit(list, 0, align, size);
    let i = first_fit(list, 0, align, size)->0;
    let r = list[i];
    lemma_align_up(r.addr as int, align);
    let start = align_up(r.addr as int, align);
    let new = cut(list, i, start, size);
    let block = Region { addr: start as usize, size: size as usize };
    assert(is_span(r));
    assert forall|a: int| holds(block, a) implies #[trigger] free_at(list, a) by {
        assert(holds(list[i], a));
    }
    let head = Region { addr: r.addr, size: (start - r.addr) as usize };
    let tail = Region {
        addr: (start + size) as usize,
        size: (region_end(r) - (start + size)) as usize,
    };
    assert forall|a: int|
        {
            &&& #[trigger] free_at(new, a) ==> free_at(list, a) && !holds(block, a)
            &&& keeps_tail(list, i, start, size) ==> free_at(new, a) == (free_at(list, a) && !holds(
                block,
                a,
            ))
        } by {
        lemma_free_split(list, i, a);
        lemma_free_removed(list, i, a);
        lemma_free_update(list, i, tail, a);
        lemma_free_update(list, i, head, a);
        lemma_free_push(list.update(i, head), tail, a);
        if free_but(list, i, a) {
            let k = choose|k: int| 0 <= k < list.len() && k != i && holds(#[trigger] list[k], a);
            assert(apart(list[k], list[i]));
        }
    }
    assert(spans(new)) by {
        assert forall|k: int| 0 <= k < new.len() implies is_span(#[trigger] new[k]) by {
            lemma_cut_from(list, i, start, size, k);
            assert(is_span(list[origin(list, i, start, size, k)]));
        }
    }
    if size > 0 && coalesced(list) {
        assert forall|k: int, l: int|
            #![trigger new[k], new[l]]
            0 <= k < new.len() && 0 <= l < new.len() implies !before(new[k], new[l]) by {
            lemma_cut_from(list, i, start, size, k);
            lemma_cut_from(list, i, start, size, l);
            let ok = origin(list, i, start, size, k);
            let ol = origin(list, i, start, size, l);
            assert(!before(list[ok], list[ol]));
            assert(is_span(list[ok]) && is_span(list[ol]));
            if ok != ol {
                assert(apart(list[ok], list[ol]));
            }
        }
    }
    assert(disjoint(new)) by {
        assert forall|k: int, l: int|
            #![trigger new[k], new[l]]
            0 <= k < new.len() && 0 <= l < new.len() && k != l implies apart(new[k], new[l]) by {
            lemma_cut_from(list, i, start, size, k);
            lemma_cut_from(list, i, start, size, l);
            let ok = origin(list, i, start, size, k);
            let ol = origin(list, i, start, size, l);
            if ok != ol {
                assert(apart(list[ok], list[ol]));
            }
        }
    }
    assert(outside(new, block)) by {
        assert forall|k: int| 0 <= k < new.len() implies apart(#[trigger] new[k], block) by {
            lemma_cut_from(list, i, start, size, k);
            let ok = origin(list, i, start, size, k);
            if ok != i {
                assert(apart(list[ok], list[i]));
            }
        }
    }
}

/// Which region of a list its region `k` comes from after a cut.
spec fn origin(list: Seq<Region>, i: int, start: int, size: int, k: int) -> int {
    if start == list[i].addr && start + size == region_end(list[i]) && k == i {
        list.len() - 1
    } else if k == list.len() {
        i
    } else {
        k
    }
}

/// After a cut each region lies in the one that it comes from, and those from
/// region `i` lie before or behind the block.
proof fn lemma_cut_from(list: Seq<Region>, i: int, start: int, size: int, k: int)
    requires
        spans(list),
        0 <= i < list.len(),
        list[i].addr <= start,
        0 <= size,
        start + size <= region_end(list[i]),
        0 <= k < cut(list, i, start, size).len(),
    ensures
        ({
            let from = origin(list, i, start, size, k);
            let r = cut(list, i, start, size)[k];
            &&& 0 <= from < list.len()
            &&& from != i ==> r == list[from]
            &&& from == i && k < list.len() && start > list[i].addr ==> r.addr == list[i].addr
                && region_end(r) == start
            &&& from == i && (k == list.len() || start == list[i].addr) ==> r.addr == start + size
                && region_end(r) == region_end(list[i])
        }),
{
    assert(is_span(list[i]));
}

/// Whether a span that is given back is kept: it is lost if it has no neighbour
/// and the table is full.
pub open spec fn keeps_span(list: Seq<Region>, span: Region) -> bool {
    list.len() < MAX_FREE_REGIONS || first_neighbour(list, 0, span) is Some
}

/// After a span that was not free is given back its addresses are free (unless
/// the full table has no place for it), all others are as they were, the regions
/// stay disjoint, and no region ends where the span starts or starts where it
/// ends: its neighbours have taken it in. With a neighbour on both sides the
/// three are one region.
pub proof fn law_given_back_span_is_free(list: Seq<Region>, span: Region)
    requires
        spans(list),
        disjoint(list),
        is_span(span),
        outside(list, span),
    ensures
        spans(given_back(list, span)),
        disjoint(given_back(list, span)),
        untouched(given_back(list, span), span),
        forall|a: int| #[trigger]
            free_at(given_back(list, span), a) == (free_at(list, a) || (keeps_span(list, span)
                && holds(span, a))),
        forall|i: int, j: int|
            #![trigger list[i], list[j]]
            0 <= i < list.len() && 0 <= j < list.len() && before(list[i], span) && behind(
                list[j],
                span,
            ) ==> {
                &&& given_back(list, span).len() == list.len() - 1
                &&& given_back(list, span).contains(joined(joined(list[i], span), list[j]))
            },
        coalesced(list) ==> coalesced(given_back(list, span)),
{
    let new = given_back(list, span);
    lemma_first_neighbour(list, 0, span);
    match first_neighbour(list, 0, span) {
        None => {
            assert forall|a: int| #[trigger] free_at(new, a) == (free_at(list, a) || (keeps_span(
                list,
                span,
            ) && holds(span, a))) by {
                lemma_free_push(list, span, a);
            }
        },
        Some(i) => {
            let r = list[i];
            assert(is_span(r));
            let whole = joined(r, span);
            lemma_first_across(list, 0, i, span);
            match first_across(list, 0, i, span) {
                Some(j) => {
                    assert(is_span(list[j]));
                    lemma_joined(list, span, i, j, joined(whole, list[j]));
                },
                None => {
                    lemma_grown(list, span, i, whole);
                },
            }
        },
    }
}

/// Without a region on its other side, a span that touches region `i` makes one
/// of the two.
proof fn lemma_grown(list: Seq<Region>, span: Region, i: int, big: Region)
    requires
        spans(list),
        disjoint(list),
        is_span(span),
        outside(list, span),
        0 <= i < list.len(),
        before(list[i], span) || behind(list[i], span),
        forall|k: int|
            0 <= k < list.len() && k != i ==> if before(list[i], span) {
                !behind(#[trigger] list[k], span)
            } else {
                !before(list[k], span)
            },
        big == joined(list[i], span),
    ensures
        spans(list.update(i, big)),
        disjoint(list.update(i, big)),
        untouched(list.update(i, big), span),
        forall|a: int| #[trigger]
            free_at(list.update(i, big), a) == (free_at(list, a) || holds(span, a)),
        forall|k: int, l: int|
            #![trigger list[k], list[l]]
            0 <= k < list.len() && 0 <= l < list.len() ==> !(before(list[k], span) && behind(
                list[l],
                span,
            )),
        coalesced(list) ==> coalesced(list.update(i, big)),
{
    let new = list.update(i, big);
    assert(is_span(list[i]));
    assert forall|a: int| #[trigger] free_at(new, a) == (free_at(list, a) || holds(span, a)) by {
        lemma_free_split(list, i, a);
        lemma_free_update(list, i, big, a);
    }
    assert forall|k: int, l: int|
        #![trigger new[k], new[l]]
        0 <= k < new.len() && 0 <= l < new.len() && k != l implies apart(new[k], new[l]) by {
        assert(apart(list[k], list[l]));
        assert(apart(list[k], span));
        assert(apart(list[l], span));
        assert(is_span(list[k]) && is_span(list[l]));
    }
    assert forall|k: int| 0 <= k < new.len() implies !before(#[trigger] new[k], span) && !behind(
        new[k],
        span,
    ) by {
        assert(is_span(list[k]));
        if k != i {
            assert(apart(list[k], list[i]));
        }
    }
    assert forall|k: int, l: int|
        #![trigger list[k], list[l]]
        0 <= k < list.len() && 0 <= l < list.len() implies !(before(list[k], span) && behind(
        list[l],
        span,
    )) by {
        assert(is_span(list[k]) && is_span(list[l]));
        if k != i {
            assert(apart(list[k], list[i]));
        }
        if l != i {
            assert(apart(list[l], list[i]));
        }
    }
    if coalesced(list) {
        assert forall|k: int, l: int|
            #![trigger new[k], new[l]]
            0 <= k < new.len() && 0 <= l < new.len() implies !before(new[k], new[l]) by {
            assert(!before(list[k], list[l]));
            assert(is_span(list[k]) && is_span(list[l]));
            assert(!before(new[k], span) && !behind(new[l], span));
        }
    }
}

/// A span that fills the gap between regions `i` and `j` makes one of the three.
proof fn lemma_joined(list: Seq<Region>, span: Region, i: int, j: int, big: Region)
    requires
        spans(list),
        disjoint(list),
        is_span(span),
        outside(list, span),
        0 <= i < list.len(),
        0 <= j < list.len(),
        i != j,
        before(list[i], span) && behind(list[j], span) || before(list[j], span) && behind(
            list[i],
            span,
        ),
        big == joined(joined(list[i], span), list[j]),
    ensures
        spans(removed(list.update(i, big), j)),
        disjoint(removed(list.update(i, big), j)),
        untouched(removed(list.update(i, big), j), span),
        forall|a: int| #[trigger]
            free_at(removed(list.update(i, big), j), a) == (free_at(list, a) || holds(span, a)),
        forall|k: int, l: int|
            #![trigger list[k], list[l]]
            0 <= k < list.len() && 0 <= l < list.len() && before(list[k], span) && behind(
                list[l],
                span,
            ) ==> removed(list.update(i, big), j).contains(joined(joined(list[k], span), list[l])),
        coalesced(list) ==> coalesced(removed(list.update(i, big), j)),
{
    let wide = list.update(i, big);
    let new = removed(wide, j);
    assert(is_span(list[i]) && is_span(list[j]));
    assert forall|a: int| #[trigger] free_at(new, a) == (free_at(list, a) || holds(span, a)) by {
        lemma_free_removed(wide, j, a);
        lemma_free_split(wide, j, a);
        lemma_free_update(list, i, big, a);
        lemma_free_split(list, i, a);
        if holds(list[j], a) {
            assert(holds(wide[i], a));
            assert(free_but(wide, j, a));
            assert(free_at(list, a));
        }
        if holds(big, a) {
            assert(holds(wide[i], a));
            assert(free_but(wide, j, a));
        }
    }
    assert forall|k: int| 0 <= k < new.len() implies {
        &&& new[k] == wide[source(list, j, k)]
        &&& is_span(#[trigger] new[k])
        &&& !before(new[k], span)
        &&& !behind(new[k], span)
    } by {
        let o = source(list, j, k);
        assert(is_span(list[o]));
        assert(apart(list[o], list[j]));
        if o != i {
            assert(apart(list[o], list[i]));
        }
    }
    assert forall|k: int, l: int|
        #![trigger new[k], new[l]]
        0 <= k < new.len() && 0 <= l < new.len() && k != l implies apart(new[k], new[l]) by {
        let ok = source(list, j, k);
        let ol = source(list, j, l);
        assert(new[k] == wide[ok] && new[l] == wide[ol]);
        assert(apart(list[ok], list[ol]));
        assert(apart(list[ok], list[j]) && apart(list[ol], list[j]));
        assert(apart(list[ok], span) && apart(list[ol], span));
        assert(is_span(list[ok]) && is_span(list[ol]));
    }
    assert forall|k: int, l: int|
        #![trigger list[k], list[l]]
        0 <= k < list.len() && 0 <= l < list.len() && before(list[k], span) && behind(
            list[l],
            span,
        ) implies new.contains(joined(joined(list[k], span), list[l])) by {
        assert(is_span(list[k]) && is_span(list[l]));
        let first = if before(list[i], span) {
            i
        } else {
            j
        };
        let last = if before(list[i], span) {
            j
        } else {
            i
        };
        if k != first {
            assert(apart(list[k], list[first]));
        }
        if l != last {
            assert(apart(list[l], list[last]));
        }
        assert(joined(joined(list[k], span), list[l]) == big);
        let at = if i == list.len() - 1 {
            j
        } else {
            i
        };
        assert(new[at] == big);
    }
    if coalesced(list) {
        assert forall|k: int, l: int|
            #![trigger new[k], new[l]]
            0 <= k < new.len() && 0 <= l < new.len() implies !before(new[k], new[l]) by {
            let ok = source(list, j, k);
            let ol = source(list, j, l);
            assert(new[k] == wide[ok] && new[l] == wide[ol]);
            assert(!before(list[ok], list[ol]));
            assert(!before(list[ok], list[j]) && !before(list[j], list[ol]));
            assert(!before(list[ok], list[i]) && !before(list[i], list[ol]));
            assert(is_span(list[ok]) && is_span(list[ol]));
        }
    }
}

/// Which region of a list its region `k` comes from after region `j` is removed.
spec fn source(list: Seq<Region>, j: int, k: int) -> int {
    if k == j {
        list.len() - 1
    } else {
        k
    }
}

/// A block that is handed out and given back leaves the same addresses free,
/// unless a tail was lost to a full table in between.
pub proof fn law_give_back_undoes_allocate(list: Seq<Region>, align: int, size: int)
    requires
        spans(list),
        disjoint(list),
        0 < align,
        0 < size,
        first_fit(list, 0, align, size) is Some,
        ({
            let i = first_fit(list, 0, align, size)->0;
            keeps_tail(list, i, align_up(list[i].addr as int, align), size)
        }),
    ensures
        ({
            let i = first_fit(list, 0, align, size)->0;
            let start = align_up(list[i].addr as int, align);
            let block = Region { addr: start as usize, size: size as usize };
            let back = given_back(cut(list, i, start, size), block);
            &&& disjoint(back)
            &&& forall|a: int| #[trigger] free_at(back, a) == free_at(list, a)
        }),
{
    law_allocated_block_was_free(list, align, size);
    lemma_first_fit(list, 0, align, size);
    let i = first_fit(list, 0, align, size)->0;
    let r = list[i];
    lemma_align_up(r.addr as int, align);
    let start = align_up(r.addr as int, align);
    let block = Region { addr: start as usize, size: size as usize };
    let new = cut(list, i, start, size);
    law_given_back_span_is_free(new, block);
    let back = given_back(new, block);
    if new.len() == MAX_FREE_REGIONS {
        lemma_cut_from(list, i, start, size, i);
        lemma_has_neighbour(new, 0, i, block);
    }
    assert forall|a: int| #[trigger] free_at(back, a) == free_at(list, a) by {
        assert(free_at(new, a) == (free_at(list, a) && !holds(block, a)));
        if holds(block, a) {
            assert(free_at(list, a));
        }
    }
}

/// Allocation fails exactly when the block fits into no region.
pub proof fn law_allocation_fails_when_nothing_fits(list: Seq<Region>, align: int, size: int)
    ensures
        first_fit(list, 0, align, size) is None <==> forall|i: int|
            0 <= i < list.len() ==> !fits(#[trigger] list[i], align, size),
{
    lemma_first_fit(list, 0, align, size);
}

/// The block that an allocation hands out.
pub open spec fn block_of(list: Seq<Region>, align: int, size: int) -> Region
    recommends
        first_fit(list, 0, align, size) is Some,
{
    let i = first_fit(list, 0, align, size)->0;
    Region { addr: align_up(list[i].addr as int, align) as usize, size: size as usize }
}

/// The free regions after an allocation.
pub open spec fn after_allocate(list: Seq<Region>, align: int, size: int) -> Seq<Region> {
    match first_fit(list, 0, align, size) {
        Some(i) => cut(list, i, align_up(list[i].addr as int, align), size),
        None => list,
    }
}

/// Whether the blocks that are handed out overlap neither each other nor the
/// free regions.
pub open spec fn blocks_apart(list: Seq<Region>, blocks: Seq<Region>) -> bool {
    &&& spans(list)
    &&& disjoint(list)
    &&& disjoint(blocks)
    &&& forall|b: int|
        0 <= b < blocks.len() ==> is_span(#[trigger] blocks[b]) && outside(list, blocks[b])
}

/// The block that is handed out next overlaps none of those that are handed out
/// already, whatever was allocated and given back in between.
pub proof fn law_allocated_blocks_are_apart(
    list: Seq<Region>,
    blocks: Seq<Region>,
    align: int,
    size: int,
)
    requires
        blocks_apart(list, blocks),
        0 < align,
        0 < size,
        first_fit(list, 0, align, size) is Some,
    ensures
        blocks_apart(
            after_allocate(list, align, size),
            blocks.push(block_of(list, align, size)),
        ),
{
    law_allocated_block_was_free(list, align, size);
    lemma_first_fit(list, 0, align, size);
    let i = first_fit(list, 0, align, size)->0;
    let start = align_up(list[i].addr as int, align);
    lemma_align_up(list[i].addr as int, align);
    let new = after_allocate(list, align, size);
    let block = block_of(list, align, size);
    let all = blocks.push(block);
    assert forall|b: int| 0 <= b < all.len() implies is_span(#[trigger] all[b]) && outside(
        new,
        all[b],
    ) && (b < blocks.len() ==> apart(all[b], block)) by {
        if b < blocks.len() {
            assert(is_span(blocks[b]) && outside(list, blocks[b]));
            assert(apart(list[i], blocks[b]));
            assert forall|k: int| 0 <= k < new.len() implies apart(#[trigger] new[k], all[b]) by {
                lemma_cut_from(list, i, start, size, k);
                let from = origin(list, i, start, size, k);
                assert(apart(list[from], blocks[b]));
            }
        }
    }
    assert forall|k: int, l: int|
        #![trigger all[k], all[l]]
        0 <= k < all.len() && 0 <= l < all.len() && k != l implies apart(all[k], all[l]) by {
        if k < blocks.len() && l < blocks.len() {
            assert(apart(blocks[k], blocks[l]));
        }
    }
}

/// Giving a block back leaves the other blocks apart from each other and from
/// the free regions.
pub proof fn law_remaining_blocks_are_apart(list: Seq<Region>, blocks: Seq<Region>, b: int)
    requires
        blocks_apart(list, blocks),
        0 <= b < blocks.len(),
    ensures
        blocks_apart(given_back(list, blocks[b]), blocks.remove(b)),
{
    let span = blocks[b];
    let new = given_back(list, span);
    let rest = blocks.remove(b);
    assert(is_span(span) && outside(list, span));
    law_given_back_span_is_free(list, span);
    assert forall|k: int| 0 <= k < rest.len() implies is_span(#[trigger] rest[k]) && outside(
        new,
        rest[k],
    ) by {
        let o = if k < b {
            k
        } else {
            k + 1
        };
        assert(rest[k] == blocks[o]);
        assert(is_span(blocks[o]) && outside(list, blocks[o]));
        assert(apart(blocks[o], span));
        assert forall|m: int| 0 <= m < new.len() implies apart(#[trigger] new[m], rest[k]) by {
            lemma_apart_by_addresses(new, m, list, span, rest[k]);
        }
    }
    assert forall|k: int, l: int|
        #![trigger rest[k], rest[l]]
        0 <= k < rest.len() && 0 <= l < rest.len() && k != l implies apart(rest[k], rest[l]) by {
        let ok = if k < b {
            k
        } else {
            k + 1
        };
        let ol = if l < b {
            l
        } else {
            l + 1
        };
        assert(apart(blocks[ok], blocks[ol]));
    }
}

/// A region that holds only addresses that were free or in the span has none in
/// common with a block that is apart from both.
proof fn lemma_apart_by_addresses(
    new: Seq<Region>,
    m: int,
    list: Seq<Region>,
    span: Region,
    block: Region,
)
    requires
        spans(new),
        0 <= m < new.len(),
        forall|a: int| #[trigger] free_at(new, a) ==> free_at(list, a) || holds(span, a),
        is_span(block),
        outside(list, block),
        apart(block, span),
    ensures
        apart(new[m], block),
{
    assert(is_span(new[m]));
    if !apart(new[m], block) {
        let a = if new[m].addr < block.addr {
            block.addr as int
        } else {
            new[m].addr as int
        };
        assert(holds(new[m], a) && holds(block, a));
        assert(free_at(new, a));
        if free_at(list, a) {
            let k = choose|k: int| 0 <= k < list.len() && holds(#[trigger] list[k], a);
            assert(apart(list[k], block));
        }
    }
}

/// Two blocks that are handed out one after the other do not overlap.
pub proof fn law_two_blocks_are_apart(
    list: Seq<Region>,
    align1: int,
    size1: int,
    align2: int,
    size2: int,
)
    requires
        spans(list),
        disjoint(list),
        0 < align1,
        0 < size1,
        0 < align2,
        0 < size2,
        first_fit(list, 0, align1, size1) is Some,
        first_fit(after_allocate(list, align1, size1), 0, align2, size2) is Some,
    ensures
        apart(
            block_of(list, align1, size1),
            block_of(after_allocate(list, align1, size1), align2, size2),
        ),
{
    law_allocated_blocks_are_apart(list, Seq::empty(), align1, size1);
    let one = Seq::empty().push(block_of(list, align1, size1));
    let new = after_allocate(list, align1, size1);
    law_allocated_blocks_are_apart(new, one, align2, size2);
    let two = one.push(block_of(new, align2, size2));
    assert(apart(two[0], two[1]));
}

proof fn lemma_has_neighbour(list: Seq<Region>, i: int, k: int, span: Region)
    requires
        0 <= i <= k < list.len(),
        before(list[k], span) || behind(list[k], span),
    ensures
        first_neighbour(list, i, span) is Some,
    decreases k - i,
{
    if i < k {
        lemma_has_neighbour(list, i + 1, k, span);
    }
}

/// Whether an aligned block of `size` bytes at `start` lies in a region.
pub open spec fn lies_in(r: Region, start: int, align: int, size: int) -> bool {
    &&& start % align == 0
    &&& r.addr <= start
    &&& start + size <= r.addr + r.size
}

/// An allocation succeeds if some region has an aligned block of the size in it.
/// The block is then in the first such region, as low in it as can be.
pub proof fn law_first_fit(list: Seq<Region>, align: int, size: int, i: int, start: int)
    requires
        0 < align,
        0 <= size,
        0 <= i < list.len(),
        lies_in(list[i], start, align, size),
    ensures
        ({
            let k = first_fit(list, 0, align, size)->0;
            let at = align_up(list[k].addr as int, align);
            &&& first_fit(list, 0, align, size) is Some
            &&& 0 <= k <= i
            &&& lies_in(list[k], at, align, size)
            &&& k == i ==> at <= start
            &&& forall|j: int, s: int|
                0 <= j < k ==> !#[trigger] lies_in(list[j], s, align, size)
        }),
{
    lemma_first_fit(list, 0, align, size);
    lemma_lowest_aligned(list[i].addr as int, align, start);
    assert(fits(list[i], align, size));
    let k = first_fit(list, 0, align, size)->0;
    lemma_align_up(list[k].addr as int, align);
    assert forall|j: int, s: int| 0 <= j < k implies !#[trigger] lies_in(
        list[j],
        s,
        align,
        size,
    ) by {
        if lies_in(list[j], s, align, size) {
            lemma_lowest_aligned(list[j].addr as int, align, s);
            assert(!fits(list[j], align, size));
        }
    }
}

/// No aligned address from `x` on is below the one that `align_up` gives.
proof fn lemma_lowest_aligned(x: int, align: int, s: int)
    requires
        0 <= x <= s,
        0 < align,
        s % align == 0,
    ensures
        align_up(x, align) <= s,
{
    lemma_align_up(x, align);
    let a = align_up(x, align);
    if s < a {
        lemma_fundamental_div_mod(a, align);
        lemma_fundamental_div_mod(s, align);
        assert(a - s < align);
        assert(a == align * (a / align) && s == align * (s / align));
        assert(a / align <= s / align) by (nonlinear_arith)
            requires
                align * (a / align) - align * (s / align) < align,
                0 < align,
        ;
        assert(align * (a / align) <= align * (s / align)) by (nonlinear_arith)
            requires
                a / align <= s / align,
                0 < align,
        ;
    }
}

/// Before its first use the whole heap is free, and nothing else is.
pub proof fn law_new_heap_is_free(h: HeapView, base: usize, a: int)
    requires
        !h.ready,
        base + HEAP_SIZE <= usize::MAX,
    ensures
        free_at(h.list_at(base), a) <==> base <= a < base + 0x400_0000,
        spans(h.list_at(base)),
        disjoint(h.list_at(base)),
{
    let list = h.list_at(base);
    assert(list[0] == (Region { addr: base, size: HEAP_SIZE }));
    if base <= a < base + 0x400_0000 {
        assert(holds(list[0], a));
    }
}

} // verus!
