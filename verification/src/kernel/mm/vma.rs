//! The areas of an address space.

use vstd::prelude::*;

verus! {

/// The area can be read.
pub const PROT_READ: u32 = 1;

/// The area can be written.
pub const PROT_WRITE: u32 = 2;

/// The area can be executed.
pub const PROT_EXEC: u32 = 4;

/// An area of an address space.
#[derive(Clone, Copy, Debug, PartialEq, Eq, Structural)]
pub struct Vma {
    /// The first address.
    pub start: u64,
    /// The address after the last.
    pub end: u64,
    /// What can be done with it.
    pub prot: u32,
}

/// The areas of an address space, in ascending order of their first addresses.
pub struct VmaList(Vec<Vma>);

impl View for VmaList {
    type V = Seq<Vma>;

    closed spec fn view(&self) -> Seq<Vma> {
        self.0@
    }
}

/// Whether the areas ascend by their first addresses.
pub open spec fn sorted(list: Seq<Vma>) -> bool {
    forall|i: int, j: int|
        #![trigger list[i], list[j]]
        0 <= i <= j < list.len() ==> list[i].start <= list[j].start
}

/// How many areas, from the first on, start at `va` or below.
pub open spec fn not_above(list: Seq<Vma>, va: u64) -> int
    decreases list.len(),
{
    if list.len() == 0 || list[0].start > va {
        0
    } else {
        1 + not_above(list.drop_first(), va)
    }
}

/// The last area that starts at `va` or below, if it reaches beyond `va`.
pub open spec fn area_at(list: Seq<Vma>, va: u64) -> Option<Vma> {
    let n = not_above(list, va);
    if n > 0 && va < list[n - 1].end {
        Some(list[n - 1])
    } else {
        None
    }
}

/// Whether an area holds an address.
pub open spec fn holds(v: Vma, va: u64) -> bool {
    v.start <= va < v.end
}

/// Whether an area ends before `start..end` or starts behind it.
pub open spec fn clear_of(v: Vma, start: u64, end: u64) -> bool {
    v.end <= start || v.start >= end
}

/// The areas that keep clear of a range.
pub open spec fn without(list: Seq<Vma>, start: u64, end: u64) -> Seq<Vma> {
    list.filter(|v: Vma| clear_of(v, start, end))
}

/// What `not_above` is, said without recursion.
proof fn lemma_not_above(list: Seq<Vma>, va: u64)
    ensures
        0 <= not_above(list, va) <= list.len(),
        forall|k: int| 0 <= k < not_above(list, va) ==> (#[trigger] list[k]).start <= va,
        not_above(list, va) < list.len() ==> list[not_above(list, va)].start > va,
    decreases list.len(),
{
    if list.len() > 0 && list[0].start <= va {
        lemma_not_above(list.drop_first(), va);
        assert forall|k: int| 0 <= k < not_above(list, va) implies (#[trigger] list[k]).start
            <= va by {
            if k > 0 {
                assert(list.drop_first()[k - 1] == list[k]);
            }
        }
    }
}

proof fn lemma_not_above_unique(list: Seq<Vma>, va: u64, n: int)
    requires
        0 <= n <= list.len(),
        forall|k: int| 0 <= k < n ==> (#[trigger] list[k]).start <= va,
        n < list.len() ==> list[n].start > va,
    ensures
        not_above(list, va) == n,
{
    lemma_not_above(list, va);
    let m = not_above(list, va);
    if m < n {
        assert(list[m].start <= va);
    }
    if n < m {
        assert(list[n].start <= va);
    }
}

impl Default for VmaList {
    fn default() -> (r: Self)
        ensures
            r@ == Seq::<Vma>::empty(),
    {
        Self::new()
    }
}

impl VmaList {
    /// A list without areas.
    #[must_use]
    pub fn new() -> (r: Self)
        ensures
            r@ == Seq::<Vma>::empty(),
    {
        VmaList(Vec::new())
    }

    /// How many areas start at `va` or below.
    fn partition_point(&self, va: u64) -> (r: usize)
        requires
            sorted(self@),
        ensures
            r == not_above(self@, va),
            r <= self@.len(),
    {
        let mut low: usize = 0;
        let mut high: usize = self.0.len();
        while low < high
            invariant
                low <= high <= self@.len(),
                sorted(self@),
                forall|k: int| 0 <= k < low ==> (#[trigger] self@[k]).start <= va,
                forall|k: int| high <= k < self@.len() ==> (#[trigger] self@[k]).start > va,
            decreases high - low,
        {
            let mid: usize = low + (high - low) / 2;
            if self.0[mid].start <= va {
                low = mid + 1;
            } else {
                high = mid;
            }
        }
        proof {
            lemma_not_above_unique(self@, va, low as int);
        }
        low
    }

    /// Adds an area, behind those that do not start above it.
    pub fn insert(&mut self, vma: Vma)
        requires
            sorted(old(self)@),
        ensures
            sorted(final(self)@),
            final(self)@ == old(self)@.insert(not_above(old(self)@, vma.start), vma),
    {
        proof {
            lemma_not_above(self@, vma.start);
        }
        let at: usize = self.partition_point(vma.start);
        self.0.insert(at, vma);
    }

    /// The area that holds `va`: the last that starts at `va` or below, if it
    /// reaches beyond.
    #[must_use]
    pub fn find(&self, va: u64) -> (r: Option<&Vma>)
        requires
            sorted(self@),
        ensures
            match r {
                Some(v) => area_at(self@, va) == Some(*v),
                None => area_at(self@, va) is None,
            },
    {
        let idx: usize = self.partition_point(va);
        if idx == 0 {
            return None;
        }
        let vma = &self.0[idx - 1];
        if va < vma.end {
            Some(vma)
        } else {
            None
        }
    }

    /// Drops the areas that reach into `start..end`.
    pub fn remove_range(&mut self, start: u64, end: u64)
        requires
            sorted(old(self)@),
        ensures
            sorted(final(self)@),
            final(self)@ == without(old(self)@, start, end),
    {
        let mut kept: Vec<Vma> = Vec::new();
        let mut i: usize = 0;
        assert(self@.take(0) =~= Seq::empty());
        proof {
            reveal(Seq::filter);
        }
        while i < self.0.len()
            invariant
                i <= self@.len(),
                *self == *old(self),
                sorted(self@),
                sorted(kept@),
                kept@ == without(self@.take(i as int), start, end),
                forall|k: int| #![trigger kept@[k]]
                    0 <= k < kept@.len() ==> i > 0 && kept@[k].start <= self@[i - 1].start,
            decreases self@.len() - i,
        {
            let v = self.0[i];
            proof {
                reveal(Seq::filter);
                assert(self@.take(i + 1).drop_last() =~= self@.take(i as int));
                assert(self@.take(i + 1).last() == v);
                if i > 0 {
                    assert(self@[i - 1].start <= self@[i as int].start);
                }
            }
            if v.end <= start || v.start >= end {
                kept.push(v);
            }
            i += 1;
        }
        assert(self@.take(i as int) =~= self@);
        self.0 = kept;
    }
}

/// Among areas that do not overlap, the one that is found for an address is the
/// one that holds it.
pub proof fn law_find_is_exact(list: Seq<Vma>, va: u64)
    requires
        sorted(list),
        forall|i: int, j: int|
            #![trigger list[i], list[j]]
            0 <= i < j < list.len() ==> list[i].end <= list[j].start,
    ensures
        match area_at(list, va) {
            Some(v) => list.contains(v) && holds(v, va),
            None => forall|v: Vma| #[trigger] list.contains(v) ==> !holds(v, va),
        },
{
    lemma_not_above(list, va);
    let n = not_above(list, va);
    if area_at(list, va) is None {
        assert forall|v: Vma| #[trigger] list.contains(v) implies !holds(v, va) by {
            let i = choose|i: int| 0 <= i < list.len() && list[i] == v;
            if i < n - 1 {
                assert(list[i].end <= list[n - 1].start);
                assert(list[n - 1].start <= va);
            } else if i >= n {
                assert(list[n].start <= list[i].start);
            }
        }
    }
}

/// An area is found by each of its addresses after it has been added, unless
/// another area starts inside it or at it.
pub proof fn law_inserted_area_is_found(list: Seq<Vma>, vma: Vma, va: u64)
    requires
        sorted(list),
        holds(vma, va),
        forall|i: int|
            0 <= i < list.len() ==> !(vma.start < (#[trigger] list[i]).start < vma.end),
    ensures
        area_at(list.insert(not_above(list, vma.start), vma), va) == Some(vma),
{
    lemma_not_above(list, vma.start);
    let n = not_above(list, vma.start);
    let new = list.insert(n, vma);
    if n < list.len() {
        assert(list[n].start >= vma.end);
        assert(new[n + 1] == list[n]);
    }
    assert forall|k: int| 0 <= k < n + 1 implies (#[trigger] new[k]).start <= va by {
        if k < n {
            assert(new[k] == list[k]);
        }
    }
    lemma_not_above_unique(new, va, n + 1);
}

/// No area reaches into a range that has been removed, and the others are still
/// there.
pub proof fn law_removed_range_is_clear(list: Seq<Vma>, start: u64, end: u64, v: Vma)
    ensures
        without(list, start, end).contains(v) <==> list.contains(v) && clear_of(v, start, end),
{
    let keep = |v: Vma| clear_of(v, start, end);
    broadcast use vstd::seq_lib::group_filter_ensures;

    let kept = list.filter(keep);
    if list.contains(v) && clear_of(v, start, end) {
        let i = choose|i: int| 0 <= i < list.len() && list[i] == v;
        assert(kept.contains(list[i]));
    }
    if kept.contains(v) {
        let i = choose|i: int| 0 <= i < kept.len() && kept[i] == v;
        assert(keep(kept[i]));
        lemma_kept(list, start, end, v);
    }
}

proof fn lemma_kept(list: Seq<Vma>, start: u64, end: u64, v: Vma)
    requires
        without(list, start, end).contains(v),
    ensures
        list.contains(v),
    decreases list.len(),
{
    reveal(Seq::filter);
    let kept = without(list, start, end);
    let i = choose|i: int| 0 <= i < kept.len() && kept[i] == v;
    if list.len() > 0 {
        let rest = without(list.drop_last(), start, end);
        if i < rest.len() {
            assert(rest[i] == v);
            lemma_kept(list.drop_last(), start, end, v);
            let j = choose|j: int| 0 <= j < list.len() - 1 && list.drop_last()[j] == v;
            assert(list[j] == v);
        } else {
            assert(list[list.len() - 1] == v);
        }
    }
}

} // verus!
