//! Where the boot loader puts the kernel, and what it tells it.

use crate::align;
use crate::boot::device_tree::LoadError;
use crate::boot::kernel_image::KernelSegment;
use crate::kernel::boot_args::BootArgs;
use vstd::prelude::*;

verus! {

/// Bytes in a page.
pub const PAGE_SIZE: u64 = 4096;

/// Pages of the stack that the kernel starts on.
pub const STACK_PAGES: u64 = 16;

/// Bytes in a cache line.
pub const CACHE_LINE: u64 = 64;

/// A range of addresses.
#[derive(Clone, Copy, Debug, PartialEq, Eq, Structural)]
pub struct LoadRange {
    /// The first address.
    pub start: u64,
    /// The address after the last.
    pub end: u64,
}

/// `x` rounded down to a multiple of `PAGE_SIZE`.
pub open spec fn page_down(x: int) -> int {
    x / 0x1000 * 0x1000
}

/// The whole pages of a segment.
pub open spec fn pages_of(s: KernelSegment) -> LoadRange {
    LoadRange {
        start: page_down(s.vmaddr as int) as u64,
        end: align::page_up(s.vmaddr + s.vmsize) as u64,
    }
}

/// Whether the pages of a segment end inside the address space.
pub open spec fn pages_fit(s: KernelSegment) -> bool {
    s.vmaddr + s.vmsize + 0xfff <= u64::MAX
}

/// The segments that take up memory.
pub open spec fn in_memory(segs: Seq<KernelSegment>) -> Seq<KernelSegment> {
    segs.filter(|s: KernelSegment| s.vmsize != 0)
}

/// The page ranges of the segments that take up memory, in order.
pub open spec fn ranges_of(segs: Seq<KernelSegment>) -> Seq<LoadRange> {
    in_memory(segs).map_values(|s: KernelSegment| pages_of(s))
}

/// Whether an address lies in one of `rs`.
pub open spec fn covered(rs: Seq<LoadRange>, a: int) -> bool {
    exists|i: int| #![trigger rs[i]] 0 <= i < rs.len() && rs[i].start <= a < rs[i].end
}

/// Whether no range is empty.
pub open spec fn nonempty(rs: Seq<LoadRange>) -> bool {
    forall|i: int| #![trigger rs[i]] 0 <= i < rs.len() ==> rs[i].start < rs[i].end
}

/// Whether the ranges ascend, with a gap between any two.
pub open spec fn apart(rs: Seq<LoadRange>) -> bool {
    forall|i: int, j: int|
        #![trigger rs[i], rs[j]]
        0 <= i < j < rs.len() ==> rs[i].end < rs[j].start
}

/// Whether the ranges ascend by their first addresses.
pub open spec fn by_start(rs: Seq<LoadRange>) -> bool {
    forall|i: int, j: int|
        #![trigger rs[i], rs[j]]
        0 <= i <= j < rs.len() ==> rs[i].start <= rs[j].start
}

/// Whether the ranges are made of whole pages.
pub open spec fn whole_pages(rs: Seq<LoadRange>) -> bool {
    forall|i: int|
        #![trigger rs[i]]
        0 <= i < rs.len() ==> rs[i].start % 0x1000 == 0 && rs[i].end % 0x1000 == 0
}

/// Rounds down to a multiple of `PAGE_SIZE`.
fn align_down(x: u64) -> (r: u64)
    ensures
        r == page_down(x as int),
{
    x / PAGE_SIZE * PAGE_SIZE
}

/// The page ranges of the segments that take up memory.
pub fn load_ranges(segs: &Vec<KernelSegment>) -> (r: Result<Vec<LoadRange>, LoadError>)
    ensures
        match r {
            Ok(rs) => {
                &&& rs@ == ranges_of(segs@)
                &&& nonempty(rs@)
                &&& whole_pages(rs@)
                &&& forall|i: int|
                    0 <= i < segs@.len() && segs@[i].vmsize != 0 ==> pages_fit(#[trigger] segs@[i])
            },
            Err(_) => exists|i: int|
                #![trigger segs@[i]]
                0 <= i < segs@.len() && segs@[i].vmsize != 0 && !pages_fit(segs@[i]),
        },
{
    let mut out: Vec<LoadRange> = Vec::new();
    let mut i: usize = 0;
    assert(segs@.take(0) =~= Seq::empty());
    reveal(Seq::filter);
    while i < segs.len()
        invariant
            i <= segs@.len(),
            out@ == ranges_of(segs@.take(i as int)),
            nonempty(out@),
            whole_pages(out@),
            forall|k: int|
                0 <= k < i && segs@[k].vmsize != 0 ==> pages_fit(#[trigger] segs@[k]),
        decreases segs@.len() - i,
    {
        let s = &segs[i];
        proof {
            reveal(Seq::filter);
            assert(segs@.take(i + 1).drop_last() =~= segs@.take(i as int));
            assert(segs@.take(i + 1).last() == segs@[i as int]);
        }
        if s.vmsize != 0 {
            let start: u64 = align_down(s.vmaddr);
            let end: u64 = match s.vmaddr.checked_add(s.vmsize) {
                Some(e) => match align::page_align(e) {
                    Some(a) => a,
                    None => {
                        return Err(LoadError);
                    },
                },
                None => {
                    return Err(LoadError);
                },
            };
            let range = LoadRange { start, end };
            out.push(range);
            assert(range == pages_of(*s));
            assert(in_memory(segs@.take(i + 1)) =~= in_memory(segs@.take(i as int)).push(*s));
            assert(out@ =~= ranges_of(segs@.take(i + 1)));
        } else {
            assert(in_memory(segs@.take(i + 1)) =~= in_memory(segs@.take(i as int)));
        }
        i += 1;
    }
    assert(segs@.take(i as int) =~= segs@);
    Ok(out)
}

/// Where a range goes in `sorted`: behind those that do not start after it.
fn place(sorted: &Vec<LoadRange>, start: u64) -> (r: usize)
    requires
        by_start(sorted@),
    ensures
        r <= sorted@.len(),
        forall|k: int| 0 <= k < r ==> (#[trigger] sorted@[k]).start <= start,
        forall|k: int| r <= k < sorted@.len() ==> start < (#[trigger] sorted@[k]).start,
{
    let mut at: usize = 0;
    while at < sorted.len() && sorted[at].start <= start
        invariant
            at <= sorted@.len(),
            by_start(sorted@),
            forall|k: int| 0 <= k < at ==> (#[trigger] sorted@[k]).start <= start,
        decreases sorted@.len() - at,
    {
        at += 1;
    }
    at
}

/// The ranges in ascending order of their first addresses.
fn sort_ranges(ranges: &Vec<LoadRange>) -> (r: Vec<LoadRange>)
    requires
        nonempty(ranges@),
    ensures
        by_start(r@),
        nonempty(r@),
        whole_pages(ranges@) ==> whole_pages(r@),
        forall|a: int| covered(r@, a) == covered(ranges@, a),
{
    let mut out: Vec<LoadRange> = Vec::new();
    let mut i: usize = 0;
    while i < ranges.len()
        invariant
            i <= ranges@.len(),
            nonempty(ranges@),
            by_start(out@),
            nonempty(out@),
            whole_pages(ranges@) ==> whole_pages(out@),
            forall|a: int| covered(out@, a) == covered(ranges@.take(i as int), a),
        decreases ranges@.len() - i,
    {
        let at: usize = place(&out, ranges[i].start);
        let ghost before = out@;
        out.insert(at, ranges[i]);
        proof {
            assert forall|a: int| covered(out@, a) == covered(ranges@.take(i + 1), a) by {
                lemma_covered_insert(before, at as int, ranges@[i as int], a);
                lemma_covered_insert(ranges@.take(i as int), i as int, ranges@[i as int], a);
                assert(ranges@.take(i + 1) =~= ranges@.take(i as int).insert(
                    i as int,
                    ranges@[i as int],
                ));
                assert(covered(before, a) == covered(ranges@.take(i as int), a));
            }
        }
        i += 1;
    }
    assert(ranges@.take(i as int) =~= ranges@);
    out
}

/// One more range covers its own addresses and no others.
proof fn lemma_covered_insert(rs: Seq<LoadRange>, at: int, x: LoadRange, a: int)
    requires
        0 <= at <= rs.len(),
    ensures
        covered(rs.insert(at, x), a) == (covered(rs, a) || x.start <= a < x.end),
{
    let more = rs.insert(at, x);
    if covered(rs, a) {
        let i = choose|i: int| #![trigger rs[i]] 0 <= i < rs.len() && rs[i].start <= a < rs[i].end;
        let j = if i < at {
            i
        } else {
            i + 1
        };
        assert(more[j] == rs[i]);
    }
    if x.start <= a < x.end {
        assert(more[at] == x);
    }
    if covered(more, a) {
        let j = choose|j: int|
            #![trigger more[j]]
            0 <= j < more.len() && more[j].start <= a < more[j].end;
        if j < at {
            assert(more[j] == rs[j]);
        } else if j > at {
            assert(more[j] == rs[j - 1]);
        }
    }
}

/// A range that overlaps or touches the last one of `rs` and does not start
/// before it, drawn together with it, covers the same addresses.
proof fn lemma_covered_extend(rs: Seq<LoadRange>, x: LoadRange, end: u64, a: int)
    requires
        rs.len() > 0,
        rs.last().start <= x.start <= rs.last().end,
        x.start < x.end,
        end == if x.end > rs.last().end {
            x.end
        } else {
            rs.last().end
        },
    ensures
        covered(rs.update(rs.len() - 1, LoadRange { start: rs.last().start, end }), a) == (
        covered(rs, a) || x.start <= a < x.end),
{
    let last = rs.len() - 1;
    let wide = rs.update(last, LoadRange { start: rs.last().start, end });
    if covered(rs, a) {
        let i = choose|i: int| #![trigger rs[i]] 0 <= i < rs.len() && rs[i].start <= a < rs[i].end;
        assert(wide[i].start <= a < wide[i].end);
    }
    if x.start <= a < x.end {
        assert(wide[last].start <= a < wide[last].end);
    }
    if covered(wide, a) {
        let i = choose|i: int|
            #![trigger wide[i]]
            0 <= i < wide.len() && wide[i].start <= a < wide[i].end;
        if !(x.start <= a < x.end) {
            assert(rs[i].start <= a < rs[i].end);
        }
    }
}

/// Draws ranges together that overlap or touch. The result covers the same
/// addresses, in ascending ranges with a gap between any two: there is only one
/// way to do that.
pub fn merge_ranges(ranges: &Vec<LoadRange>) -> (r: Vec<LoadRange>)
    requires
        nonempty(ranges@),
    ensures
        nonempty(r@),
        apart(r@),
        whole_pages(ranges@) ==> whole_pages(r@),
        forall|a: int| covered(r@, a) == covered(ranges@, a),
{
    let sorted = sort_ranges(ranges);
    let mut out: Vec<LoadRange> = Vec::new();
    let mut i: usize = 0;
    while i < sorted.len()
        invariant
            i <= sorted@.len(),
            by_start(sorted@),
            nonempty(sorted@),
            nonempty(out@),
            apart(out@),
            whole_pages(sorted@) ==> whole_pages(out@),
            i == 0 ==> out@.len() == 0,
            out@.len() > 0 ==> i > 0 && out@.last().start <= sorted@[i - 1].start,
            forall|a: int| covered(out@, a) == covered(sorted@.take(i as int), a),
        decreases sorted@.len() - i,
    {
        let x = sorted[i];
        let ghost before = out@;
        let n: usize = out.len();
        if n > 0 && x.start <= out[n - 1].end {
            let end: u64 = if x.end > out[n - 1].end {
                x.end
            } else {
                out[n - 1].end
            };
            let start: u64 = out[n - 1].start;
            out.set(n - 1, LoadRange { start, end });
            proof {
                assert forall|a: int| covered(out@, a) == (covered(before, a) || x.start <= a
                    < x.end) by {
                    lemma_covered_extend(before, x, end, a);
                }
            }
        } else {
            out.push(x);
            proof {
                assert(out@ =~= before.insert(before.len() as int, x));
                assert forall|a: int| covered(out@, a) == (covered(before, a) || x.start <= a
                    < x.end) by {
                    lemma_covered_insert(before, before.len() as int, x, a);
                }
                assert(apart(out@)) by {
                    assert forall|k: int, j: int|
                        #![trigger out@[k], out@[j]]
                        0 <= k < j < out@.len() implies out@[k].end < out@[j].start by {
                        if j == n {
                            assert(before[n - 1].end < x.start);
                            assert(before[k].end <= before[n - 1].end) by {
                                if k < n - 1 {
                                    assert(before[k].end < before[n - 1].start);
                                }
                            }
                        }
                    }
                }
            }
        }
        proof {
            assert forall|a: int| covered(out@, a) == covered(sorted@.take(i + 1), a) by {
                lemma_covered_insert(sorted@.take(i as int), i as int, x, a);
                assert(sorted@.take(i + 1) =~= sorted@.take(i as int).insert(i as int, x));
                assert(covered(before, a) == covered(sorted@.take(i as int), a));
            }
        }
        i += 1;
    }
    assert(sorted@.take(i as int) =~= sorted@);
    out
}

/// Whether `pages` ascends.
pub open spec fn ascending(pages: Seq<u64>) -> bool {
    forall|i: int, j: int|
        #![trigger pages[i], pages[j]]
        0 <= i < j < pages.len() ==> pages[i] < pages[j]
}

/// The addresses of the pages to allocate for a kernel image: each page that a
/// segment touches, once, in ascending order.
pub fn allocation_pages(segs: &Vec<KernelSegment>) -> (r: Result<Vec<u64>, LoadError>)
    ensures
        match r {
            Ok(pages) => {
                &&& ascending(pages@)
                &&& forall|a: u64|
                    #![trigger pages@.contains(a)]
                    pages@.contains(a) <==> a % 0x1000 == 0 && covered(ranges_of(segs@), a as int)
                &&& forall|i: int|
                    0 <= i < segs@.len() && segs@[i].vmsize != 0 ==> pages_fit(#[trigger] segs@[i])
            },
            Err(_) => exists|i: int|
                #![trigger segs@[i]]
                0 <= i < segs@.len() && segs@[i].vmsize != 0 && !pages_fit(segs@[i]),
        },
{
    let ranges = match load_ranges(segs) {
        Ok(rs) => rs,
        Err(e) => {
            return Err(e);
        },
    };
    let merged = merge_ranges(&ranges);
    let pages = pages_in(&merged);
    proof {
        assert forall|a: u64| #![trigger pages@.contains(a)] pages@.contains(a) <==> a % 0x1000
            == 0 && covered(ranges_of(segs@), a as int) by {
            assert(covered(merged@, a as int) == covered(ranges@, a as int));
        }
    }
    Ok(pages)
}

/// The pages of ascending ranges.
fn pages_in(ranges: &Vec<LoadRange>) -> (r: Vec<u64>)
    requires
        nonempty(ranges@),
        apart(ranges@),
        whole_pages(ranges@),
    ensures
        ascending(r@),
        forall|a: u64|
            #![trigger r@.contains(a)]
            r@.contains(a) <==> a % 0x1000 == 0 && covered(ranges@, a as int),
{
    let mut out: Vec<u64> = Vec::new();
    let mut i: usize = 0;
    while i < ranges.len()
        invariant
            i <= ranges@.len(),
            nonempty(ranges@),
            apart(ranges@),
            whole_pages(ranges@),
            ascending(out@),
            i == 0 ==> out@.len() == 0,
            forall|k: int| 0 <= k < out@.len() ==> i > 0 && #[trigger] out@[k] < ranges@[i - 1].end,
            forall|a: u64|
                #![trigger out@.contains(a)]
                out@.contains(a) <==> a % 0x1000 == 0 && covered(ranges@.take(i as int), a as int),
        decreases ranges@.len() - i,
    {
        let range = ranges[i];
        let ghost before = out@;
        let mut cursor: u64 = range.start;
        proof {
            if i > 0 {
                assert(ranges@[i - 1].end < range.start);
            }
        }
        while cursor < range.end
            invariant
                range.start <= cursor <= range.end,
                cursor % 0x1000 == 0,
                range.end % 0x1000 == 0,
                ascending(out@),
                forall|k: int| 0 <= k < out@.len() ==> #[trigger] out@[k] < cursor,
                forall|a: u64|
                    #![trigger out@.contains(a)]
                    out@.contains(a) <==> before.contains(a) || (a % 0x1000 == 0 && range.start
                        <= a < cursor),
            decreases range.end - cursor,
        {
            let ghost prev = out@;
            out.push(cursor);
            proof {
                assert forall|a: u64| #![trigger out@.contains(a)] out@.contains(a) <==> (
                before.contains(a) || (a % 0x1000 == 0 && range.start <= a < cursor + 0x1000)) by {
                    if prev.contains(a) {
                        let k = choose|k: int| 0 <= k < prev.len() && prev[k] == a;
                        assert(out@[k] == a);
                    }
                    if a == cursor {
                        assert(out@[prev.len() as int] == a);
                    }
                    if out@.contains(a) && a != cursor {
                        let k = choose|k: int| 0 <= k < out@.len() && out@[k] == a;
                        assert(prev[k] == a);
                    }
                }
            }
            cursor = cursor + PAGE_SIZE;
        }
        proof {
            assert forall|a: u64| #![trigger out@.contains(a)] out@.contains(a) <==> a % 0x1000
                == 0 && covered(ranges@.take(i + 1), a as int) by {
                lemma_covered_insert(ranges@.take(i as int), i as int, range, a as int);
                assert(ranges@.take(i + 1) =~= ranges@.take(i as int).insert(i as int, range));
                assert(before.contains(a) <==> a % 0x1000 == 0 && covered(
                    ranges@.take(i as int),
                    a as int,
                ));
            }
        }
        i += 1;
    }
    assert(ranges@.take(i as int) =~= ranges@);
    out
}

/// Every byte of a segment lies in a page that is allocated for the image.
pub proof fn law_segments_are_allocated(segs: Seq<KernelSegment>, i: int, a: int)
    requires
        0 <= i < segs.len(),
        pages_fit(segs[i]),
        segs[i].vmaddr <= a < segs[i].vmaddr + segs[i].vmsize,
    ensures
        covered(ranges_of(segs), page_down(a)),
{
    let s = segs[i];
    let keep = |s: KernelSegment| s.vmsize != 0;
    broadcast use vstd::seq_lib::group_filter_ensures;

    assert(in_memory(segs).contains(s)) by {
        assert(segs.contains(s));
        assert(segs.filter(keep).contains(s));
    }
    let j = choose|j: int| 0 <= j < in_memory(segs).len() && in_memory(segs)[j] == s;
    assert(ranges_of(segs)[j] == pages_of(s));
}

/// Which segments have bytes to copy to their addresses: those with bytes in
/// the file.
pub fn copied_segments(segs: &Vec<KernelSegment>) -> (r: Vec<usize>)
    ensures
        ascending_indices(r@),
        forall|i: usize|
            #![trigger r@.contains(i)]
            r@.contains(i) <==> i < segs@.len() && segs@[i as int].filesize != 0,
{
    pick(segs, true)
}

/// Which segments have their memory made fit to run: those that take up any.
pub fn synced_segments(segs: &Vec<KernelSegment>) -> (r: Vec<usize>)
    ensures
        ascending_indices(r@),
        forall|i: usize|
            #![trigger r@.contains(i)]
            r@.contains(i) <==> i < segs@.len() && segs@[i as int].vmsize != 0,
{
    pick(segs, false)
}

/// Whether `v` ascends.
pub open spec fn ascending_indices(v: Seq<usize>) -> bool {
    forall|i: int, j: int| #![trigger v[i], v[j]] 0 <= i < j < v.len() ==> v[i] < v[j]
}

/// Whether a segment has bytes in the file, or else in memory.
spec fn has_bytes(s: KernelSegment, in_file: bool) -> bool {
    if in_file {
        s.filesize != 0
    } else {
        s.vmsize != 0
    }
}

/// The segments with bytes in the file, or else in memory.
fn pick(segs: &Vec<KernelSegment>, in_file: bool) -> (r: Vec<usize>)
    ensures
        ascending_indices(r@),
        forall|i: usize|
            #![trigger r@.contains(i)]
            r@.contains(i) <==> i < segs@.len() && has_bytes(segs@[i as int], in_file),
{
    let mut out: Vec<usize> = Vec::new();
    let mut i: usize = 0;
    while i < segs.len()
        invariant
            i <= segs@.len(),
            ascending_indices(out@),
            forall|k: int| 0 <= k < out@.len() ==> #[trigger] out@[k] < i,
            forall|k: usize|
                #![trigger out@.contains(k)]
                out@.contains(k) <==> k < i && has_bytes(segs@[k as int], in_file),
        decreases segs@.len() - i,
    {
        let size: u64 = if in_file {
            segs[i].filesize
        } else {
            segs[i].vmsize
        };
        let ghost before = out@;
        if size != 0 {
            out.push(i);
            proof {
                assert forall|k: usize| #![trigger out@.contains(k)] out@.contains(k) <==> k < i + 1
                    && has_bytes(segs@[k as int], in_file) by {
                    if before.contains(k) {
                        let j = choose|j: int| 0 <= j < before.len() && before[j] == k;
                        assert(out@[j] == k);
                    }
                    if k == i {
                        assert(out@[before.len() as int] == k);
                    }
                    if out@.contains(k) && k != i {
                        let j = choose|j: int| 0 <= j < out@.len() && out@[j] == k;
                        assert(before[j] == k);
                    }
                }
            }
        }
        i += 1;
    }
    out
}

/// The first address of the cache lines of a range of memory, and the address at
/// which they end.
pub fn cache_range(start: u64, len: u64) -> (r: (u64, u64))
    ensures
        r.0 == start / CACHE_LINE * CACHE_LINE,
        r.1 == if start + len > u64::MAX {
            u64::MAX as int
        } else {
            start + len
        },
{
    (start / CACHE_LINE * CACHE_LINE, start.saturating_add(len))
}

/// The cache line after that at `addr`.
pub fn next_cache_line(addr: u64) -> (r: u64)
    ensures
        r == if addr + CACHE_LINE > u64::MAX {
            u64::MAX as int
        } else {
            addr + CACHE_LINE
        },
{
    addr.saturating_add(CACHE_LINE)
}

/// The address after the last segment, 0 without any.
pub fn kernel_top(segs: &Vec<KernelSegment>) -> (r: Result<u64, LoadError>)
    ensures
        match r {
            Ok(top) => {
                &&& forall|i: int|
                    #![trigger segs@[i]]
                    0 <= i < segs@.len() ==> segs@[i].vmaddr + segs@[i].vmsize <= top
                &&& top == 0 || exists|i: int|
                    #![trigger segs@[i]]
                    0 <= i < segs@.len() && segs@[i].vmaddr + segs@[i].vmsize == top
            },
            Err(_) => exists|i: int|
                #![trigger segs@[i]]
                0 <= i < segs@.len() && segs@[i].vmaddr + segs@[i].vmsize > u64::MAX,
        },
{
    let mut top: u64 = 0;
    let mut i: usize = 0;
    while i < segs.len()
        invariant
            i <= segs@.len(),
            forall|k: int|
                #![trigger segs@[k]]
                0 <= k < i ==> segs@[k].vmaddr + segs@[k].vmsize <= top,
            top == 0 || exists|k: int|
                #![trigger segs@[k]]
                0 <= k < i && segs@[k].vmaddr + segs@[k].vmsize == top,
        decreases segs@.len() - i,
    {
        let end: u64 = match segs[i].vmaddr.checked_add(segs[i].vmsize) {
            Some(e) => e,
            None => {
                return Err(LoadError);
            },
        };
        if end > top {
            top = end;
        }
        i += 1;
    }
    Ok(top)
}

/// The top of a stack that starts at `base`.
pub fn stack_top(base: u64) -> (r: Result<u64, LoadError>)
    ensures
        match r {
            Ok(top) => top == base + 0x1_0000,
            Err(_) => base + 0x1_0000 > u64::MAX,
        },
{
    match base.checked_add(STACK_PAGES * PAGE_SIZE) {
        Some(top) => Ok(top),
        None => Err(LoadError),
    }
}

/// An entry of the firmware's memory map.
#[derive(Clone, Copy, Debug, PartialEq, Eq, Structural)]
pub struct MemoryDescriptor {
    /// The first address.
    pub phys_start: u64,
    /// How many pages.
    pub page_count: u64,
}

/// The address after an entry of the memory map.
pub open spec fn descriptor_end(d: MemoryDescriptor) -> int {
    d.phys_start + d.page_count * 0x1000
}

/// Whether `base` is where the entries start and `end` where they end.
pub open spec fn is_extent(map: Seq<MemoryDescriptor>, base: int, end: int) -> bool {
    &&& forall|i: int|
        #![trigger map[i]]
        0 <= i < map.len() ==> base <= map[i].phys_start && descriptor_end(map[i]) <= end
    &&& exists|i: int| #![trigger map[i]] 0 <= i < map.len() && map[i].phys_start == base
    &&& exists|i: int| #![trigger map[i]] 0 <= i < map.len() && descriptor_end(map[i]) == end
}

/// Whether an entry of the memory map leaves the address space.
pub open spec fn map_overflows(map: Seq<MemoryDescriptor>) -> bool {
    exists|i: int|
        #![trigger map[i]]
        0 <= i < map.len() && (map[i].page_count * 0x1000 > u64::MAX || descriptor_end(map[i])
            > u64::MAX)
}

/// Where memory starts and how large it is, holes and all. There has to be some.
pub fn memory_extent(map: &Vec<MemoryDescriptor>) -> (r: Result<(u64, u64), LoadError>)
    ensures
        match r {
            Ok((base, size)) => {
                &&& !map_overflows(map@)
                &&& is_extent(map@, base as int, base + size)
                &&& size > 0
            },
            Err(_) => map_overflows(map@) || forall|base: int, end: int| #[trigger]
                is_extent(map@, base, end) ==> end <= base,
        },
{
    let mut min: u64 = u64::MAX;
    let mut max: u64 = 0;
    let mut i: usize = 0;
    while i < map.len()
        invariant
            i <= map@.len(),
            forall|k: int|
                #![trigger map@[k]]
                0 <= k < i ==> min <= map@[k].phys_start && descriptor_end(map@[k]) <= max,
            min == u64::MAX || exists|k: int|
                #![trigger map@[k]]
                0 <= k < i && map@[k].phys_start == min,
            max == 0 || exists|k: int|
                #![trigger map@[k]]
                0 <= k < i && descriptor_end(map@[k]) == max,
            forall|k: int|
                #![trigger map@[k]]
                0 <= k < i ==> map@[k].page_count * 0x1000 <= u64::MAX,
        decreases map@.len() - i,
    {
        let start: u64 = map[i].phys_start;
        let size: u64 = match map[i].page_count.checked_mul(PAGE_SIZE) {
            Some(s) => s,
            None => {
                return Err(LoadError);
            },
        };
        let end: u64 = match start.checked_add(size) {
            Some(e) => e,
            None => {
                return Err(LoadError);
            },
        };
        if start < min {
            min = start;
        }
        if end > max {
            max = end;
        }
        i += 1;
    }
    if min == u64::MAX || max <= min {
        return Err(LoadError);
    }
    Ok((min, max - min))
}

/// The arguments of the kernel.
pub fn fill_boot_args(
    map: &Vec<MemoryDescriptor>,
    top_of_kernel_data: u64,
    device_tree_p: u64,
    device_tree_length: u32,
) -> (r: Result<BootArgs, LoadError>)
    ensures
        match r {
            Ok(args) => {
                &&& !map_overflows(map@)
                &&& is_extent(map@, args.phys_base as int, args.phys_base + args.mem_size)
                &&& args.mem_size > 0
                &&& args.mem_size_actual == args.mem_size
                &&& args.top_of_kernel_data == top_of_kernel_data
                &&& args.device_tree_p == device_tree_p
                &&& args.device_tree_length == device_tree_length
                &&& (BootArgs {
                    phys_base: 0,
                    mem_size: 0,
                    mem_size_actual: 0,
                    top_of_kernel_data: 0,
                    device_tree_p: 0,
                    device_tree_length: 0,
                    ..args
                }).is_zeroed()
            },
            Err(_) => map_overflows(map@) || forall|base: int, end: int| #[trigger]
                is_extent(map@, base, end) ==> end <= base,
        },
{
    let (phys_base, mem_size_actual) = match memory_extent(map) {
        Ok(e) => e,
        Err(e) => {
            return Err(e);
        },
    };
    let mut args = BootArgs::zeroed();
    args.phys_base = phys_base;
    args.mem_size = mem_size_actual;
    args.mem_size_actual = mem_size_actual;
    args.top_of_kernel_data = top_of_kernel_data;
    args.device_tree_p = device_tree_p;
    args.device_tree_length = device_tree_length;
    Ok(args)
}

} // verus!
