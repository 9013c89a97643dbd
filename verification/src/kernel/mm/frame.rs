//! The allocator of physical page frames.

use crate::bits;
use vstd::prelude::*;

verus! {

/// Bytes of a frame.
pub const PAGE_SIZE: u64 = 4096;

/// How many frames the allocator keeps track of: 256 MiB.
pub const MAX_FRAMES: usize = 65536;

/// Words of the bitmap.
pub const WORDS: usize = 1024;

/// Which frames are free: a set bit is a free frame.
pub struct FrameAllocator {
    bitmap: [u64; WORDS],
    phys_base: u64,
    frame_count: u64,
}

/// What a `FrameAllocator` says.
#[verifier::ext_equal]
pub struct Frames {
    /// The address of the first frame.
    pub base: int,
    /// How many frames there are.
    pub count: int,
    /// The numbers of the free frames.
    pub free: Set<int>,
}

impl Frames {
    /// Whether every frame has an address.
    pub open spec fn wf(self) -> bool {
        &&& 0 <= self.count <= MAX_FRAMES
        &&& 0 <= self.base
        &&& self.base + self.count * 4096 <= u64::MAX
    }

    /// The first free frame from `i` on.
    pub open spec fn first_free(self, i: int) -> Option<int>
        decreases self.count - i,
    {
        if i >= self.count {
            None
        } else if self.free.contains(i) {
            Some(i)
        } else {
            self.first_free(i + 1)
        }
    }

    /// The address of the first free frame, and what is left without it.
    pub open spec fn take(self) -> Option<(int, Frames)> {
        match self.first_free(0) {
            Some(f) => Some(
                (self.base + f * 4096, Frames { free: self.free.remove(f), ..self }),
            ),
            None => None,
        }
    }

    /// What is left after `n` frames were asked for.
    pub open spec fn after(self, n: nat) -> Frames
        decreases n,
    {
        if n == 0 {
            self
        } else {
            match self.take() {
                Some((pa, rest)) => rest.after((n - 1) as nat),
                None => self.after((n - 1) as nat),
            }
        }
    }

    /// The addresses of the frames that come out when `n` frames are asked for.
    pub open spec fn handed_out(self, n: nat) -> Seq<int>
        decreases n,
    {
        if n == 0 {
            Seq::empty()
        } else {
            match self.take() {
                Some((pa, rest)) => seq![pa] + rest.handed_out((n - 1) as nat),
                None => self.handed_out((n - 1) as nat),
            }
        }
    }

    /// These frames and the one that holds `pa`, if there is one.
    pub open spec fn give(self, pa: int) -> Frames {
        let f = (pa - self.base) / 4096;
        if self.base <= pa && f < self.count {
            Frames { free: self.free.insert(f), ..self }
        } else {
            self
        }
    }
}

/// What `first_free` is, said without recursion.
pub proof fn lemma_first_free(a: Frames, i: int)
    requires
        0 <= i,
    ensures
        match a.first_free(i) {
            Some(f) => i <= f < a.count && a.free.contains(f) && forall|k: int|
                i <= k < f ==> !#[trigger] a.free.contains(k),
            None => forall|k: int| i <= k < a.count ==> !#[trigger] a.free.contains(k),
        },
    decreases a.count - i,
{
    if i < a.count && !a.free.contains(i) {
        lemma_first_free(a, i + 1);
    }
}

impl View for FrameAllocator {
    type V = Frames;

    closed spec fn view(&self) -> Frames {
        Frames {
            base: self.phys_base as int,
            count: self.frame_count as int,
            free: Set::new(|i: int| self.is_free(i)),
        }
    }
}

impl FrameAllocator {
    spec fn is_free(self, i: int) -> bool {
        0 <= i < MAX_FRAMES && bits::bit64(self.bitmap@[i / 64], i % 64)
    }

    /// An allocator without frames.
    #[must_use]
    pub fn new() -> (r: Self)
        ensures
            r@ == (Frames { base: 0, count: 0, free: Set::empty() }),
    {
        let r = FrameAllocator { bitmap: [0u64;WORDS], phys_base: 0, frame_count: 0 };
        proof {
            bits::lemma_zero64(0);
            assert(r@.free =~= Set::empty());
        }
        r
    }
}

/// How many frames of the memory there are.
pub open spec fn frames_in(mem_size: int) -> int {
    if mem_size / 4096 > MAX_FRAMES {
        MAX_FRAMES as int
    } else {
        mem_size / 4096
    }
}

/// The frame that holds an address, the first one for an address below.
pub open spec fn frame_index_of(base: int, pa: int) -> int {
    if pa <= base {
        0
    } else {
        (pa - base) / 4096
    }
}

/// The first frame that starts at an address or behind it.
pub open spec fn frame_index_ceil_of(base: int, pa: int) -> int {
    if pa <= base {
        0
    } else {
        (pa - base + 4095) / 4096
    }
}

/// Whether frame `i` holds a part of the kernel.
pub open spec fn in_kernel(base: int, kernel_start: int, kernel_end: int, i: int) -> bool {
    &&& kernel_start < kernel_end
    &&& frame_index_of(base, kernel_start) <= i
    &&& i < frame_index_ceil_of(base, kernel_end)
}

/// The frame that holds an address.
fn frame_index(base: u64, pa: u64) -> (r: u64)
    ensures
        r == frame_index_of(base as int, pa as int),
{
    if pa <= base {
        0
    } else {
        (pa - base) / PAGE_SIZE
    }
}

/// The first frame that starts at an address or behind it.
fn frame_index_ceil(base: u64, pa: u64) -> (r: u64)
    ensures
        r == frame_index_ceil_of(base as int, pa as int),
{
    if pa <= base {
        0
    } else {
        let span: u64 = pa - base;
        if span % PAGE_SIZE == 0 {
            span / PAGE_SIZE
        } else {
            span / PAGE_SIZE + 1
        }
    }
}

/// Marks a frame free or used.
fn set_bit(a: &mut FrameAllocator, index: usize, free: bool)
    requires
        index < MAX_FRAMES,
    ensures
        final(a)@ == (Frames {
            free: if free {
                old(a)@.free.insert(index as int)
            } else {
                old(a)@.free.remove(index as int)
            },
            ..old(a)@
        }),
{
    let word: usize = index / 64;
    let bit: u32 = (index % 64) as u32;
    let m: u64 = a.bitmap[word];
    if free {
        a.bitmap[word] = m | (1u64 << bit);
    } else {
        a.bitmap[word] = m & !(1u64 << bit);
    }
    proof {
        assert forall|i: int|
            #![trigger a.is_free(i)]
            a.is_free(i) == if i == index {
                free
            } else {
                old(a).is_free(i)
            } by {
            if 0 <= i < MAX_FRAMES && i / 64 == word {
                bits::lemma_mask64(m, bit, (i % 64) as u32);
            }
        }
        if free {
            assert(a@.free =~= old(a)@.free.insert(index as int));
        } else {
            assert(a@.free =~= old(a)@.free.remove(index as int));
        }
    }
}

/// Sets the allocator up: all frames of the memory are free but those of the
/// kernel. Bits of frames that there are none of stay as they are.
pub fn init(
    a: &mut FrameAllocator,
    phys_base: u64,
    mem_size: u64,
    kernel_start: u64,
    kernel_end: u64,
)
    requires
        phys_base + frames_in(mem_size as int) * 4096 <= u64::MAX,
    ensures
        final(a)@.wf(),
        final(a)@.base == phys_base,
        final(a)@.count == frames_in(mem_size as int),
        forall|i: int|
            #![trigger final(a)@.free.contains(i)]
            final(a)@.free.contains(i) == if 0 <= i < frames_in(mem_size as int) {
                !in_kernel(phys_base as int, kernel_start as int, kernel_end as int, i)
            } else {
                old(a)@.free.contains(i)
            },
{
    a.phys_base = phys_base;
    let total: u64 = mem_size / PAGE_SIZE;
    let clamped: usize = if total > MAX_FRAMES as u64 {
        MAX_FRAMES
    } else {
        total as usize
    };
    a.frame_count = clamped as u64;
    assert(a@.free =~= old(a)@.free);
    let mut i: usize = 0;
    while i < clamped
        invariant
            i <= clamped <= MAX_FRAMES,
            a@.base == phys_base,
            a@.count == clamped,
            forall|k: int|
                #![trigger a@.free.contains(k)]
                a@.free.contains(k) == (0 <= k < i || old(a)@.free.contains(k)),
        decreases clamped - i,
    {
        set_bit(a, i, true);
        i += 1;
    }
    if kernel_end > kernel_start {
        let ks: u64 = frame_index(phys_base, kernel_start);
        let ke: u64 = frame_index_ceil(phys_base, kernel_end);
        let mut k: u64 = ks;
        while k < ke && k < clamped as u64
            invariant
                ks <= k,
                k <= ke || k == ks,
                clamped <= MAX_FRAMES,
                a@.base == phys_base,
                a@.count == clamped,
                forall|j: int|
                    #![trigger a@.free.contains(j)]
                    a@.free.contains(j) == if 0 <= j < clamped {
                        !(ks <= j < k)
                    } else {
                        old(a)@.free.contains(j)
                    },
            decreases ke - k,
        {
            set_bit(a, k as usize, false);
            k += 1;
        }
    }
}

/// Takes the first free frame: its address.
pub fn alloc_frame(a: &mut FrameAllocator) -> (r: Option<u64>)
    requires
        old(a)@.wf(),
    ensures
        match old(a)@.take() {
            Some((pa, rest)) => r matches Some(p) && p == pa && final(a)@ == rest,
            None => r is None && final(a)@ == old(a)@,
        },
{
    let count: usize = a.frame_count as usize;
    let words: usize = if count % 64 == 0 {
        count / 64
    } else {
        count / 64 + 1
    };
    proof {
        lemma_first_free(a@, 0);
    }
    let mut w: usize = 0;
    while w < words
        invariant
            w <= words <= WORDS,
            words * 64 < count + 64,
            words * 64 >= count,
            a@.wf(),
            a@.count == count,
            *a == *old(a),
            forall|i: int| 0 <= i < w * 64 ==> !#[trigger] a@.free.contains(i),
        decreases words - w,
    {
        let val: u64 = a.bitmap[w];
        let bit: u32 = bits::lowest_set64(val);
        proof {
            assert forall|i: int| w * 64 <= i < w * 64 + bit implies !#[trigger] a@.free.contains(
                i,
            ) by {
                assert(i / 64 == w && i % 64 == i - w * 64);
                assert(!a.is_free(i));
            }
        }
        if bit < 64 {
            let frame: usize = w * 64 + bit as usize;
            proof {
                assert(frame as int / 64 == w && frame as int % 64 == bit);
                assert(a.is_free(frame as int));
                assert(a@.free.contains(frame as int));
                lemma_first_free(a@, 0);
            }
            if frame < count {
                assert(a@.first_free(0) == Some(frame as int));
                set_bit(a, frame, false);
                return Some(a.phys_base + (frame as u64) * PAGE_SIZE);
            }
            return None;
        }
        w += 1;
    }
    None
}

/// Gives the frame that holds an address back. An address outside the memory is
/// passed over.
pub fn free_frame(a: &mut FrameAllocator, pa: u64)
    requires
        old(a)@.wf(),
    ensures
        final(a)@ == old(a)@.give(pa as int),
{
    let base: u64 = a.phys_base;
    if pa < base {
        return;
    }
    let idx: u64 = (pa - base) / PAGE_SIZE;
    if idx < a.frame_count {
        set_bit(a, idx as usize, true);
    }
}

/// A frame that has a byte of the kernel in it is not free once the allocator is
/// set up.
pub proof fn law_kernel_frames_are_reserved(
    base: int,
    kernel_start: int,
    kernel_end: int,
    i: int,
    pa: int,
)
    requires
        0 <= i,
        kernel_start <= pa < kernel_end,
        base + i * 4096 <= pa < base + (i + 1) * 4096,
    ensures
        in_kernel(base, kernel_start, kernel_end, i),
{
}

/// A frame that is taken was free, lies in the memory and is not free any more.
pub proof fn law_taken_frame_was_free(a: Frames)
    requires
        a.wf(),
        a.take() is Some,
    ensures
        ({
            let (pa, rest) = a.take()->0;
            let f = (pa - a.base) / 4096;
            &&& (pa - a.base) % 4096 == 0
            &&& 0 <= f < a.count
            &&& a.free.contains(f)
            &&& !rest.free.contains(f)
            &&& rest.wf()
        }),
{
    lemma_first_free(a, 0);
}

/// Taking a frame and giving it back leaves the same frames free.
pub proof fn law_give_undoes_take(a: Frames)
    requires
        a.wf(),
        a.take() is Some,
    ensures
        ({
            let (pa, rest) = a.take()->0;
            rest.give(pa) == a
        }),
{
    lemma_first_free(a, 0);
    let (pa, rest) = a.take()->0;
    assert(rest.give(pa).free =~= a.free);
}

/// What comes out of an allocator without a free frame below frame `i`.
proof fn lemma_handed_out(a: Frames, i: int, n: nat)
    requires
        a.wf(),
        0 <= i,
        forall|k: int| 0 <= k < i ==> !#[trigger] a.free.contains(k),
    ensures
        a.handed_out(n).len() <= n,
        forall|x: int|
            0 <= x < a.handed_out(n).len() ==> {
                let f = (#[trigger] a.handed_out(n)[x] - a.base) / 4096;
                &&& a.handed_out(n)[x] == a.base + f * 4096
                &&& i <= f < a.count
                &&& a.free.contains(f)
            },
        forall|x: int, y: int|
            #![trigger a.handed_out(n)[x], a.handed_out(n)[y]]
            0 <= x < y < a.handed_out(n).len() ==> a.handed_out(n)[x] < a.handed_out(n)[y],
        n >= a.count - i ==> forall|f: int|
            i <= f < a.count && #[trigger] a.free.contains(f) ==> a.handed_out(n).contains(
                a.base + f * 4096,
            ),
        n >= a.count - i ==> a.after(n).take() is None,
        a.after(n).wf(),
    decreases n,
{
    lemma_first_free(a, 0);
    let out = a.handed_out(n);
    if n > 0 {
        match a.first_free(0) {
            None => {
                lemma_handed_out(a, a.count, (n - 1) as nat);
            },
            Some(f0) => {
                let (pa, rest) = a.take()->0;
                assert(i <= f0);
                assert forall|k: int| 0 <= k < f0 + 1 implies !#[trigger] rest.free.contains(k) by {
                    assert(k < f0 ==> !a.free.contains(k));
                }
                lemma_handed_out(rest, f0 + 1, (n - 1) as nat);
                let tail = rest.handed_out((n - 1) as nat);
                assert(out =~= seq![pa] + tail);
                assert forall|x: int| 0 <= x < out.len() implies {
                    let f = (#[trigger] out[x] - a.base) / 4096;
                    &&& out[x] == a.base + f * 4096
                    &&& i <= f < a.count
                    &&& a.free.contains(f)
                    &&& x > 0 ==> f > f0
                } by {
                    if x > 0 {
                        assert(out[x] == tail[x - 1]);
                        let f = (tail[x - 1] - a.base) / 4096;
                        assert(rest.free.contains(f));
                    }
                }
                assert forall|x: int, y: int|
                    #![trigger out[x], out[y]]
                    0 <= x < y < out.len() implies out[x] < out[y] by {
                    if x > 0 {
                        assert(out[x] == tail[x - 1] && out[y] == tail[y - 1]);
                    }
                }
                if n >= a.count - i {
                    assert forall|f: int|
                        i <= f < a.count && #[trigger] a.free.contains(f) implies out.contains(
                        a.base + f * 4096,
                    ) by {
                        if f == f0 {
                            assert(out[0] == pa);
                        } else {
                            assert(rest.free.contains(f));
                            let x = choose|x: int|
                                0 <= x < tail.len() && tail[x] == a.base + f * 4096;
                            assert(out[x + 1] == a.base + f * 4096);
                        }
                    }
                }
            },
        }
    }
}

/// Frames come out once each and in ascending order. Asked for often enough,
/// every free frame comes out, and then none is left.
pub proof fn law_frames_come_out_in_order(a: Frames, n: nat)
    requires
        a.wf(),
    ensures
        a.handed_out(n).len() <= n,
        forall|x: int, y: int|
            #![trigger a.handed_out(n)[x], a.handed_out(n)[y]]
            0 <= x < y < a.handed_out(n).len() ==> a.handed_out(n)[x] < a.handed_out(n)[y],
        a.handed_out(n).no_duplicates(),
        forall|x: int|
            0 <= x < a.handed_out(n).len() ==> {
                let f = (#[trigger] a.handed_out(n)[x] - a.base) / 4096;
                &&& a.handed_out(n)[x] == a.base + f * 4096
                &&& 0 <= f < a.count
                &&& a.free.contains(f)
            },
        n >= a.count ==> forall|f: int|
            0 <= f < a.count && #[trigger] a.free.contains(f) ==> a.handed_out(n).contains(
                a.base + f * 4096,
            ),
        n >= a.count ==> a.after(n).take() is None,
{
    lemma_handed_out(a, 0, n);
    let out = a.handed_out(n);
    assert forall|x: int, y: int|
        0 <= x < out.len() && 0 <= y < out.len() && x != y implies out[x] != out[y] by {
        if x < y {
            assert(out[x] < out[y]);
        } else {
            assert(out[y] < out[x]);
        }
    }
}

/// A frame that has no byte of the kernel in it is not held back.
pub proof fn law_other_frames_are_not_reserved(
    base: int,
    kernel_start: int,
    kernel_end: int,
    i: int,
)
    requires
        0 <= i,
        kernel_start >= kernel_end || base + (i + 1) * 4096 <= kernel_start || kernel_end <= base
            + i * 4096,
    ensures
        !in_kernel(base, kernel_start, kernel_end, i),
{
}

/// The frame that is taken is the lowest free one, and no other frame changes;
/// none is taken only if none is free.
pub proof fn law_lowest_frame_is_taken(a: Frames, k: int)
    requires
        a.wf(),
        0 <= k < a.count,
    ensures
        match a.take() {
            Some((pa, rest)) => {
                &&& a.free.contains(k) ==> pa <= a.base + k * 4096
                &&& pa != a.base + k * 4096 ==> rest.free.contains(k) == a.free.contains(k)
                &&& rest.base == a.base
                &&& rest.count == a.count
            },
            None => !a.free.contains(k),
        },
{
    lemma_first_free(a, 0);
    if let Some(f) = a.first_free(0) {
        if a.free.contains(k) && k < f {
            assert(!a.free.contains(k));
        }
    }
}

/// Giving an address back frees the frame that holds it and no other.
pub proof fn law_given_frame_is_free(a: Frames, pa: int, k: int)
    requires
        a.wf(),
        0 <= k < a.count,
    ensures
        a.give(pa).free.contains(k) <==> a.free.contains(k) || a.base + k * 4096 <= pa < a.base + (k
            + 1) * 4096,
        a.give(pa).base == a.base,
        a.give(pa).count == a.count,
{
}

} // verus!
