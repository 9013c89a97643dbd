//! What the page tables of a process translate an address to.

use crate::bytes;
use crate::kernel::arch::mmu;
use crate::kernel::arch::mmu::{MapFlags, Mapping, Space, Walk, DESC_TABLE, DESC_VALID};
use crate::kernel::mm::frame;
use crate::mem;
use crate::mem::Memory;
use vstd::prelude::*;

verus! {

/// Entry `i` of the table at `t`.
#[verifier::opaque]
pub open spec fn entry(m: Memory, t: int, i: int) -> int {
    bytes::le64(m.bytes, t + 8 * i - m.base)
}

/// Entry `i` of the table at `t`, if it is in use.
pub open spec fn held(m: Memory, t: int, i: int) -> Option<int> {
    if mmu::is_valid(entry(m, t, i)) {
        Some(entry(m, t, i))
    } else {
        None
    }
}

/// Where entry `i` of the table at `t` leads to.
pub open spec fn follow(m: Memory, t: int, i: int) -> Option<int> {
    match held(m, t, i) {
        Some(e) => Some(mmu::target(e)),
        None => None,
    }
}

/// The second-level table behind entry `i` of the root.
pub open spec fn table2(m: Memory, root: int, i: int) -> Option<int> {
    follow(m, root, i)
}

/// The third-level table behind entry `j` of the second-level table `i`.
pub open spec fn table3(m: Memory, root: int, i: int, j: int) -> Option<int> {
    match table2(m, root, i) {
        Some(t) => follow(m, t, j),
        None => None,
    }
}

/// Entry `k` of the third-level table `i`, `j`, which leads to a page.
pub open spec fn page(m: Memory, root: int, i: int, j: int, k: int) -> Option<int> {
    match table3(m, root, i, j) {
        Some(t) => held(m, t, k),
        None => None,
    }
}

/// The attributes in the entry of a page: what it holds besides the address of
/// the page and the two bits that mark it.
pub open spec fn attributes_in(entry: int) -> int {
    entry - mmu::target(entry) - DESC_VALID - DESC_TABLE
}

/// The attributes of the page that an address is translated through.
pub open spec fn rights(m: Memory, root: int, va: int) -> Option<int> {
    match page(m, root, mmu::index1(va), mmu::index2(va), mmu::index3(va)) {
        Some(e) => Some(attributes_in(e)),
        None => None,
    }
}

/// What an address is translated to: the walk that the hardware makes.
pub open spec fn translate(m: Memory, root: int, va: int) -> Option<int> {
    match page(m, root, mmu::index1(va), mmu::index2(va), mmu::index3(va)) {
        Some(e) => Some(mmu::target(e) + va % 4096),
        None => None,
    }
}

/// Whether `t` is the address of a frame that is in use.
pub open spec fn is_table(s: Space, t: int) -> bool {
    let f = (t - s.frames.base) / 4096;
    (t - s.frames.base) % 4096 == 0 && 0 <= f < s.frames.count && !s.frames.free.contains(f)
}

/// Whether an index is one of a table.
pub open spec fn index(i: int) -> bool {
    0 <= i < 512
}

/// Whether the frames are whole pages in memory.
pub open spec fn frames_ok(s: Space) -> bool {
    &&& s.frames.wf()
    &&& s.frames.base % 4096 == 0
    &&& s.frames.base + s.frames.count * 4096 <= 0x1_0000_0000_0000
    &&& s.mem.covers(s.frames.base, s.frames.count * 4096)
}

/// Whether the tables under `root` are a tree of frames that are in use: no
/// table stands in it twice.
pub open spec fn tables_ok(s: Space, root: int) -> bool {
    &&& frames_ok(s)
    &&& is_table(s, root)
    &&& forall|i: int|
        #![trigger table2(s.mem, root, i)]
        index(i) ==> match table2(s.mem, root, i) {
            Some(t) => is_table(s, t) && t != root,
            None => true,
        }
    &&& forall|i: int, k: int|
        #![trigger table2(s.mem, root, i), table2(s.mem, root, k)]
        index(i) && index(k) && i != k && table2(s.mem, root, i) is Some ==> table2(
            s.mem,
            root,
            i,
        ) != table2(s.mem, root, k)
    &&& forall|i: int, j: int|
        #![trigger table3(s.mem, root, i, j)]
        index(i) && index(j) ==> match table3(s.mem, root, i, j) {
            Some(t) => is_table(s, t) && t != root,
            None => true,
        }
    &&& forall|i: int, j: int, k: int|
        #![trigger table3(s.mem, root, i, j), table2(s.mem, root, k)]
        index(i) && index(j) && index(k) && table3(s.mem, root, i, j) is Some ==> table3(
            s.mem,
            root,
            i,
            j,
        ) != table2(s.mem, root, k)
    &&& forall|i: int, j: int, k: int, l: int|
        #![trigger table3(s.mem, root, i, j), table3(s.mem, root, k, l)]
        index(i) && index(j) && index(k) && index(l) && (i != k || j != l) && table3(
            s.mem,
            root,
            i,
            j,
        ) is Some ==> table3(s.mem, root, i, j) != table3(s.mem, root, k, l)
}

/// Bytes outside of what is written stay as they are.
proof fn lemma_far(m: Memory, addr: int, data: Seq<u8>, at: int)
    requires
        m.covers(at, 8),
        at + 8 <= addr || addr + data.len() <= at,
    ensures
        bytes::le64(m.put(addr, data).bytes, at - m.base) == bytes::le64(m.bytes, at - m.base),
{
    let b = m.put(addr, data).bytes;
    assert forall|k: int| 0 <= k < 8 implies b[(at - m.base) + k] == #[trigger] m.bytes[(at
        - m.base) + k] by {}
    bytes::lemma_le_window(b, at - m.base, m.bytes, at - m.base, 8);
}

/// A number in memory that has been cleared is zero.
proof fn lemma_cleared(m: Memory, addr: int, n: nat, at: int)
    requires
        m.covers(at, 8),
        addr <= at,
        at + 8 <= addr + n,
    ensures
        bytes::le64(m.put(addr, bytes::zeros(n)).bytes, at - m.base) == 0,
{
    let b = m.put(addr, bytes::zeros(n)).bytes;
    let z = bytes::zeros(8);
    assert forall|k: int| 0 <= k < 8 implies b[(at - m.base) + k] == #[trigger] z[0 + k] by {}
    bytes::lemma_le_window(b, at - m.base, z, 0, 8);
}

/// A table lies in memory.
proof fn lemma_covered(s: Space, t: int, i: int)
    requires
        frames_ok(s),
        is_table(s, t) || (s.frames.take() matches Some((n, _)) && t == n),
        index(i),
    ensures
        s.mem.covers(t, 4096),
        s.mem.covers(t + 8 * i, 8),
        0 <= t < 0x1_0000_0000_0000,
        t % 4096 == 0,
{
    if s.frames.take() is Some {
        frame::law_taken_frame_was_free(s.frames);
    }
    let f = (t - s.frames.base) / 4096;
    assert(t == s.frames.base + f * 4096);
}

/// What a new table changes: it is empty, the entry that leads to it is set, and
/// all entries of tables that are in use are as they were.
proof fn lemma_install(s: Space, t: int, i: int)
    requires
        frames_ok(s),
        is_table(s, t),
        index(i),
        !mmu::is_valid(entry(s.mem, t, i)),
        s.frames.take() is Some,
    ensures
        ({
            let (n, _) = s.frames.take()->0;
            &&& mmu::next_table(s, t + 8 * i) matches Walk::Table(p, new)
            &&& p == n
            &&& frames_ok(new)
            &&& !is_table(s, n)
            &&& forall|p: int| #[trigger] is_table(new, p) <==> is_table(s, p) || p == n
            &&& follow(new.mem, t, i) == Some(n)
            &&& forall|x: int| index(x) ==> #[trigger] held(new.mem, n, x) is None
            &&& forall|p: int, x: int|
                #![trigger held(new.mem, p, x)]
                is_table(s, p) && index(x) && (p != t || x != i) ==> held(new.mem, p, x)
                    == held(s.mem, p, x)
        }),
{
    frame::law_taken_frame_was_free(s.frames);
    let (n, rest) = s.frames.take()->0;
    lemma_fresh(s);
    lemma_covered(s, t, i);
    lemma_covered(s, n, 0);
    let word: u64 = n as u64 | DESC_VALID | DESC_TABLE;
    lemma_table_word(n as u64);
    let m1 = s.mem.put(n, bytes::zeros(4096));
    let m2 = m1.put(t + 8 * i, bytes::le64_bytes(word));
    let new = Space { mem: m2, frames: rest };
    assert(mmu::next_table(s, t + 8 * i) == Walk::Table(n, new)) by {
        reveal(mmu::next_table);
        reveal(entry);
    }
    assert(follow(new.mem, t, i) == Some(n)) by {
        reveal(entry);
        bytes::lemma_le64_roundtrip(word);
        mem::lemma_get_after_put64(m1, t + 8 * i, word);
    }
    assert(frames_ok(new)) by {
        bytes::lemma_le64_roundtrip(word);
    }
    assert forall|p: int| #[trigger] is_table(new, p) <==> is_table(s, p) || p == n by {
        assert(is_table(new, p) == is_table(Space { mem: s.mem, frames: rest }, p));
    }
    assert forall|x: int| index(x) implies #[trigger] held(new.mem, n, x) is None by {
        lemma_install_empty(s, t, i, word, x);
    }
    assert forall|p: int, x: int|
        #![trigger held(new.mem, p, x)]
        is_table(s, p) && index(x) && (p != t || x != i) implies held(new.mem, p, x) == held(
        s.mem,
        p,
        x,
    ) by {
        lemma_install_far(s, t, i, word, p, x);
    }
}

/// A frame that is taken is no table before, and the only new one afterwards.
proof fn lemma_fresh(s: Space)
    requires
        frames_ok(s),
        s.frames.take() is Some,
    ensures
        ({
            let (n, rest) = s.frames.take()->0;
            &&& !is_table(s, n)
            &&& forall|p: int| #[trigger]
                is_table(Space { mem: s.mem, frames: rest }, p) <==> is_table(s, p) || p == n
        }),
{
    frame::law_taken_frame_was_free(s.frames);
    frame::lemma_first_free(s.frames, 0);
    let (n, rest) = s.frames.take()->0;
    let new = Space { mem: s.mem, frames: rest };
    assert forall|p: int| #[trigger] is_table(new, p) <==> is_table(s, p) || p == n by {
        if is_table(new, p) && !is_table(s, p) {
            assert((p - s.frames.base) / 4096 == (n - s.frames.base) / 4096);
        }
    }
}

/// The entry of a table leads to it.
proof fn lemma_table_word(n: u64)
    requires
        n % 4096 == 0,
        n < 0x1_0000_0000_0000,
    ensures
        mmu::is_valid((n | DESC_VALID | DESC_TABLE) as int),
        mmu::target((n | DESC_VALID | DESC_TABLE) as int) == n,
{
    assert(n | 1 | 2 == n + 3) by (bit_vector)
        requires
            n % 4096 == 0,
            n < 0x1_0000_0000_0000,
    ;
}

proof fn lemma_install_empty(s: Space, t: int, i: int, word: u64, x: int)
    requires
        frames_ok(s),
        is_table(s, t),
        index(i),
        index(x),
        s.frames.take() is Some,
    ensures
        ({
            let (n, _) = s.frames.take()->0;
            let m = s.mem.put(n, bytes::zeros(4096)).put(t + 8 * i, bytes::le64_bytes(word));
            held(m, n, x) is None
        }),
{
    reveal(entry);
    let (n, _) = s.frames.take()->0;
    lemma_fresh(s);
    lemma_covered(s, t, i);
    lemma_covered(s, n, x);
    bytes::lemma_le64_roundtrip(word);
    let m1 = s.mem.put(n, bytes::zeros(4096));
    lemma_cleared(s.mem, n, 4096, n + 8 * x);
    lemma_far(m1, t + 8 * i, bytes::le64_bytes(word), n + 8 * x);
}

/// Two pages do not overlap.
proof fn lemma_apart(a: int, b: int)
    requires
        a % 4096 == 0,
        b % 4096 == 0,
        a != b,
    ensures
        a + 4096 <= b || b + 4096 <= a,
{
}

proof fn lemma_install_far(s: Space, t: int, i: int, word: u64, p: int, x: int)
    requires
        frames_ok(s),
        is_table(s, t),
        is_table(s, p),
        index(i),
        index(x),
        p != t || x != i,
        s.frames.take() is Some,
    ensures
        ({
            let (n, _) = s.frames.take()->0;
            let m = s.mem.put(n, bytes::zeros(4096)).put(t + 8 * i, bytes::le64_bytes(word));
            held(m, p, x) == held(s.mem, p, x)
        }),
{
    reveal(entry);
    let (n, _) = s.frames.take()->0;
    lemma_fresh(s);
    lemma_covered(s, t, i);
    lemma_covered(s, n, 0);
    lemma_covered(s, p, x);
    bytes::lemma_le64_roundtrip(word);
    let m1 = s.mem.put(n, bytes::zeros(4096));
    let at = p + 8 * x;
    assert(p != n);
    lemma_apart(p, n);
    assert(at + 8 <= n || n + 4096 <= at);
    lemma_far(s.mem, n, bytes::zeros(4096), at);
    if p != t {
        lemma_apart(p, t);
    }
    assert(at + 8 <= t + 8 * i || t + 8 * i + 8 <= at);
    assert(m1.covers(at, 8));
    lemma_far(m1, t + 8 * i, bytes::le64_bytes(word), at);
}

proof fn lemma_store_far(s: Space, t: int, i: int, word: u64, p: int, x: int)
    requires
        frames_ok(s),
        is_table(s, t),
        is_table(s, p),
        index(i),
        index(x),
        p != t || x != i,
    ensures
        held(s.mem.put(t + 8 * i, bytes::le64_bytes(word)), p, x) == held(s.mem, p, x),
{
    reveal(entry);
    lemma_covered(s, t, i);
    lemma_covered(s, p, x);
    bytes::lemma_le64_roundtrip(word);
    if p != t {
        lemma_apart(p, t);
    }
    let at = p + 8 * x;
    assert(at + 8 <= t + 8 * i || t + 8 * i + 8 <= at);
    lemma_far(s.mem, t + 8 * i, bytes::le64_bytes(word), at);
}

/// What writing an entry changes: that entry and no other.
proof fn lemma_store(s: Space, t: int, i: int, word: u64)
    requires
        frames_ok(s),
        is_table(s, t),
        index(i),
    ensures
        ({
            let new = Space { mem: s.mem.put(t + 8 * i, bytes::le64_bytes(word)), ..s };
            &&& frames_ok(new)
            &&& entry(new.mem, t, i) == word
            &&& forall|p: int, x: int|
                #![trigger held(new.mem, p, x)]
                is_table(s, p) && index(x) && (p != t || x != i) ==> held(new.mem, p, x)
                    == held(s.mem, p, x)
        }),
{
    lemma_covered(s, t, i);
    bytes::lemma_le64_roundtrip(word);
    let new = Space { mem: s.mem.put(t + 8 * i, bytes::le64_bytes(word)), ..s };
    assert(entry(new.mem, t, i) == word) by {
        reveal(entry);
        mem::lemma_get_after_put64(s.mem, t + 8 * i, word);
    }
    assert forall|p: int, x: int|
        #![trigger held(new.mem, p, x)]
        is_table(s, p) && index(x) && (p != t || x != i) implies held(new.mem, p, x) == held(
        s.mem,
        p,
        x,
    ) by {
        lemma_store_far(s, t, i, word, p, x);
    }
}

/// Whether the tables of `new` translate as those of `s` do.
pub open spec fn same_pages(s: Space, new: Space, root: int) -> bool {
    forall|i: int, j: int, k: int|
        #![trigger page(new.mem, root, i, j, k)]
        index(i) && index(j) && index(k) ==> page(new.mem, root, i, j, k) == page(
            s.mem,
            root,
            i,
            j,
            k,
        )
}

/// The step from the root: a second-level table is found or made, and nothing is
/// translated otherwise than before.
proof fn lemma_step2(s: Space, root: int, i: int)
    requires
        tables_ok(s, root),
        index(i),
    ensures
        match mmu::next_table(s, root + 8 * i) {
            Walk::Table(t, new) => {
                &&& tables_ok(new, root)
                &&& table2(new.mem, root, i) == Some(t)
                &&& same_pages(s, new, root)
                &&& forall|p: int| #[trigger] is_table(s, p) ==> is_table(new, p)
            },
            Walk::NoFrame(new) => new == s,
            Walk::Stopped(_) => false,
        },
{
    lemma_covered(s, root, i);
    if table2(s.mem, root, i) is Some {
        reveal(mmu::next_table);
        reveal(entry);
    } else if s.frames.take() is None {
        reveal(mmu::next_table);
        reveal(entry);
    } else {
        lemma_install(s, root, i);
        let (n, _) = s.frames.take()->0;
        let new = mmu::next_table(s, root + 8 * i)->Table_1;
        assert forall|k: int| #![trigger table2(new.mem, root, k)] index(k) implies table2(
            new.mem,
            root,
            k,
        ) == if k == i {
            Some(n)
        } else {
            table2(s.mem, root, k)
        } by {}
        assert forall|k: int, j: int|
            #![trigger table3(new.mem, root, k, j)]
            index(k) && index(j) implies table3(new.mem, root, k, j) == table3(s.mem, root, k, j) by {
            assert(table2(new.mem, root, k) == if k == i {
                Some(n)
            } else {
                table2(s.mem, root, k)
            });
        }
        assert forall|a: int, b: int, c: int|
            #![trigger page(new.mem, root, a, b, c)]
            index(a) && index(b) && index(c) implies page(new.mem, root, a, b, c) == page(
            s.mem,
            root,
            a,
            b,
            c,
        ) by {
            assert(table3(new.mem, root, a, b) == table3(s.mem, root, a, b));
        }
    }
}

/// The step from a second-level table: a third-level table is found or made, and
/// nothing is translated otherwise than before.
proof fn lemma_step3(s: Space, root: int, i: int, j: int)
    requires
        tables_ok(s, root),
        index(i),
        index(j),
        table2(s.mem, root, i) is Some,
    ensures
        match mmu::next_table(s, table2(s.mem, root, i)->0 + 8 * j) {
            Walk::Table(t, new) => {
                &&& tables_ok(new, root)
                &&& table3(new.mem, root, i, j) == Some(t)
                &&& same_pages(s, new, root)
                &&& forall|p: int| #[trigger] is_table(s, p) ==> is_table(new, p)
            },
            Walk::NoFrame(new) => new == s,
            Walk::Stopped(_) => false,
        },
{
    let t = table2(s.mem, root, i)->0;
    lemma_covered(s, t, j);
    if table3(s.mem, root, i, j) is Some {
        reveal(mmu::next_table);
        reveal(entry);
    } else if s.frames.take() is None {
        reveal(mmu::next_table);
        reveal(entry);
    } else {
        lemma_install(s, t, j);
        let (n, _) = s.frames.take()->0;
        let new = mmu::next_table(s, t + 8 * j)->Table_1;
        assert forall|k: int| #![trigger table2(new.mem, root, k)] index(k) implies table2(
            new.mem,
            root,
            k,
        ) == table2(s.mem, root, k) by {}
        assert forall|k: int, l: int|
            #![trigger table3(new.mem, root, k, l)]
            index(k) && index(l) implies table3(new.mem, root, k, l) == if k == i && l == j {
            Some(n)
        } else {
            table3(s.mem, root, k, l)
        } by {
            assert(table2(new.mem, root, k) == table2(s.mem, root, k));
        }
        assert forall|a: int, b: int, c: int|
            #![trigger page(new.mem, root, a, b, c)]
            index(a) && index(b) && index(c) implies page(new.mem, root, a, b, c) == page(
            s.mem,
            root,
            a,
            b,
            c,
        ) by {
            assert(table3(new.mem, root, a, b) == if a == i && b == j {
                Some(n)
            } else {
                table3(s.mem, root, a, b)
            });
        }
    }
}

/// The last step: the page is mapped, and no other is translated otherwise than
/// before.
proof fn lemma_step4(s: Space, root: int, i: int, j: int, k: int, word: u64)
    requires
        tables_ok(s, root),
        index(i),
        index(j),
        index(k),
        table3(s.mem, root, i, j) is Some,
        mmu::is_valid(word as int),
    ensures
        ({
            let t = table3(s.mem, root, i, j)->0;
            let new = Space { mem: s.mem.put(t + 8 * k, bytes::le64_bytes(word)), ..s };
            &&& s.mem.covers(t + 8 * k, 8)
            &&& t + 8 * k <= u64::MAX
            &&& tables_ok(new, root)
            &&& forall|a: int, b: int, c: int|
                #![trigger page(new.mem, root, a, b, c)]
                index(a) && index(b) && index(c) ==> page(new.mem, root, a, b, c) == if a == i && b
                    == j && c == k {
                    Some(word as int)
                } else {
                    page(s.mem, root, a, b, c)
                }
        }),
{
    let t = table3(s.mem, root, i, j)->0;
    lemma_covered(s, t, k);
    lemma_store(s, t, k, word);
    let new = Space { mem: s.mem.put(t + 8 * k, bytes::le64_bytes(word)), ..s };
    assert forall|a: int| #![trigger table2(new.mem, root, a)] index(a) implies table2(
        new.mem,
        root,
        a,
    ) == table2(s.mem, root, a) by {}
    assert forall|a: int, b: int|
        #![trigger table3(new.mem, root, a, b)]
        index(a) && index(b) implies table3(new.mem, root, a, b) == table3(s.mem, root, a, b) by {
        assert(table2(new.mem, root, a) == table2(s.mem, root, a));
    }
    assert forall|a: int, b: int, c: int|
        #![trigger page(new.mem, root, a, b, c)]
        index(a) && index(b) && index(c) implies page(new.mem, root, a, b, c) == if a == i && b == j
        && c == k {
        Some(word as int)
    } else {
        page(s.mem, root, a, b, c)
    } by {
        assert(table3(new.mem, root, a, b) == table3(s.mem, root, a, b));
        assert(table3(s.mem, root, i, j) == Some(t));
    }
}

/// The entry of a page leads to it and holds its attributes.
proof fn lemma_word(pa: u64, flags: MapFlags)
    requires
        pa % 4096 == 0,
        pa < 0x1_0000_0000_0000,
    ensures
        ({
            let word = pa | mmu::attributes(flags) | DESC_VALID | DESC_TABLE;
            &&& mmu::is_valid(word as int)
            &&& mmu::target(word as int) == pa
            &&& attributes_in(word as int) == mmu::attributes(flags)
        }),
{
    let attrs = mmu::attributes(flags);
    let access: u64 = if flags.write {
        if flags.user {
            0x40
        } else {
            0
        }
    } else if flags.read && flags.user {
        0xc0
    } else {
        0x80
    };
    let never: u64 = if !flags.execute {
        0x60_0000_0000_0000
    } else if flags.user {
        0x20_0000_0000_0000
    } else {
        0
    };
    let word = pa | attrs | 1 | 2;
    assert(word % 2 == 1 && word / 4096 % 0x10_0000_0000 * 4096 == pa && word == pa + attrs
        + 3) by (bit_vector)
        requires
            word == pa | attrs | 1 | 2,
            pa % 4096 == 0,
            pa < 0x1_0000_0000_0000,
            attrs == 0x700 + access + never,
            access == 0 || access == 0x40 || access == 0x80 || access == 0xc0,
            never == 0 || never == 0x20_0000_0000_0000 || never == 0x60_0000_0000_0000,
    ;
}

/// Whether two addresses lie in the same page.
pub open spec fn same_page(a: int, b: int) -> bool {
    mmu::index1(a) == mmu::index1(b) && mmu::index2(a) == mmu::index2(b) && mmu::index3(a)
        == mmu::index3(b)
}

/// Mapping a page makes each address in it translate to the same place in the
/// new page, with the attributes that were asked for, leaves every other address
/// as it was, and keeps the tables a tree.
/// It fails for want of a frame and for nothing else, and then nothing is
/// translated otherwise than before.
pub proof fn law_map_page(s: Space, root: int, va: int, pa: u64, flags: MapFlags)
    requires
        tables_ok(s, root),
        0 <= va,
        pa % 4096 == 0,
        pa < 0x1_0000_0000_0000,
    ensures
        match mmu::page_mapped(s, root, va, pa, mmu::attributes(flags)) {
            Mapping::Done(new) => {
                &&& tables_ok(new, root)
                &&& forall|a: int|
                    #![trigger translate(new.mem, root, a)]
                    0 <= a ==> translate(new.mem, root, a) == if same_page(a, va) {
                        Some(pa + a % 4096)
                    } else {
                        translate(s.mem, root, a)
                    }
                &&& forall|a: int|
                    #![trigger rights(new.mem, root, a)]
                    0 <= a ==> rights(new.mem, root, a) == if same_page(a, va) {
                        Some(mmu::attributes(flags) as int)
                    } else {
                        rights(s.mem, root, a)
                    }
            },
            Mapping::NoFrame(new) => {
                &&& tables_ok(new, root)
                &&& forall|a: int|
                    #![trigger translate(new.mem, root, a)]
                    0 <= a ==> translate(new.mem, root, a) == translate(s.mem, root, a)
                &&& forall|a: int|
                    #![trigger rights(new.mem, root, a)]
                    0 <= a ==> rights(new.mem, root, a) == rights(s.mem, root, a)
            },
            Mapping::Stopped(_) => false,
        },
{
    reveal(mmu::page_mapped);
    let attrs = mmu::attributes(flags);
    let (i, j, k) = (mmu::index1(va), mmu::index2(va), mmu::index3(va));
    lemma_step2(s, root, i);
    match mmu::next_table(s, root + 8 * i) {
        Walk::Table(t2, s2) => {
            lemma_step3(s2, root, i, j);
            match mmu::next_table(s2, t2 + 8 * j) {
                Walk::Table(t3, s3) => {
                    let word = pa | attrs | DESC_VALID | DESC_TABLE;
                    lemma_word(pa, flags);
                    lemma_step4(s3, root, i, j, k, word);
                    let new = Space { mem: s3.mem.put(t3 + 8 * k, bytes::le64_bytes(word)), ..s3 };
                    assert forall|a: int|
                        #![trigger translate(new.mem, root, a)]
                        #![trigger rights(new.mem, root, a)]
                        0 <= a implies translate(new.mem, root, a) == (if same_page(a, va) {
                        Some(pa + a % 4096)
                    } else {
                        translate(s.mem, root, a)
                    }) && rights(new.mem, root, a) == (if same_page(a, va) {
                        Some(attrs as int)
                    } else {
                        rights(s.mem, root, a)
                    }) by {
                        let (x, y, z) = (mmu::index1(a), mmu::index2(a), mmu::index3(a));
                        assert(page(s2.mem, root, x, y, z) == page(s.mem, root, x, y, z));
                        assert(page(s3.mem, root, x, y, z) == page(s2.mem, root, x, y, z));
                        assert(page(new.mem, root, x, y, z) == if x == i && y == j && z == k {
                            Some(word as int)
                        } else {
                            page(s3.mem, root, x, y, z)
                        });
                    }
                },
                Walk::NoFrame(s3) => {
                    assert forall|a: int|
                        #![trigger translate(s3.mem, root, a)]
                        #![trigger rights(s3.mem, root, a)]
                        0 <= a implies translate(s3.mem, root, a) == translate(s.mem, root, a)
                        && rights(s3.mem, root, a) == rights(s.mem, root, a) by {
                        let (x, y, z) = (mmu::index1(a), mmu::index2(a), mmu::index3(a));
                        assert(page(s2.mem, root, x, y, z) == page(s.mem, root, x, y, z));
                    }
                },
                Walk::Stopped(_) => {},
            }
        },
        Walk::NoFrame(_) => {},
        Walk::Stopped(_) => {},
    }
}

/// Below 2 to the power of 39, addresses with the same indices lie in the same
/// 4 KiB.
proof fn lemma_same_page(a: int, b: int)
    requires
        0 <= a < 0x80_0000_0000,
        0 <= b < 0x80_0000_0000,
    ensures
        same_page(a, b) <==> a / 4096 == b / 4096,
{
    let (p, q) = (a / 4096, b / 4096);
    assert(a / 0x20_0000 == p / 512 && b / 0x20_0000 == q / 512);
    assert(a / 0x4000_0000 == p / 512 / 512 && b / 0x4000_0000 == q / 512 / 512);
    assert(p / 512 / 512 < 512 && q / 512 / 512 < 512);
}

/// The end of a range, rounded up to whole pages.
pub open spec fn pages_end(size: int) -> int {
    (size + 4095) / 4096 * 4096
}

/// Whether `new` translates as `s` does, but for the addresses from `va + from`
/// to `va + to`, which it translates to the same place behind `pa` and with the
/// given attributes.
#[verifier::opaque]
pub open spec fn maps(
    s: Space,
    new: Space,
    root: int,
    va: int,
    pa: int,
    attrs: u64,
    from: int,
    to: int,
) -> bool {
    forall|a: int|
        #![trigger translate(new.mem, root, a)]
        #![trigger rights(new.mem, root, a)]
        0 <= a < 0x80_0000_0000 ==> {
            &&& translate(new.mem, root, a) == if va + from <= a < va + to {
                Some(pa + (a - va))
            } else {
                translate(s.mem, root, a)
            }
            &&& rights(new.mem, root, a) == if va + from <= a < va + to {
                Some(attrs as int)
            } else {
                rights(s.mem, root, a)
            }
        }
}

/// One mapping after another.
proof fn lemma_maps_chain(
    s: Space,
    mid: Space,
    new: Space,
    root: int,
    va: int,
    pa: int,
    attrs: u64,
    from: int,
    via: int,
    to: int,
)
    requires
        from <= via <= to,
        maps(s, mid, root, va, pa, attrs, from, via),
        maps(mid, new, root, va, pa, attrs, via, to),
    ensures
        maps(s, new, root, va, pa, attrs, from, to),
{
    reveal(maps);
    assert forall|a: int|
        #![trigger translate(new.mem, root, a)]
        #![trigger rights(new.mem, root, a)]
        0 <= a < 0x80_0000_0000 implies {
        &&& translate(new.mem, root, a) == if va + from <= a < va + to {
            Some(pa + (a - va))
        } else {
            translate(s.mem, root, a)
        }
        &&& rights(new.mem, root, a) == if va + from <= a < va + to {
            Some(attrs as int)
        } else {
            rights(s.mem, root, a)
        }
    } by {
        assert(translate(mid.mem, root, a) == if va + from <= a < va + via {
            Some(pa + (a - va))
        } else {
            translate(s.mem, root, a)
        });
    }
}

/// The page at `offset` of a range, by its addresses.
proof fn lemma_page_value(a: int, va: int, pa: int, offset: int)
    requires
        va % 4096 == 0,
        offset % 4096 == 0,
        0 <= va,
        0 <= offset,
        va + offset < 0x80_0000_0000,
        0 <= a < 0x80_0000_0000,
    ensures
        same_page(a, va + offset) <==> va + offset <= a < va + (offset + 4096),
        same_page(a, va + offset) ==> pa + offset + a % 4096 == pa + (a - va),
{
    lemma_same_page(a, va + offset);
}

/// The first page of a range.
proof fn lemma_maps_page(s: Space, root: int, va: int, pa: int, offset: int, flags: MapFlags)
    requires
        tables_ok(s, root),
        va % 4096 == 0,
        pa % 4096 == 0,
        offset % 4096 == 0,
        0 <= va,
        0 <= pa,
        0 <= offset,
        va + offset < 0x80_0000_0000,
        pa + offset < 0x1_0000_0000_0000,
    ensures
        match mmu::page_mapped(
            s,
            root,
            va + offset,
            (pa + offset) as u64,
            mmu::attributes(flags),
        ) {
            Mapping::Done(new) => {
                &&& tables_ok(new, root)
                &&& maps(s, new, root, va, pa, mmu::attributes(flags), offset, offset + 4096)
            },
            Mapping::NoFrame(new) => {
                &&& tables_ok(new, root)
                &&& maps(s, new, root, va, pa, mmu::attributes(flags), offset, offset)
            },
            Mapping::Stopped(_) => false,
        },
{
    let page = (pa + offset) as u64;
    law_map_page(s, root, va + offset, page, flags);
    match mmu::page_mapped(s, root, va + offset, page, mmu::attributes(flags)) {
        Mapping::Done(new) => {
            assert(maps(s, new, root, va, pa, mmu::attributes(flags), offset, offset + 4096)) by {
                reveal(maps);
                assert forall|a: int|
                    #![trigger translate(new.mem, root, a)]
                    #![trigger rights(new.mem, root, a)]
                    0 <= a < 0x80_0000_0000 implies {
                    &&& translate(new.mem, root, a) == if va + offset <= a < va + (offset + 4096) {
                        Some(pa + (a - va))
                    } else {
                        translate(s.mem, root, a)
                    }
                    &&& rights(new.mem, root, a) == if va + offset <= a < va + (offset + 4096) {
                        Some(mmu::attributes(flags) as int)
                    } else {
                        rights(s.mem, root, a)
                    }
                } by {
                    lemma_page_value(a, va, pa, offset);
                }
            }
        },
        Mapping::NoFrame(new) => {
            assert(maps(s, new, root, va, pa, mmu::attributes(flags), offset, offset)) by {
                reveal(maps);
            }
        },
        Mapping::Stopped(_) => {},
    }
}

/// Mapping a range makes each address in its pages translate to the same place
/// behind `pa`, with the attributes that were asked for, leaves every other
/// address as it was, and keeps the tables a tree. It fails for want of a frame and for nothing else; the pages up to
/// `done` are mapped then.
pub proof fn law_map(
    s: Space,
    root: int,
    va: int,
    pa: int,
    size: int,
    offset: int,
    flags: MapFlags,
) -> (done: int)
    requires
        tables_ok(s, root),
        va % 4096 == 0,
        pa % 4096 == 0,
        offset % 4096 == 0,
        0 <= va,
        0 <= pa,
        0 <= offset <= pages_end(size),
        0 <= size,
        va + size <= 0x80_0000_0000,
        pa + size <= 0x1_0000_0000_0000,
    ensures
        match mmu::pages_mapped(s, root, va, pa, size, offset, mmu::attributes(flags)) {
            Mapping::Done(new) => {
                &&& tables_ok(new, root)
                &&& maps(s, new, root, va, pa, mmu::attributes(flags), offset, pages_end(size))
            },
            Mapping::NoFrame(new) => {
                &&& tables_ok(new, root)
                &&& offset <= done < pages_end(size)
                &&& done % 4096 == 0
                &&& maps(s, new, root, va, pa, mmu::attributes(flags), offset, done)
            },
            Mapping::Stopped(_) => false,
        },
    decreases size - offset + 4096,
{
    if offset >= size {
        assert(maps(s, s, root, va, pa, mmu::attributes(flags), offset, pages_end(size))) by {
            reveal(maps);
        }
        offset
    } else {
        lemma_maps_page(s, root, va, pa, offset, flags);
        match mmu::page_mapped(s, root, va + offset, (pa + offset) as u64, mmu::attributes(flags)) {
            Mapping::Done(mid) => {
                let done = law_map(mid, root, va, pa, size, offset + 4096, flags);
                match mmu::pages_mapped(
                    mid,
                    root,
                    va,
                    pa,
                    size,
                    offset + 4096,
                    mmu::attributes(flags),
                ) {
                    Mapping::Done(new) => {
                        lemma_maps_chain(
                            s,
                            mid,
                            new,
                            root,
                            va,
                            pa,
                            mmu::attributes(flags),
                            offset,
                            offset + 4096,
                            pages_end(size),
                        );
                    },
                    Mapping::NoFrame(new) => {
                        lemma_maps_chain(
                            s,
                            mid,
                            new,
                            root,
                            va,
                            pa,
                            mmu::attributes(flags),
                            offset,
                            offset + 4096,
                            done,
                        );
                    },
                    Mapping::Stopped(_) => {},
                }
                done
            },
            _ => offset,
        }
    }
}

/// The tables of a new process are a tree and translate nothing.
pub proof fn law_new_tables_are_empty(s: Space)
    requires
        frames_ok(s),
        s.frames.take() is Some,
    ensures
        ({
            let (root, rest) = s.frames.take()->0;
            let new = Space { mem: s.mem.put(root, bytes::zeros(4096)), frames: rest };
            &&& s.mem.covers(root, 4096)
            &&& tables_ok(new, root)
            &&& forall|a: int| #[trigger] translate(new.mem, root, a) is None
        }),
{
    frame::law_taken_frame_was_free(s.frames);
    lemma_fresh(s);
    let (root, rest) = s.frames.take()->0;
    lemma_covered(s, root, 0);
    let new = Space { mem: s.mem.put(root, bytes::zeros(4096)), frames: rest };
    assert(is_table(Space { mem: s.mem, frames: rest }, root));
    assert forall|i: int| index(i) implies #[trigger] table2(new.mem, root, i) is None by {
        reveal(entry);
        lemma_covered(s, root, i);
        lemma_cleared(s.mem, root, 4096, root + 8 * i);
    }
    assert forall|i: int, j: int| index(i) implies #[trigger] table3(
        new.mem,
        root,
        i,
        j,
    ) is None by {
        assert(table2(new.mem, root, i) is None);
    }
    assert forall|a: int| #[trigger] translate(new.mem, root, a) is None by {
        assert(table3(new.mem, root, mmu::index1(a), mmu::index2(a)) is None);
    }
}

/// The address that the entry of a block leads to: bits 47 to 21.
pub open spec fn block_target(entry: int) -> int {
    entry / 0x20_0000 % 0x800_0000 * 0x20_0000
}

/// The kernel's own map leads each address of its 3 GiB back to itself: the
/// block at the address's place in the table of its GiB is the one that holds
/// it.
pub proof fn law_kernel_map_is_identity(table: Seq<u64>, base: int, attrs: u64, va: int)
    requires
        base == 0 || base == 0x4000_0000 || base == 0x8000_0000,
        attrs == mmu::BLOCK_NORMAL || attrs == mmu::BLOCK_DEVICE,
        mmu::maps_blocks(table, base, attrs),
        base <= va < base + 0x4000_0000,
    ensures
        mmu::is_valid(table[mmu::index2(va)] as int),
        block_target(table[mmu::index2(va)] as int) + va % 0x20_0000 == va,
{
    let i = mmu::index2(va);
    assert(table[i] == base + i * mmu::BLOCK_SIZE + attrs);
    let pa = base + i * 0x20_0000;
    assert(pa == va - va % 0x20_0000);
    let hi: int = if attrs == mmu::BLOCK_NORMAL {
        0x2_0000_0000
    } else {
        0x3_0000_0000
    };
    assert((pa + attrs) / 0x20_0000 == pa / 0x20_0000 + hi);
    assert((pa / 0x20_0000 + hi) % 0x800_0000 == pa / 0x20_0000);
}

/// What the attributes of a page allow. Writing is allowed where bit 7 is
/// clear, access from user space where bit 6 is set, execution from user space
/// where bit 54 is clear, and execution by the kernel where bit 53 is clear. A
/// user page is never executed by the kernel.
pub proof fn law_attributes(flags: MapFlags)
    ensures
        ({
            let a = mmu::attributes(flags) as int;
            &&& (a / 0x80 % 2 == 0) == flags.write
            &&& (a / 0x40 % 2 == 1) == (flags.user && (flags.write || flags.read))
            &&& (a / 0x40_0000_0000_0000 % 2 == 0) == flags.execute
            &&& (a / 0x20_0000_0000_0000 % 2 == 0) == (flags.execute && !flags.user)
        }),
{
}

/// After a range was mapped, each address in its pages has the permissions that
/// were asked for and no others: what the bits stand for is said at
/// `law_attributes`.
pub proof fn law_mapped_pages_have_permissions(
    s: Space,
    new: Space,
    root: int,
    va: int,
    pa: int,
    size: int,
    flags: MapFlags,
    a: int,
)
    requires
        tables_ok(s, root),
        va % 4096 == 0,
        pa % 4096 == 0,
        0 <= va,
        0 <= pa,
        0 <= size,
        va + size <= 0x80_0000_0000,
        pa + size <= 0x1_0000_0000_0000,
        mmu::pages_mapped(s, root, va, pa, size, 0, mmu::attributes(flags)) == Mapping::Done(new),
        va <= a < va + size,
    ensures
        translate(new.mem, root, a) == Some(pa + (a - va)),
        ({
            &&& rights(new.mem, root, a) matches Some(r)
            &&& (r / 0x80 % 2 == 0) == flags.write
            &&& (r / 0x40 % 2 == 1) == (flags.user && (flags.write || flags.read))
            &&& (r / 0x40_0000_0000_0000 % 2 == 0) == flags.execute
            &&& (r / 0x20_0000_0000_0000 % 2 == 0) == (flags.execute && !flags.user)
        }),
{
    law_map(s, root, va, pa, size, 0, flags);
    law_attributes(flags);
    reveal(maps);
    assert(translate(new.mem, root, a) == Some(pa + (a - va)));
}

} // verus!
