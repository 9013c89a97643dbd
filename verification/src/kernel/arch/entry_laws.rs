//! What an entry of a page table holds, bit by bit.

use crate::bytes;
use crate::kernel::arch::mmu;
use crate::kernel::arch::mmu::{MapFlags, Mapping, Space, Walk};
use crate::kernel::arch::translate;
use crate::mem::Memory;
use vstd::prelude::*;

verus! {

/// An address of 39 bits is made of its places in the tables of the three
/// levels, the first in the highest bits, and of its place in the page.
pub proof fn law_address_is_split(va: int)
    requires
        0 <= va < 0x80_0000_0000,
    ensures
        0 <= mmu::index1(va) < 512,
        0 <= mmu::index2(va) < 512,
        0 <= mmu::index3(va) < 512,
        va == mmu::index1(va) * 0x4000_0000 + mmu::index2(va) * 0x20_0000 + mmu::index3(va) * 0x1000
            + va % 0x1000,
{
}

/// Besides what it allows a page is marked as used before and as shared by the
/// processors, and nothing else is said of it.
pub proof fn law_attributes_are_marked(flags: MapFlags)
    ensures
        ({
            let a = mmu::attributes(flags) as int;
            &&& a / 0x400 % 2 == 1
            &&& a / 0x100 % 4 == 3
            &&& a % 0x40 == 0
            &&& a / 0x800 % 0x400_0000_0000 == 0
            &&& a < 0x80_0000_0000_0000
        }),
{
}

/// The entry of a page that was mapped holds its address, the attributes that
/// were asked for, and the two lowest bits.
pub proof fn law_page_entry(s: Space, new: Space, root: int, va: int, pa: u64, flags: MapFlags)
    requires
        translate::tables_ok(s, root),
        0 <= va,
        pa % 4096 == 0,
        pa < 0x1_0000_0000_0000,
        mmu::page_mapped(s, root, va, pa, mmu::attributes(flags)) == Mapping::Done(new),
    ensures
        translate::page(new.mem, root, mmu::index1(va), mmu::index2(va), mmu::index3(va)) == Some(
            pa + mmu::attributes(flags) + 3,
        ),
{
    translate::law_map_page(s, root, va, pa, flags);
    assert(translate::same_page(va, va));
    assert(translate::translate(new.mem, root, va) == Some(pa + va % 4096));
    assert(translate::rights(new.mem, root, va) == Some(mmu::attributes(flags) as int));
}

/// A new table has no entries, and the entry that leads to it holds its address
/// and the two lowest bits. No other byte of memory changes.
pub proof fn law_new_table_is_linked(s: Space, slot: int, e: int)
    requires
        slot <= u64::MAX,
        s.mem.get64(slot) == Some(e),
        e % 2 == 0,
        s.frames.take() matches Some((pa, _)) && s.mem.covers(pa, 4096) && 0 <= pa <= u64::MAX && pa
            % 4096 == 0 && (slot + 8 <= pa || pa + 4096 <= slot),
    ensures
        ({
            let pa = (s.frames.take()->0).0;
            &&& mmu::next_table(s, slot) matches Walk::Table(t, new) && {
                &&& t == pa
                &&& new.frames == (s.frames.take()->0).1
                &&& new.mem.get64(slot) == Some(pa + 3)
                &&& forall|a: int|
                    !(slot <= a < slot + 8) ==> #[trigger] new.mem.get8(a) == if pa <= a < pa + 4096 {
                        Some(0int)
                    } else {
                        s.mem.get8(a)
                    }
            }
        }),
{
    reveal(mmu::next_table);
    let pa = (s.frames.take()->0).0;
    let p = pa as u64;
    assert(p | 1u64 | 2u64 == p + 3) by (bit_vector)
        requires
            p % 4096 == 0,
    ;
    let cleared = s.mem.put(pa, bytes::zeros(4096));
    let v = p | mmu::DESC_VALID | mmu::DESC_TABLE;
    crate::mem::law_written_bytes_are_read(s.mem, pa, bytes::zeros(4096));
    crate::mem::law_written_bytes_are_read(cleared, slot, bytes::le64_bytes(v));
    bytes::lemma_le64_roundtrip(v);
    lemma_written_number(cleared, slot, v);
}

proof fn lemma_written_number(m: Memory, at: int, v: u64)
    requires
        m.covers(at, 8),
    ensures
        m.put(at, bytes::le64_bytes(v)).get64(at) == Some(v as int),
{
    let data = bytes::le64_bytes(v);
    let b = m.put(at, data).bytes;
    bytes::lemma_le64_roundtrip(v);
    assert(b.subrange(at - m.base, at - m.base + 8) =~= data);
    assert forall|k: int| 0 <= k < 8 implies b[at - m.base + k] == data[k] by {}
    assert(bytes::le64(b, at - m.base) == bytes::le64(data, 0));
}

/// The blocks of the kernel's own map: memory is of the first kind and can be
/// executed by the kernel alone; device registers are of the second kind and are
/// never executed.
pub proof fn law_kernel_blocks(table: Seq<u64>, base: int, attrs: u64, i: int)
    requires
        base == 0 || base == 0x4000_0000 || base == 0x8000_0000,
        mmu::maps_blocks(table, base, attrs),
        0 <= i < 512,
    ensures
        attrs == mmu::BLOCK_NORMAL || attrs == mmu::BLOCK_DEVICE ==> {
            let e = table[i] as int;
            &&& e % 4 == 1
            &&& e / 4 % 8 == if attrs == mmu::BLOCK_DEVICE {
                1int
            } else {
                0
            }
            &&& e / 0x40 % 4 == 0
            &&& e / 0x400 % 2 == 1
            &&& e / 0x40_0000_0000_0000 % 2 == 1
            &&& e / 0x20_0000_0000_0000 % 2 == if attrs == mmu::BLOCK_DEVICE {
                1int
            } else {
                0
            }
        },
{
    assert(table[i] == base + i * mmu::BLOCK_SIZE + attrs);
    let pa = base + i * 0x20_0000;
    assert(pa % 0x20_0000 == 0);
    assert(0 <= pa < 0x1_0000_0000);
}

} // verus!
