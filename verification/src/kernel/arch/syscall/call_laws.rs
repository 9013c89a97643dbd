//! What calls that print, map memory or hand out facts do, by the bytes that
//! they print and the memory that they change.

use crate::align;
use crate::bytes;
use crate::kernel::arch::context::Frame;
use crate::kernel::arch::machine::{FileView, FlowView, MachineView, Outcome, ReadFor};
use crate::kernel::arch::syscall::dispatch;
use crate::kernel::arch::syscall::file_laws;
use crate::kernel::arch::syscall::file_laws::{calls, failed, is_file, only_logged, returned};
use crate::kernel::arch::syscall::info;
use crate::kernel::arch::syscall::info::SysctlView;
use crate::kernel::arch::syscall::memory;
use crate::kernel::arch::syscall::output;
use crate::mem;
use crate::mem::{Memory, Stop};
use vstd::prelude::*;
use vstd::utf8::*;

verus! {

proof fn lemma_carry(p: u64)
    ensures
        (p | 0x2000_0000u64) & 0x2000_0000u64 != 0,
        (p & !0x2000_0000u64) & 0x2000_0000u64 == 0,
{
    assert((p | 0x2000_0000u64) & 0x2000_0000u64 != 0 && (p & !0x2000_0000u64) & 0x2000_0000u64
        == 0) by (bit_vector);
}

/// What a supervisor call does.
#[verifier::opaque]
pub open spec fn call(m: MachineView, f: Frame, ticks: u64) -> Outcome {
    dispatch::dispatch_outcome(m, f, ticks)
}

proof fn lemma_call_mmap(m: MachineView, f: Frame, ticks: u64)
    requires
        f.x[16] == 197,
    ensures
        call(m, f, ticks) == memory::mmap_outcome(m, dispatch::cleared(f)),
{
    reveal(call);
}

proof fn lemma_call_vm(m: MachineView, f: Frame, ticks: u64)
    ensures
        f.x[16] == 0xffff_ffff_ffff_fff6 ==> call(m, f, ticks) == memory::vm_outcome(
            m,
            f,
            "xnu-rs: vm_allocate size=0x"@,
        ),
        f.x[16] == 0xffff_ffff_ffff_fff1 ==> call(m, f, ticks) == memory::vm_outcome(
            m,
            f,
            "xnu-rs: vm_map size=0x"@,
        ),
{
    reveal(call);
}

proof fn lemma_call_record(m: MachineView, f: Frame, ticks: u64)
    ensures
        f.x[16] == 116 ==> call(m, f, ticks) == info::gave(
            m,
            dispatch::cleared(f),
            f.x[0],
            bytes::zeros(12),
        ),
        f.x[16] == 117 ==> call(m, f, ticks) == info::gave(
            m,
            dispatch::cleared(f),
            f.x[1],
            bytes::zeros(144),
        ),
        f.x[16] == 194 ==> call(m, f, ticks) == info::gave(
            m,
            dispatch::cleared(f),
            f.x[1],
            info::no_limits(),
        ),
        f.x[16] == 54 ==> call(m, f, ticks) == info::ioctl_outcome(m, dispatch::cleared(f)),
{
    reveal(call);
}

// ── Printing ───────────────────────────────────────────────────────────────

/// Whether `n` is `m` with these bytes of memory behind the log.
pub open spec fn printed_span(m: MachineView, n: MachineView, addr: int, len: int) -> bool {
    &&& only_logged(m, n)
    &&& n.log.len() == m.log.len() + len
    &&& n.log.take(m.log.len() as int) == m.log
    &&& forall|k: int|
        0 <= k < len ==> m.mem.get8(addr + k) == Some(#[trigger] n.log[m.log.len() + k] as int)
}

/// Writing to the console prints the bytes of the buffer, all of them and in
/// order, and says how many they were.
pub proof fn law_write_prints(m: MachineView, f: Frame, ticks: u64)
    requires
        calls(f, 4) || calls(f, 154),
        f.x[0] == 1 || f.x[0] == 2 || f.x[0] == 101,
        f.x[1] != 0,
        f.x[2] <= 65536,
        m.mem.covers(f.x[1] as int, f.x[2] as int),
    ensures
        returned(f, dispatch::dispatch_outcome(m, f, ticks), f.x[2] as int),
        printed_span(
            m,
            dispatch::dispatch_outcome(m, f, ticks).m,
            f.x[1] as int,
            f.x[2] as int,
        ),
{
    lemma_carry(f.pstate);
    let g = dispatch::cleared(f);
    lemma_write(m, g);
    assert(dispatch::dispatch_outcome(m, f, ticks) == output::write_outcome(m, g));
}

proof fn lemma_write(m: MachineView, f: Frame)
    requires
        f.x.len() == 31,
        f.x[0] == 1 || f.x[0] == 2 || f.x[0] == 101,
        f.x[1] != 0,
        f.x[2] <= 65536,
        m.mem.covers(f.x[1] as int, f.x[2] as int),
        f.pstate & 0x2000_0000u64 == 0,
    ensures
        returned(f, output::write_outcome(m, f), f.x[2] as int),
        printed_span(m, output::write_outcome(m, f).m, f.x[1] as int, f.x[2] as int),
{
    let o = output::write_outcome(m, f);
    assert(o.m.log.take(m.log.len() as int) =~= m.log);
}

/// Writing anywhere else, or nothing, or too much, is an error and prints
/// nothing.
pub proof fn law_write_refused(m: MachineView, f: Frame, ticks: u64)
    requires
        calls(f, 4) || calls(f, 154),
        f.x[0] != 1 && f.x[0] != 2 && f.x[0] != 101 || f.x[1] == 0 || f.x[2] > 65536,
    ensures
        failed(f, dispatch::dispatch_outcome(m, f, ticks), 9),
        dispatch::dispatch_outcome(m, f, ticks).m == m,
{
    lemma_carry(f.pstate & !0x2000_0000u64);
}

/// A buffer in a list: its address and its length.
pub struct Buffer {
    pub base: u64,
    pub len: u64,
}

/// Whether a buffer is printed: it is there and not too long.
pub open spec fn prints(b: Buffer) -> bool {
    b.base != 0 && b.len <= 65536
}

/// The bytes of the buffers that are printed, one behind the other.
pub open spec fn all_bytes(m: Memory, bufs: Seq<Buffer>) -> Seq<u8>
    decreases bufs.len(),
{
    if bufs.len() == 0 {
        Seq::empty()
    } else if prints(bufs[0]) {
        m.slice(bufs[0].base as int, bufs[0].len as int) + all_bytes(m, bufs.drop_first())
    } else {
        all_bytes(m, bufs.drop_first())
    }
}

/// Whether a list of buffers stands at `at`, and those that are printed lie in
/// memory.
pub open spec fn list_at(m: Memory, at: u64, bufs: Seq<Buffer>) -> bool {
    &&& at + 16 * bufs.len() <= u64::MAX
    &&& forall|i: int|
        0 <= i < bufs.len() ==> {
            &&& m.get64(at + 16 * i) == Some((#[trigger] bufs[i]).base as int)
            &&& m.get64(at + 16 * i + 8) == Some(bufs[i].len as int)
            &&& prints(bufs[i]) ==> m.covers(bufs[i].base as int, bufs[i].len as int)
        }
}

proof fn lemma_buffers(m: MachineView, iov: u64, bufs: Seq<Buffer>, i: int, total: int)
    requires
        list_at(m.mem, iov, bufs),
        0 <= i <= bufs.len(),
        bufs.len() <= u64::MAX,
    ensures
        ({
            let (n, r) = output::buffers_printed(m, iov, bufs.len() as u64, i, total);
            let rest = all_bytes(m.mem, bufs.skip(i));
            &&& n == (MachineView { log: m.log + rest, ..m })
            &&& r == Ok::<int, Stop>(total + rest.len())
        }),
    decreases bufs.len() - i,
{
    let s = bufs.skip(i);
    if i < bufs.len() {
        assert(s[0] == bufs[i]);
        assert(s.drop_first() =~= bufs.skip(i + 1));
        let b = bufs[i];
        assert(m.mem.get64(iov + 16 * i) == Some(b.base as int));
        if prints(b) {
            let part = m.mem.slice(b.base as int, b.len as int);
            let q = output::printed(m, part);
            assert(list_at(q.mem, iov, bufs));
            lemma_buffers(q, iov, bufs, i + 1, total + b.len);
            if b.len == 0 {
                assert(part =~= Seq::<u8>::empty());
            }
            assert(m.span(b.base, b.len) == Ok::<Seq<u8>, Stop>(part));
            assert(m.log + (part + all_bytes(m.mem, bufs.skip(i + 1))) =~= m.log + part
                + all_bytes(m.mem, bufs.skip(i + 1)));
        } else {
            lemma_buffers(m, iov, bufs, i + 1, total);
        }
    } else {
        assert(m.log + Seq::<u8>::empty() =~= m.log);
    }
}

/// Writing a list of buffers to the console prints the bytes of all of them, one
/// behind the other, and says how many they were. Buffers that are not there or
/// too long are passed over.
pub proof fn law_writev_prints(m: MachineView, f: Frame, ticks: u64, bufs: Seq<Buffer>)
    requires
        calls(f, 121),
        f.x[0] == 1 || f.x[0] == 2,
        f.x[1] != 0,
        f.x[2] == bufs.len(),
        bufs.len() <= 64,
        list_at(m.mem, f.x[1], bufs),
    ensures
        ({
            let o = dispatch::dispatch_outcome(m, f, ticks);
            let all = all_bytes(m.mem, bufs);
            &&& returned(f, o, all.len() as int)
            &&& only_logged(m, o.m)
            &&& o.m.log == m.log + all
        }),
{
    lemma_carry(f.pstate);
    lemma_buffers(m, f.x[1], bufs, 0, 0);
    assert(bufs.skip(0) =~= bufs);
    lemma_total(m.mem, bufs);
}

proof fn lemma_total(m: Memory, bufs: Seq<Buffer>)
    requires
        forall|i: int|
            0 <= i < bufs.len() && prints(#[trigger] bufs[i]) ==> m.covers(
                bufs[i].base as int,
                bufs[i].len as int,
            ),
    ensures
        all_bytes(m, bufs).len() <= 65536 * bufs.len(),
    decreases bufs.len(),
{
    if bufs.len() > 0 {
        let d = bufs.drop_first();
        assert(bufs[0] == bufs[0]);
        assert forall|i: int| 0 <= i < d.len() && prints(#[trigger] d[i]) implies m.covers(
            d[i].base as int,
            d[i].len as int,
        ) by {
            assert(d[i] == bufs[i + 1]);
        }
        lemma_total(m, d);
    }
}

/// Writing a list of buffers anywhere else, or no list, or too long a one, takes
/// nothing.
pub proof fn law_writev_passes_over(m: MachineView, f: Frame, ticks: u64)
    requires
        calls(f, 121),
        f.x[0] != 1 && f.x[0] != 2 || f.x[1] == 0 || f.x[2] > 64,
    ensures
        returned(f, dispatch::dispatch_outcome(m, f, ticks), 0),
        dispatch::dispatch_outcome(m, f, ticks).m == m,
{
    lemma_carry(f.pstate);
}

/// Whether text stands somewhere in what was logged.
pub open spec fn logged(log: Seq<u8>, text: Seq<u8>) -> bool {
    exists|a: int| 0 <= a <= a + text.len() <= log.len() && #[trigger] log.subrange(
        a,
        a + text.len(),
    ) == text
}

proof fn lemma_reason(m: MachineView, ptr: u64, reason: Seq<u8>, i: int)
    requires
        0 <= i <= reason.len() <= 1023,
        ptr + reason.len() <= u64::MAX,
        forall|k: int|
            0 <= k < reason.len() ==> #[trigger] reason[k] != 0 && m.mem.get8(ptr + k) == Some(
                reason[k] as int,
            ),
        m.mem.get8(ptr + reason.len()) == Some(0int),
    ensures
        output::reason_printed(m, ptr, i) == (
            MachineView { log: m.log + reason.skip(i), ..m },
            None::<Stop>,
        ),
    decreases reason.len() - i,
{
    if i < reason.len() {
        assert(reason[i] != 0);
        let n = MachineView { log: m.log.push(reason[i]), ..m };
        lemma_reason(n, ptr, reason, i + 1);
        assert(n.log + reason.skip(i + 1) =~= m.log + reason.skip(i));
    } else {
        assert(m.log + reason.skip(i) =~= m.log);
    }
}

/// An abort ends the program for good, and the reason that stands in memory is
/// printed.
pub proof fn law_abort_prints_reason(m: MachineView, f: Frame, ticks: u64, reason: Seq<u8>)
    requires
        calls(f, 521),
        f.x[4] != 0,
        reason.len() <= 1023,
        f.x[4] + reason.len() <= u64::MAX,
        forall|k: int|
            0 <= k < reason.len() ==> #[trigger] reason[k] != 0 && m.mem.get8(f.x[4] + k) == Some(
                reason[k] as int,
            ),
        m.mem.get8(f.x[4] + reason.len()) == Some(0int),
    ensures
        ({
            let o = dispatch::dispatch_outcome(m, f, ticks);
            &&& o.flow == FlowView::Halt
            &&& only_logged(m, o.m)
            &&& logged(o.m.log, reason)
        }),
{
    let n = m.say("\n*** xnu-rs user abort_with_payload: ns="@).hex(f.x[0]).say(" code="@).hex(
        f.x[1],
    ).say(" payload_sz="@).hex(f.x[3]).say(" reason=\""@);
    lemma_reason(n, f.x[4], reason, 0);
    let o = dispatch::dispatch_outcome(m, f, ticks);
    let a = n.log.len() as int;
    assert(o.m.log.subrange(a, a + reason.len()) =~= reason);
}

/// The end of a program ends it for good.
pub proof fn law_exit_halts(m: MachineView, f: Frame, ticks: u64)
    requires
        calls(f, 1),
    ensures
        dispatch::dispatch_outcome(m, f, ticks).flow == FlowView::Halt,
        only_logged(m, dispatch::dispatch_outcome(m, f, ticks).m),
{
}

// ── Mapping memory ─────────────────────────────────────────────────────────

/// The lowest multiple of the page size that is not below `x`.
pub open spec fn is_page_up(x: int, up: int) -> bool {
    up % 4096 == 0 && x <= up < x + 4096
}

/// Rounding up to whole pages gives the lowest whole number of pages that is
/// enough.
pub proof fn law_page_up(x: int)
    requires
        0 <= x,
    ensures
        is_page_up(x, align::page_up(x)),
{
}

/// Whether memory is the same but for zeros from `dest` on.
pub open spec fn zeroed_at(m: Memory, n: Memory, dest: int, len: int) -> bool {
    &&& n.base == m.base
    &&& n.bytes.len() == m.bytes.len()
    &&& forall|x: int|
        #[trigger] n.get8(x) == if dest <= x < dest + len {
            Some(0int)
        } else {
            m.get8(x)
        }
}

proof fn lemma_zeroed(m: Memory, dest: int, len: nat)
    requires
        m.covers(dest, len as int),
    ensures
        zeroed_at(m, m.put(dest, bytes::zeros(len)), dest, len as int),
{
    mem::law_written_bytes_are_read(m, dest, bytes::zeros(len));
    let n = m.put(dest, bytes::zeros(len));
    assert forall|x: int|
        #[trigger] n.get8(x) == if dest <= x < dest + len {
            Some(0int)
        } else {
            m.get8(x)
        } by {
        if dest <= x < dest + len {
            assert(bytes::zeros(len)[x - dest] == 0);
        }
    }
}

/// Whether a call of `mmap` names its address, inside memory.
pub open spec fn is_fixed(f: Frame, size: int) -> bool {
    &&& f.x[3] & 0x10u64 != 0
    &&& 0x4000_0000 <= f.x[0]
    &&& f.x[0] + size <= 0xc000_0000
}

/// Where the next mapping without an address goes.
pub open spec fn next_free(m: MachineView) -> int {
    if m.mmap_base == 0 {
        0x6000_0000
    } else {
        m.mmap_base as int
    }
}

/// Where a mapping of `size` bytes goes, if it fits.
pub open spec fn goes_to(m: MachineView, f: Frame, size: int) -> Option<int> {
    if f.x[3] & 0x10u64 != 0 && f.x[0] != 0 {
        if is_fixed(f, size) {
            Some(f.x[0] as int)
        } else {
            None
        }
    } else if next_free(m) + size <= 0xbf00_0000 {
        Some(next_free(m))
    } else {
        None
    }
}

/// Whether `n` is `m` with zeroed memory at `dest`, and with that room taken
/// unless the address was given.
pub open spec fn room_taken(
    m: MachineView,
    n: MachineView,
    f: Frame,
    dest: int,
    size: int,
) -> bool {
    &&& zeroed_at(m.mem, n.mem, dest, size)
    &&& n.files == m.files
    &&& n.port_counter == m.port_counter
    &&& n.thread_pointer == m.thread_pointer
    &&& if f.x[3] & 0x10u64 != 0 && f.x[0] != 0 {
        n.mmap_base == m.mmap_base
    } else {
        n.mmap_base == dest + size
    }
}

/// A mapping without a file is whole pages of zeros: at the given address if the
/// call names one, else at the next free one, which moves on by as much. One
/// that does not fit is an error and takes nothing.
pub proof fn law_anonymous_memory(m: MachineView, f: Frame, ticks: u64, size: int)
    requires
        calls(f, 197),
        f.x[3] & 0x1000u64 != 0,
        f.x[1] <= 0x8000_0000,
        f.x[0] <= 0xffff_ffff_0000_0000,
        next_free(m) <= 0xbf00_0000,
        is_page_up(f.x[1] as int, size),
        goes_to(m, f, size) matches Some(dest) ==> m.mem.covers(dest, size),
    ensures
        ({
            let o = call(m, f, ticks);
            &&& goes_to(m, f, size) is None ==> failed(f, o, 12) && only_logged(m, o.m)
            &&& goes_to(m, f, size) matches Some(dest) ==> returned(f, o, dest) && room_taken(
                m,
                o.m,
                f,
                dest,
                size,
            )
        }),
{
    lemma_carry(f.pstate);
    lemma_carry(f.pstate & !0x2000_0000u64);
    law_page_up(f.x[1] as int);
    assert(size == align::page_up(f.x[1] as int));
    lemma_call_mmap(m, f, ticks);
    let g = dispatch::cleared(f);
    let t = memory::mmap_traced(m, g);
    lemma_placed(t, g, size);
    if let Some(dest) = goes_to(m, f, size) {
        lemma_zeroed(m.mem, dest, size as nat);
        if size == 0 {
            assert(m.mem.put(dest, bytes::zeros(0)).bytes =~= m.mem.bytes);
        }
    }
}

proof fn lemma_placed(m: MachineView, f: Frame, size: int)
    requires
        f.x.len() == 31,
        0 <= size <= 0x8000_1000,
        f.x[0] <= 0xffff_ffff_0000_0000,
        next_free(m) <= 0xbf00_0000,
    ensures
        match goes_to(m, f, size) {
            None => memory::placed(m, f, size) matches Err(o) && o.flow == FlowView::Resume
                && o.f == crate::kernel::arch::machine::fail(f, 12) && only_logged(m, o.m),
            Some(dest) => memory::placed(m, f, size) == Ok::<(u64, MachineView), Outcome>(
                (
                    dest as u64,
                    if f.x[3] & 0x10u64 != 0 && f.x[0] != 0 {
                        m
                    } else {
                        MachineView { mmap_base: (dest + size) as u64, ..m }
                    },
                ),
            ),
        },
{
}

/// A mapping of a file is zeroed first, and then the bytes of the file from the
/// given offset on are asked for, as many as the mapping and the file have.
pub proof fn law_file_mapping_asks(m: MachineView, f: Frame, ticks: u64, size: int)
    requires
        calls(f, 197),
        f.x[3] & 0x1000u64 == 0,
        0 < f.x[1] <= 0x8000_0000,
        f.x[0] <= 0xffff_ffff_0000_0000,
        next_free(m) <= 0xbf00_0000,
        is_page_up(f.x[1] as int, size),
        goes_to(m, f, size) is Some,
        m.mem.covers(goes_to(m, f, size)->0, size),
        is_file(m, f.x[4]),
        f.x[5] < file_laws::file(m, f.x[4]).data_size,
        file_laws::file(m, f.x[4]).data_offset + f.x[5] <= u64::MAX,
    ensures
        ({
            let o = call(m, f, ticks);
            let a = file_laws::file(m, f.x[4]);
            let dest = goes_to(m, f, size)->0;
            &&& room_taken(m, o.m, f, dest, size)
            &&& o.f.x == f.x
            &&& o.flow is Read
            &&& o.flow->offset == a.data_offset + f.x[5]
            &&& o.flow->len == file_laws::lesser(f.x[1] as int, a.data_size - f.x[5])
            &&& o.flow->read_for == ReadFor::Mmap { dest: dest as u64, len: f.x[1] }
        }),
{
    law_page_up(f.x[1] as int);
    assert(size == align::page_up(f.x[1] as int));
    lemma_call_mmap(m, f, ticks);
    let g = dispatch::cleared(f);
    lemma_placed(memory::mmap_traced(m, g), g, size);
    lemma_zeroed(m.mem, goes_to(m, f, size)->0, size as nat);
}

/// The bytes of the file stand at the start of the mapping, zeros behind them up
/// to its length, and no other byte changes. No file position moves.
pub proof fn law_file_mapping_ends(
    m: MachineView,
    f: Frame,
    dest: u64,
    len: u64,
    data: Seq<u8>,
)
    requires
        f.x.len() == 31,
        f.pstate & 0x2000_0000u64 == 0,
        data.len() <= len,
        dest + len <= u64::MAX,
        m.mem.covers(dest as int, len as int),
    ensures
        ({
            let o = dispatch::disk_outcome(m, f, ReadFor::Mmap { dest, len }, Some(data));
            &&& returned(f, o, dest as int)
            &&& o.m == MachineView { mem: o.m.mem, ..m }
            &&& o.m.mem.base == m.mem.base
            &&& o.m.mem.bytes.len() == m.mem.bytes.len()
            &&& forall|x: int|
                #[trigger] o.m.mem.get8(x) == if dest <= x < dest + data.len() {
                    Some(data[x - dest] as int)
                } else if dest + data.len() <= x < dest + len {
                    Some(0int)
                } else {
                    m.mem.get8(x)
                }
        }),
{
    mem::law_written_bytes_are_read(m.mem, dest as int, data);
    let n = m.mem.put(dest as int, data);
    let d = data.len() as int;
    lemma_zeroed(n, dest + d, (len - d) as nat);
    let o = dispatch::disk_outcome(m, f, ReadFor::Mmap { dest, len }, Some(data));
    if d == 0 {
        assert(n.bytes =~= m.mem.bytes);
    }
    let p = n.put(dest + d, bytes::zeros((len - d) as nat));
    if d == len {
        assert(p.bytes =~= n.bytes);
    }
    assert(o.m.mem =~= p);
    assert forall|x: int|
        #[trigger] o.m.mem.get8(x) == if dest <= x < dest + d {
            Some(data[x - dest] as int)
        } else if dest + d <= x < dest + len {
            Some(0int)
        } else {
            m.mem.get8(x)
        } by {
        assert(p.get8(x) == if dest + d <= x < dest + d + (len - d) {
            Some(0int)
        } else {
            n.get8(x)
        });
        if dest <= x < dest + d {
            assert(n.get8(dest + (x - dest)) == Some(data[x - dest] as int));
        } else {
            assert(n.get8(x) == m.mem.get8(x));
        }
    }
}

/// A mapping of a file that is not open, or that the disk cannot read, is an
/// error.
pub proof fn law_file_mapping_fails(m: MachineView, f: Frame, dest: u64, len: u64)
    requires
        f.x.len() == 31,
    ensures
        ({
            let o = dispatch::disk_outcome(m, f, ReadFor::Mmap { dest, len }, None);
            failed(f, o, 5) && only_logged(m, o.m)
        }),
{
    lemma_carry(f.pstate);
}

/// Whether a frame is that of a Mach trap with this number below zero.
pub open spec fn traps(f: Frame, nr: int) -> bool {
    f.x.len() == 31 && f.x[16] == 0x1_0000_0000_0000_0000 - nr
}

/// Allocating memory by a trap takes the next whole pages, zeroes them, and
/// writes their address where the second register says; without room it says so
/// and takes nothing.
pub proof fn law_vm_allocate(m: MachineView, f: Frame, ticks: u64, size: int)
    requires
        traps(f, 10) || traps(f, 15),
        f.x[2] <= 0x8000_0000,
        next_free(m) <= 0xbf00_0000,
        is_page_up(f.x[2] as int, size),
        f.x[1] != 0,
        m.mem.covers(f.x[1] as int, 8),
        f.x[1] + 8 <= next_free(m) || next_free(m) + size <= f.x[1],
        next_free(m) + size <= 0xbf00_0000 ==> m.mem.covers(next_free(m), size),
    ensures
        ({
            let o = call(m, f, ticks);
            &&& o.flow == FlowView::Resume
            &&& o.f.pstate == f.pstate
            &&& o.m.files == m.files
            &&& next_free(m) + size > 0xbf00_0000 ==> o.f.x[0] == 3 && only_logged(m, o.m)
            &&& next_free(m) + size <= 0xbf00_0000 ==> {
                &&& o.f.x[0] == 0
                &&& o.m.mmap_base == next_free(m) + size
                &&& o.m.mem.get64(f.x[1] as int) == Some(next_free(m))
                &&& forall|x: int|
                    !(f.x[1] <= x < f.x[1] + 8) ==> #[trigger] o.m.mem.get8(x) == if next_free(m)
                        <= x < next_free(m) + size {
                        Some(0int)
                    } else {
                        m.mem.get8(x)
                    }
            }
        }),
{
    law_page_up(f.x[2] as int);
    assert(size == align::page_up(f.x[2] as int));
    lemma_call_vm(m, f, ticks);
    lemma_vm_taken(m, f.x[1], f.x[2], size, "xnu-rs: vm_allocate size=0x"@);
    lemma_vm_taken(m, f.x[1], f.x[2], size, "xnu-rs: vm_map size=0x"@);
}

pub proof fn lemma_vm_taken(m: MachineView, out: u64, wanted: u64, size: int, label: Seq<char>)
    requires
        wanted <= 0x8000_0000,
        next_free(m) <= 0xbf00_0000,
        size == align::page_up(wanted as int),
        out != 0,
        m.mem.covers(out as int, 8),
        out + 8 <= next_free(m) || next_free(m) + size <= out,
        next_free(m) + size <= 0xbf00_0000 ==> m.mem.covers(next_free(m), size),
    ensures
        ({
            let (n, r) = memory::vm_taken(m, out, wanted, label);
            &&& n.files == m.files
            &&& next_free(m) + size > 0xbf00_0000 ==> r == Ok::<u64, Stop>(3) && only_logged(m, n)
            &&& next_free(m) + size <= 0xbf00_0000 ==> {
                &&& r == Ok::<u64, Stop>(0)
                &&& n.mmap_base == next_free(m) + size
                &&& n.mem.get64(out as int) == Some(next_free(m))
                &&& forall|x: int|
                    !(out <= x < out + 8) ==> #[trigger] n.mem.get8(x) == if next_free(m) <= x
                        < next_free(m) + size {
                        Some(0int)
                    } else {
                        m.mem.get8(x)
                    }
            }
        }),
{
    law_page_up(wanted as int);
    if next_free(m) + size <= 0xbf00_0000 {
        let start = next_free(m);
        lemma_zeroed(m.mem, start, size as nat);
        let n = m.mem.put(start, bytes::zeros(size as nat));
        if size == 0 {
            assert(n.bytes =~= m.mem.bytes);
        }
        mem::law_written_bytes_are_read(n, out as int, bytes::le64_bytes(start as u64));
        mem::lemma_get_after_put64(n, out as int, start as u64);
        assert(memory::vm_taken(m, out, wanted, label).0.mem == n.put(
            out as int,
            bytes::le64_bytes(start as u64),
        ));
    }
}

/// Each port that a trap asks for has another name, up to the last one.
pub proof fn law_ports_are_numbered(m: MachineView, f: Frame, g: Frame, ticks: u64, later: u64)
    requires
        traps(f, 26),
        traps(g, 26),
        m.port_counter < u32::MAX,
    ensures
        ({
            let o = dispatch::dispatch_outcome(m, f, ticks);
            let p = dispatch::dispatch_outcome(o.m, g, later);
            &&& o.flow == FlowView::Resume
            &&& o.f.x[0] == m.port_counter
            &&& p.f.x[0] == o.f.x[0] + 1
            &&& o.m.mem == m.mem
            &&& o.m.files == m.files
            &&& o.m.log == m.log
        }),
{
}

// ── Facts ──────────────────────────────────────────────────────────────────

/// Calls that write a record: the time of day, the resources used, the limits
/// and the window size.
pub proof fn law_records_are_written(m: MachineView, f: Frame, ticks: u64, at: u64, data: Seq<u8>)
    requires
        f.x.len() == 31,
        ({
            ||| f.x[16] == 116 && at == f.x[0] && data == Seq::new(12, |i: int| 0u8)
            ||| f.x[16] == 117 && at == f.x[1] && data == Seq::new(144, |i: int| 0u8)
            ||| f.x[16] == 194 && at == f.x[1] && data == Seq::new(16, |i: int| 0xffu8)
            ||| f.x[16] == 54 && f.x[1] == 0x4008_7468 && at == f.x[2] && data == seq![
                24u8,
                0,
                80,
                0,
                0,
                0,
                0,
                0,
            ]
        }),
        at != 0,
        m.mem.covers(at as int, data.len() as int),
    ensures
        ({
            let o = call(m, f, ticks);
            &&& returned(f, o, 0)
            &&& o.m == MachineView { mem: o.m.mem, ..m }
            &&& mem::changed_at(m.mem, o.m.mem, at as int, data)
        }),
{
    lemma_carry(f.pstate);
    let g = dispatch::cleared(f);
    lemma_gave(m, g, at, data);
    lemma_call_record(m, f, ticks);
    if f.x[16] == 116 {
        assert(data =~= bytes::zeros(12));
    } else if f.x[16] == 117 {
        assert(data =~= bytes::zeros(144));
    } else if f.x[16] == 194 {
        assert(data =~= info::no_limits());
    } else {
        assert(data =~= info::window_size());
    }
}

proof fn lemma_gave(m: MachineView, f: Frame, at: u64, data: Seq<u8>)
    requires
        f.x.len() == 31,
        f.pstate & 0x2000_0000u64 == 0,
        at != 0,
        data.len() > 0,
        m.mem.covers(at as int, data.len() as int),
    ensures
        ({
            let o = info::gave(m, f, at, data);
            &&& returned(f, o, 0)
            &&& o.m == MachineView { mem: o.m.mem, ..m }
            &&& mem::changed_at(m.mem, o.m.mem, at as int, data)
        }),
{
    mem::law_written_bytes_are_read(m.mem, at as int, data);
}

/// The bytes of the value that a sysctl name stands for.
pub open spec fn value_bytes(v: SysctlView) -> Option<Seq<u8>> {
    match v {
        SysctlView::Text(s) => Some(encode_utf8(s)),
        SysctlView::Word(w) => Some(bytes::le32_bytes(w)),
        SysctlView::Long(l) => Some(bytes::le64_bytes(l)),
        _ => None,
    }
}

/// A value of the system goes out whole: its bytes where the third register says,
/// how many they are where the fourth does. The name is the two numbers in
/// memory; one that stands for nothing is an error.
pub proof fn law_sysctl_gives_value(m: MachineView, f: Frame, ticks: u64, a: u32, b: u32)
    requires
        calls(f, 202),
        f.x[0] != 0,
        f.x[0] + 8 <= u64::MAX,
        f.x[1] > 1,
        m.mem.get32(f.x[0] as int) == Some(a as int),
        m.mem.get32(f.x[0] + 4) == Some(b as int),
        f.x[2] != 0,
        f.x[3] != 0,
        m.mem.covers(f.x[3] as int, 8),
        value_bytes(info::sysctl_entry(a, b)) matches Some(v) ==> {
            &&& v.len() <= u64::MAX
            &&& m.mem.covers(f.x[2] as int, v.len() as int)
            &&& f.x[2] + v.len() <= f.x[3] || f.x[3] + 8 <= f.x[2]
        },
    ensures
        ({
            let o = dispatch::dispatch_outcome(m, f, ticks);
            match value_bytes(info::sysctl_entry(a, b)) {
                Some(v) => {
                    &&& returned(f, o, 0)
                    &&& o.m == MachineView { mem: o.m.mem, ..m }
                    &&& o.m.mem.get64(f.x[3] as int) == Some(v.len() as int)
                    &&& forall|k: int|
                        0 <= k < v.len() ==> o.m.mem.get8(f.x[2] + k) == Some(
                            (#[trigger] v[k]) as int,
                        )
                    &&& forall|x: int|
                        !(f.x[2] <= x < f.x[2] + v.len()) && !(f.x[3] <= x < f.x[3] + 8)
                            ==> #[trigger] o.m.mem.get8(x) == m.mem.get8(x)
                },
                None => failed(f, o, 2) && only_logged(m, o.m),
            }
        }),
{
    lemma_carry(f.pstate);
    lemma_carry(f.pstate & !0x2000_0000u64);
    if let Some(v) = value_bytes(info::sysctl_entry(a, b)) {
        let w = bytes::le64_bytes(v.len() as u64);
        bytes::lemma_le64_roundtrip(v.len() as u64);
        let n = m.mem.put(f.x[3] as int, w);
        mem::law_written_bytes_are_read(m.mem, f.x[3] as int, w);
        mem::law_written_bytes_are_read(n, f.x[2] as int, v);
        let p = n.put(f.x[2] as int, v);
        if v.len() == 0 {
            assert(p.bytes =~= n.bytes);
        }
        let o = dispatch::dispatch_outcome(m, f, ticks);
        assert(o.m.mem == p);
        let at = f.x[3] - m.mem.base;
        assert forall|k: int| 0 <= k < 8 implies p.bytes[at + k] == #[trigger] w[0 + k] by {
            assert(p.get8(f.x[3] + k) == n.get8(f.x[3] + k));
            assert(n.get8(f.x[3] + k) == Some(w[k] as int));
        }
        bytes::lemma_le_window(p.bytes, at, w, 0, 8);
    }
}

/// A call for a value without a name is an error.
pub proof fn law_sysctl_needs_name(m: MachineView, f: Frame, ticks: u64)
    requires
        calls(f, 202),
        f.x[0] == 0 || f.x[1] == 0,
    ensures
        failed(f, dispatch::dispatch_outcome(m, f, ticks), 22),
        dispatch::dispatch_outcome(m, f, ticks).m == m,
{
    lemma_carry(f.pstate & !0x2000_0000u64);
}

/// Duplicating a descriptor gives it back, or the one that is asked for; the
/// process has one number. None of it changes a thing.
pub proof fn law_simple_results(m: MachineView, f: Frame, ticks: u64)
    requires
        f.x.len() == 31,
        f.x[16] == 20 || f.x[16] == 372 || f.x[16] == 41 || f.x[16] == 90,
    ensures
        ({
            let o = dispatch::dispatch_outcome(m, f, ticks);
            &&& o.m == m
            &&& returned(
                f,
                o,
                if f.x[16] == 41 {
                    f.x[0] as int
                } else if f.x[16] == 90 {
                    f.x[1] as int
                } else {
                    1
                },
            )
        }),
{
    lemma_carry(f.pstate);
}

/// A call that is not there is an error, and changes nothing but the log.
pub proof fn law_unknown_call(m: MachineView, f: Frame, ticks: u64)
    requires
        f.x.len() == 31,
        522 <= f.x[16] < 0x8000_0000,
    ensures
        failed(f, dispatch::dispatch_outcome(m, f, ticks), 38),
        only_logged(m, dispatch::dispatch_outcome(m, f, ticks).m),
{
    lemma_carry(f.pstate & !0x2000_0000u64);
}

/// Calls that are there for show: they return 0 and change nothing.
pub open spec fn does_nothing(nr: u64) -> bool {
    ||| nr == 2 || nr == 12 || nr == 13 || nr == 24 || nr == 25 || nr == 38 || nr == 42 || nr == 43
    ||| nr == 46 || nr == 47 || nr == 48 || nr == 53 || nr == 55 || nr == 73 || nr == 74
    ||| nr == 169 || nr == 170 || nr == 184 || nr == 195 || nr == 242 || nr == 327 || nr == 329
    ||| nr == 332 || nr == 336 || nr == 344 || nr == 350 || nr == 357 || nr == 366 || nr == 381
    ||| nr == 456 || nr == 483 || nr == 500
}

/// Calls that are there for show return 0, those on sockets are not there, and
/// none of them changes a thing.
pub proof fn law_calls_without_effect(m: MachineView, f: Frame, ticks: u64)
    requires
        f.x.len() == 31,
    ensures
        does_nothing(f.x[16]) ==> call(m, f, ticks).m == m && returned(f, call(m, f, ticks), 0),
        f.x[16] == 29 || f.x[16] == 97 || f.x[16] == 98 || f.x[16] == 118 || f.x[16] == 133
            ==> call(m, f, ticks).m == m && failed(f, call(m, f, ticks), 38),
        f.x[16] == 294 ==> call(m, f, ticks).m == m && failed(f, call(m, f, ticks), 2),
{
    lemma_carry(f.pstate);
    lemma_carry(f.pstate & !0x2000_0000u64);
    lemma_call_without_effect(m, f, ticks);
}

#[verifier::spinoff_prover]
#[verifier::rlimit(60)]
proof fn lemma_call_without_effect(m: MachineView, f: Frame, ticks: u64)
    ensures
        does_nothing(f.x[16]) ==> call(m, f, ticks) == crate::kernel::arch::machine::done(
            m,
            crate::kernel::arch::machine::ret(dispatch::cleared(f), 0),
        ),
        f.x[16] == 29 || f.x[16] == 97 || f.x[16] == 98 || f.x[16] == 118 || f.x[16] == 133
            ==> call(m, f, ticks) == crate::kernel::arch::machine::done(
            m,
            crate::kernel::arch::machine::fail(dispatch::cleared(f), 38),
        ),
        f.x[16] == 294 ==> call(m, f, ticks) == crate::kernel::arch::machine::done(
            m,
            crate::kernel::arch::machine::fail(dispatch::cleared(f), 2),
        ),
{
    reveal(call);
}

/// Whether a frame is that of the platform call with a code.
pub open spec fn asks_platform(f: Frame, code: u64) -> bool {
    f.x.len() == 31 && f.x[16] == 0x8000_0000 && f.x[3] == code
}

/// The thread pointer that the platform call sets is the one that it gives later,
/// and setting it changes nothing else.
pub proof fn law_thread_pointer_is_kept(m: MachineView, f: Frame, g: Frame, ticks: u64, later: u64)
    requires
        asks_platform(f, 2),
        asks_platform(g, 3),
    ensures
        ({
            let o = call(m, f, ticks);
            let p = call(o.m, g, later);
            &&& o.flow == FlowView::Resume
            &&& o.f.x[0] == 0
            &&& o.m == MachineView { thread_pointer: o.m.thread_pointer, ..m }
            &&& p.flow == FlowView::Resume
            &&& p.f.x[0] == f.x[0]
            &&& p.m == o.m
        }),
{
    lemma_call_platform(m, f, ticks);
    lemma_call_platform(call(m, f, ticks).m, g, later);
    assert(2u64 as u32 == 2 && 3u64 as u32 == 3);
}

proof fn lemma_call_platform(m: MachineView, f: Frame, ticks: u64)
    requires
        f.x[16] == 0x8000_0000,
    ensures
        call(m, f, ticks) == crate::kernel::arch::syscall::mach::platform_outcome(m, f),
{
    reveal(call);
}

} // verus!
