//! What calls on files do: which bytes of the disk they ask for, where they put
//! them, and where the file position goes.

use crate::bytes;
use crate::kernel::arch::context::Frame;
use crate::kernel::arch::machine::{
    FileView, FlowView, LookupFor, MachineView, Outcome, ReadFor,
};
use crate::kernel::arch::syscall::dispatch;
use crate::kernel::arch::syscall::files;
use crate::mem;
use crate::mem::{Memory, Stop};
use vstd::prelude::*;

verus! {

/// Whether a frame is that of a BSD call with this number.
pub open spec fn calls(f: Frame, nr: u64) -> bool {
    f.x.len() == 31 && f.x[16] == nr
}

/// Whether `fd` is that of an open file.
pub open spec fn is_file(m: MachineView, fd: u64) -> bool {
    fd < m.files.len() && m.files[fd as int] is Some
}

/// Whether `fd` is read by itself, without a file: the first one, and those of
/// devices.
pub open spec fn is_special(fd: u64) -> bool {
    fd == 0 || 100 <= fd <= 103
}

/// The open file with a descriptor.
pub open spec fn file(m: MachineView, fd: u64) -> FileView {
    m.files[fd as int]->0
}

/// Whether two machines differ in what was logged at most.
pub open spec fn only_logged(m: MachineView, n: MachineView) -> bool {
    n == MachineView { log: n.log, ..m }
}

/// Whether the files are the same but for the position of one of them.
pub open spec fn position_is(m: MachineView, n: MachineView, fd: u64, position: int) -> bool {
    &&& n.files.len() == m.files.len()
    &&& is_file(n, fd)
    &&& file(n, fd).seek_offset == position
    &&& file(n, fd).path == file(m, fd).path
    &&& file(n, fd).data_offset == file(m, fd).data_offset
    &&& file(n, fd).data_size == file(m, fd).data_size
    &&& forall|k: int| 0 <= k < m.files.len() && k != fd ==> #[trigger] n.files[k] == m.files[k]
}

/// Whether two machines have the same mappings, port names and thread pointer.
pub open spec fn rest_same(m: MachineView, n: MachineView) -> bool {
    &&& n.mmap_base == m.mmap_base
    &&& n.port_counter == m.port_counter
    &&& n.thread_pointer == m.thread_pointer
}

/// Whether a call went back to user code with a result and no error.
pub open spec fn returned(f: Frame, o: Outcome, v: int) -> bool {
    &&& o.flow == FlowView::Resume
    &&& o.f.x.len() == f.x.len()
    &&& o.f.x[0] == v
    &&& forall|k: int| 0 < k < f.x.len() ==> #[trigger] o.f.x[k] == f.x[k]
    &&& o.f.sp == f.sp
    &&& o.f.pc == f.pc
    &&& o.f.pstate & 0x2000_0000u64 == 0
}

/// Whether a call went back to user code with an error.
pub open spec fn failed(f: Frame, o: Outcome, errno: int) -> bool {
    &&& o.flow == FlowView::Resume
    &&& o.f.x.len() == f.x.len()
    &&& o.f.x[0] == errno
    &&& forall|k: int| 0 < k < f.x.len() ==> #[trigger] o.f.x[k] == f.x[k]
    &&& o.f.sp == f.sp
    &&& o.f.pc == f.pc
    &&& o.f.pstate & 0x2000_0000u64 != 0
}

/// The lesser of two numbers.
pub open spec fn lesser(a: int, b: int) -> int {
    if a < b {
        a
    } else {
        b
    }
}

proof fn lemma_carry(p: u64)
    ensures
        (p | 0x2000_0000u64) & 0x2000_0000u64 != 0,
        (p & !0x2000_0000u64) & 0x2000_0000u64 == 0,
{
    assert((p | 0x2000_0000u64) & 0x2000_0000u64 != 0) by (bit_vector);
    assert((p & !0x2000_0000u64) & 0x2000_0000u64 == 0) by (bit_vector);
}

/// A read from an open file asks the disk for the bytes from the file position
/// on: as many as were asked for, or all that are left. Nothing but the log
/// changes meanwhile.
pub proof fn law_read_asks_from_position(m: MachineView, f: Frame, ticks: u64)
    requires
        calls(f, 3),
        !is_special(f.x[0]),
        is_file(m, f.x[0]),
        f.x[1] != 0,
        f.x[2] != 0,
        file(m, f.x[0]).seek_offset < file(m, f.x[0]).data_size,
        file(m, f.x[0]).data_offset + file(m, f.x[0]).seek_offset <= u64::MAX,
    ensures
        ({
            let o = dispatch::dispatch_outcome(m, f, ticks);
            let a = file(m, f.x[0]);
            &&& only_logged(m, o.m)
            &&& o.f.x == f.x
            &&& o.f.sp == f.sp
            &&& o.f.pc == f.pc
            &&& o.f.pstate & 0x2000_0000u64 == 0
            &&& o.flow is Read
            &&& o.flow->offset == a.data_offset + a.seek_offset
            &&& o.flow->len == lesser(f.x[2] as int, a.data_size - a.seek_offset)
            &&& o.flow->read_for == ReadFor::Read { fd: f.x[0], buf: f.x[1] }
        }),
{
    lemma_carry(f.pstate);
}

/// The bytes that the disk gave stand in memory where the read wanted them, and
/// the position moves on by as many; no other byte, file or descriptor changes.
pub proof fn law_read_moves_position(
    m: MachineView,
    f: Frame,
    fd: u64,
    buf: u64,
    data: Seq<u8>,
)
    requires
        f.x.len() == 31,
        f.pstate & 0x2000_0000u64 == 0,
        is_file(m, fd),
        data.len() <= u64::MAX,
        file(m, fd).seek_offset + data.len() <= u64::MAX,
        m.mem.covers(buf as int, data.len() as int),
    ensures
        ({
            let o = dispatch::disk_outcome(m, f, ReadFor::Read { fd, buf }, Some(data));
            &&& returned(f, o, data.len() as int)
            &&& position_is(m, o.m, fd, file(m, fd).seek_offset + data.len())
            &&& mem::changed_at(m.mem, o.m.mem, buf as int, data)
            &&& rest_same(m, o.m)
        }),
{
    mem::law_written_bytes_are_read(m.mem, buf as int, data);
}

/// A read at or behind the end of a file, or of no bytes, gives 0 and leaves the
/// position and memory alone.
pub proof fn law_read_at_end(m: MachineView, f: Frame, ticks: u64)
    requires
        calls(f, 3),
        !is_special(f.x[0]),
        is_file(m, f.x[0]),
        f.x[1] != 0,
        file(m, f.x[0]).seek_offset >= file(m, f.x[0]).data_size || f.x[2] == 0 && file(
            m,
            f.x[0],
        ).data_offset + file(m, f.x[0]).seek_offset <= u64::MAX,
    ensures
        returned(f, dispatch::dispatch_outcome(m, f, ticks), 0),
        position_is(
            m,
            dispatch::dispatch_outcome(m, f, ticks).m,
            f.x[0],
            file(m, f.x[0]).seek_offset as int,
        ),
        dispatch::dispatch_outcome(m, f, ticks).m.mem == m.mem,
        rest_same(m, dispatch::dispatch_outcome(m, f, ticks).m),
{
    lemma_carry(f.pstate);
}

/// Two reads through one descriptor ask for bytes of the file that follow each
/// other: where the first gave `n` bytes from the position on, the second asks
/// for the bytes `n` further on, and if these are behind the end it gives 0.
pub proof fn law_reads_follow_each_other(
    m: MachineView,
    f: Frame,
    g: Frame,
    ticks: u64,
    later: u64,
    data: Seq<u8>,
)
    requires
        calls(f, 3),
        calls(g, 3),
        f.x[0] == g.x[0],
        !is_special(f.x[0]),
        is_file(m, f.x[0]),
        f.x[1] != 0,
        f.x[2] != 0,
        g.x[1] != 0,
        g.x[2] != 0,
        file(m, f.x[0]).seek_offset < file(m, f.x[0]).data_size,
        file(m, f.x[0]).data_offset + file(m, f.x[0]).data_size <= u64::MAX,
        data.len() == lesser(
            f.x[2] as int,
            file(m, f.x[0]).data_size - file(m, f.x[0]).seek_offset,
        ),
        m.mem.covers(f.x[1] as int, data.len() as int),
    ensures
        ({
            let a = file(m, f.x[0]);
            let n = data.len() as int;
            let asked = dispatch::dispatch_outcome(m, f, ticks);
            let first = dispatch::disk_outcome(
                asked.m,
                asked.f,
                asked.flow->read_for,
                Some(data),
            );
            let second = dispatch::dispatch_outcome(first.m, g, later);
            &&& asked.flow is Read
            &&& asked.flow->offset == a.data_offset + a.seek_offset
            &&& asked.flow->len == n
            &&& returned(f, first, n)
            &&& a.seek_offset + n < a.data_size ==> {
                &&& second.flow is Read
                &&& second.flow->offset == a.data_offset + a.seek_offset + n
                &&& second.flow->len == lesser(g.x[2] as int, a.data_size - a.seek_offset - n)
            }
            &&& a.seek_offset + n >= a.data_size ==> {
                &&& returned(g, second, 0)
                &&& second.m.files == first.m.files
                &&& second.m.mem == first.m.mem
            }
        }),
{
    law_read_asks_from_position(m, f, ticks);
    let asked = dispatch::dispatch_outcome(m, f, ticks);
    law_read_moves_position(asked.m, asked.f, f.x[0], f.x[1], data);
    let first = dispatch::disk_outcome(asked.m, asked.f, asked.flow->read_for, Some(data));
    if file(first.m, g.x[0]).seek_offset < file(first.m, g.x[0]).data_size {
        law_read_asks_from_position(first.m, g, later);
    } else {
        law_read_at_end(first.m, g, later);
        let second = dispatch::dispatch_outcome(first.m, g, later);
        assert(second.m.files[g.x[0] as int] == first.m.files[g.x[0] as int]);
        assert(second.m.files =~= first.m.files);
    }
}

/// A read that the disk could not carry out is an error, and leaves files and
/// memory alone.
pub proof fn law_failed_disk_read(m: MachineView, f: Frame, read_for: ReadFor)
    requires
        f.x.len() == 31,
        !(read_for is Mmap),
    ensures
        failed(f, dispatch::disk_outcome(m, f, read_for, None), 5),
        only_logged(m, dispatch::disk_outcome(m, f, read_for, None).m),
{
    lemma_carry(f.pstate);
}

/// A read through a descriptor of no open file fails, and so does one into no
/// buffer; neither changes files or memory.
pub proof fn law_read_refused(m: MachineView, f: Frame, ticks: u64)
    requires
        calls(f, 3),
        !is_special(f.x[0]),
        f.x[1] == 0 || !is_file(m, f.x[0]),
    ensures
        failed(
            f,
            dispatch::dispatch_outcome(m, f, ticks),
            if f.x[1] == 0 {
                22
            } else {
                9
            },
        ),
        only_logged(m, dispatch::dispatch_outcome(m, f, ticks).m),
{
    lemma_carry(f.pstate & !0x2000_0000u64);
}

/// Reading from the null device or the console gives nothing.
pub proof fn law_read_empty_device(m: MachineView, f: Frame, ticks: u64)
    requires
        calls(f, 3),
        f.x[0] == 0 || f.x[0] == 100 || f.x[0] == 101,
    ensures
        returned(f, dispatch::dispatch_outcome(m, f, ticks), 0),
        only_logged(m, dispatch::dispatch_outcome(m, f, ticks).m),
{
    lemma_carry(f.pstate);
}

/// Reading from the zero device fills the whole buffer with zeros.
pub proof fn law_read_zeros(m: MachineView, f: Frame, ticks: u64)
    requires
        calls(f, 3),
        f.x[0] == 103,
        f.x[1] != 0,
        m.mem.covers(f.x[1] as int, f.x[2] as int),
    ensures
        ({
            let o = dispatch::dispatch_outcome(m, f, ticks);
            &&& returned(f, o, f.x[2] as int)
            &&& o.m.files == m.files
            &&& rest_same(m, o.m)
            &&& forall|x: int|
                #[trigger] o.m.mem.get8(x) == if f.x[1] <= x < f.x[1] + f.x[2] {
                    Some(0int)
                } else {
                    m.mem.get8(x)
                }
        }),
{
    lemma_carry(f.pstate);
    let z = bytes::zeros(f.x[2] as nat);
    mem::law_written_bytes_are_read(m.mem, f.x[1] as int, z);
    let o = dispatch::dispatch_outcome(m, f, ticks);
    assert forall|x: int|
        #[trigger] o.m.mem.get8(x) == if f.x[1] <= x < f.x[1] + f.x[2] {
            Some(0int)
        } else {
            m.mem.get8(x)
        } by {
        if f.x[1] <= x < f.x[1] + f.x[2] {
            assert(z[x - f.x[1]] == 0);
        }
    }
}

/// Reading from a random device fills the whole buffer, and nothing else: each
/// byte is the low one of the generator's next state.
pub proof fn law_read_random(m: MachineView, f: Frame, ticks: u64)
    requires
        calls(f, 3),
        f.x[0] == 102,
        f.x[1] != 0,
        m.mem.covers(f.x[1] as int, f.x[2] as int),
    ensures
        ({
            let o = dispatch::dispatch_outcome(m, f, ticks);
            &&& returned(f, o, f.x[2] as int)
            &&& o.m.files == m.files
            &&& rest_same(m, o.m)
            &&& o.m.mem.base == m.mem.base
            &&& o.m.mem.bytes.len() == m.mem.bytes.len()
            &&& forall|k: int|
                0 <= k < f.x[2] ==> o.m.mem.get8(f.x[1] + k) == Some(
                    (#[trigger] files::seed_after(ticks, (k + 1) as nat)) as u8 as int,
                )
            &&& forall|x: int|
                !(f.x[1] <= x < f.x[1] + f.x[2]) ==> #[trigger] o.m.mem.get8(x) == m.mem.get8(x)
        }),
{
    lemma_carry(f.pstate);
    let z = files::random_bytes(ticks, f.x[2] as nat);
    mem::law_written_bytes_are_read(m.mem, f.x[1] as int, z);
    let o = dispatch::dispatch_outcome(m, f, ticks);
    assert forall|k: int| 0 <= k < f.x[2] implies o.m.mem.get8(f.x[1] + k) == Some(
        (#[trigger] files::seed_after(ticks, (k + 1) as nat)) as u8 as int,
    ) by {
        assert(z[k] == files::seed_after(ticks, (k + 1) as nat) as u8);
    }
}

/// A read at a given offset asks for the bytes from there on, wherever the
/// position is.
pub proof fn law_pread_asks_at_offset(m: MachineView, f: Frame, ticks: u64)
    requires
        calls(f, 153),
        is_file(m, f.x[0]),
        f.x[1] != 0,
        f.x[2] != 0,
        f.x[3] < file(m, f.x[0]).data_size,
        file(m, f.x[0]).data_offset + f.x[3] <= u64::MAX,
    ensures
        ({
            let o = dispatch::dispatch_outcome(m, f, ticks);
            let a = file(m, f.x[0]);
            &&& only_logged(m, o.m)
            &&& o.f.x == f.x
            &&& o.f.pstate & 0x2000_0000u64 == 0
            &&& o.flow is Read
            &&& o.flow->offset == a.data_offset + f.x[3]
            &&& o.flow->len == lesser(f.x[2] as int, a.data_size - f.x[3])
            &&& o.flow->read_for == ReadFor::Pread { buf: f.x[1] }
        }),
{
    lemma_carry(f.pstate);
}

/// A read at a given offset puts the bytes into memory and moves no position.
pub proof fn law_pread_keeps_positions(m: MachineView, f: Frame, buf: u64, data: Seq<u8>)
    requires
        f.x.len() == 31,
        f.pstate & 0x2000_0000u64 == 0,
        data.len() <= u64::MAX,
        m.mem.covers(buf as int, data.len() as int),
    ensures
        ({
            let o = dispatch::disk_outcome(m, f, ReadFor::Pread { buf }, Some(data));
            &&& returned(f, o, data.len() as int)
            &&& o.m.files == m.files
            &&& mem::changed_at(m.mem, o.m.mem, buf as int, data)
            &&& rest_same(m, o.m)
        }),
{
    mem::law_written_bytes_are_read(m.mem, buf as int, data);
}

/// A read at an offset at or behind the end, or of no bytes, gives 0; one through
/// a descriptor of no open file, or into no buffer, fails. None changes a thing
/// but the log.
pub proof fn law_pread_without_bytes(m: MachineView, f: Frame, ticks: u64)
    requires
        calls(f, 153),
        f.x[1] == 0 || !is_file(m, f.x[0]) || f.x[3] >= file(m, f.x[0]).data_size || f.x[2] == 0
            && file(m, f.x[0]).data_offset + f.x[3] <= u64::MAX,
    ensures
        ({
            let o = dispatch::dispatch_outcome(m, f, ticks);
            &&& only_logged(m, o.m)
            &&& f.x[1] == 0 ==> failed(f, o, 22)
            &&& f.x[1] != 0 && !is_file(m, f.x[0]) ==> failed(f, o, 9)
            &&& f.x[1] != 0 && is_file(m, f.x[0]) ==> returned(f, o, 0)
        }),
{
    lemma_carry(f.pstate);
    lemma_carry(f.pstate & !0x2000_0000u64);
}

/// Where a seek goes to.
pub open spec fn seeks_to(a: FileView, offset: i64, whence: i32) -> int {
    offset + if whence == 0 {
        0int
    } else if whence == 1 {
        a.seek_offset as int
    } else {
        a.data_size as int
    }
}

/// A seek moves the position by the offset from the start of the file, the old
/// position or the end, and returns the new one; nothing else changes. One to
/// before the start fails and changes nothing.
pub proof fn law_seek_moves_position(m: MachineView, f: Frame, ticks: u64)
    requires
        calls(f, 199),
        is_file(m, f.x[0]),
        0 <= f.x[2] as i32 <= 2,
        file(m, f.x[0]).seek_offset <= i64::MAX,
        file(m, f.x[0]).data_size <= i64::MAX,
        seeks_to(file(m, f.x[0]), f.x[1] as i64, f.x[2] as i32) <= i64::MAX,
    ensures
        ({
            let o = dispatch::dispatch_outcome(m, f, ticks);
            let to = seeks_to(file(m, f.x[0]), f.x[1] as i64, f.x[2] as i32);
            &&& to >= 0 ==> {
                &&& returned(f, o, to)
                &&& position_is(m, o.m, f.x[0], to)
                &&& o.m.mem == m.mem
                &&& o.m.log == m.log
                &&& rest_same(m, o.m)
            }
            &&& to < 0 ==> failed(f, o, 22) && o.m == m
        }),
{
    lemma_carry(f.pstate);
    lemma_carry(f.pstate & !0x2000_0000u64);
    let a = file(m, f.x[0]);
    assert(a.seek_offset as i64 == a.seek_offset);
    assert(a.data_size as i64 == a.data_size);
}

/// A seek through a descriptor of no open file fails, and so does one from
/// anywhere but the start, the position or the end.
pub proof fn law_seek_refused(m: MachineView, f: Frame, ticks: u64)
    requires
        calls(f, 199),
        !is_file(m, f.x[0]) || (f.x[2] as i32) < 0 || (f.x[2] as i32) > 2,
    ensures
        ({
            let o = dispatch::dispatch_outcome(m, f, ticks);
            &&& o.m == m
            &&& failed(
                f,
                o,
                if is_file(m, f.x[0]) {
                    22
                } else {
                    9
                },
            )
        }),
{
    lemma_carry(f.pstate & !0x2000_0000u64);
}

/// Whether the text at `ptr` is `text`: its characters one byte each, and a zero
/// byte behind them.
pub open spec fn text_at(m: Memory, ptr: u64, text: Seq<char>) -> bool {
    &&& ptr != 0
    &&& ptr + text.len() <= u64::MAX
    &&& text.len() <= 1024
    &&& forall|k: int|
        0 <= k < text.len() ==> 0 < (#[trigger] text[k]) as int <= 255 && m.get8(ptr + k) == Some(
            text[k] as int,
        )
    &&& m.get8(ptr + text.len()) == Some(0int)
}

proof fn lemma_string_len(m: Memory, ptr: u64, text: Seq<char>, i: int)
    requires
        text_at(m, ptr, text),
        0 <= i <= text.len(),
    ensures
        files::string_len(m, ptr, i) == Ok::<Option<int>, Stop>(Some(text.len() as int)),
    decreases text.len() - i,
{
    if i < text.len() {
        assert(text[i] as int > 0);
        lemma_string_len(m, ptr, text, i + 1);
    }
}

/// A text in memory is read as it stands there.
pub proof fn law_text_is_read(m: Memory, ptr: u64, text: Seq<char>)
    requires
        text_at(m, ptr, text),
    ensures
        files::user_string(m, ptr) == Ok::<Option<Seq<char>>, Stop>(Some(text)),
{
    lemma_string_len(m, ptr, text, 0);
    let t = files::byte_text(m, ptr, text.len());
    assert forall|k: int| 0 <= k < text.len() implies t[k] == text[k] by {
        assert(0 < text[k] as int <= 255);
        assert(m.get8(ptr + k) == Some(text[k] as int));
        assert(m.bytes[ptr - m.base + k] as int == text[k] as int);
    }
    assert(t =~= text);
}

/// Whether a path is that of a device.
pub open spec fn is_device_path(path: Seq<char>) -> bool {
    ||| path == "/dev/null"@
    ||| path == "/dev/console"@
    ||| path == "/dev/tty"@
    ||| path == "/dev/stderr"@
    ||| path == "/dev/stdout"@
    ||| path == "/dev/stdin"@
    ||| path == "/dev/urandom"@
    ||| path == "/dev/random"@
    ||| path == "/dev/zero"@
}

/// Opening looks for the path that stands in memory, unless it is that of a
/// device: that gets the device's descriptor at once. No file is opened yet.
pub proof fn law_open_looks_up_path(m: MachineView, f: Frame, ticks: u64, path: Seq<char>)
    requires
        calls(f, 5),
        text_at(m.mem, f.x[0], path),
    ensures
        ({
            let o = dispatch::dispatch_outcome(m, f, ticks);
            &&& only_logged(m, o.m)
            &&& !is_device_path(path) ==> o.flow == (FlowView::Lookup {
                path,
                lookup_for: LookupFor::Open,
            }) && o.f.x == f.x
            &&& is_device_path(path) ==> o.flow == FlowView::Resume && 100 <= o.f.x[0] <= 103
                && returned(f, o, o.f.x[0] as int)
        }),
{
    lemma_carry(f.pstate);
    law_text_is_read(m.mem, f.x[0], path);
}

/// A file that was found is open from then on, with its place on the disk and its
/// position at the start, and all other open files are as they were. A path that
/// was not found is an error and opens nothing.
pub proof fn law_open_ends(
    m: MachineView,
    f: Frame,
    path: Seq<char>,
    found: Option<(u64, u64)>,
)
    requires
        f.x.len() == 31,
        f.pstate & 0x2000_0000u64 == 0,
        m.files.len() < u64::MAX - 0x100,
    ensures
        ({
            let o = dispatch::lookup_outcome(m, f, path, LookupFor::Open, found);
            let fd = o.f.x[0];
            &&& found is None ==> failed(f, o, 2) && only_logged(m, o.m)
            &&& found is Some ==> {
                &&& returned(f, o, fd as int)
                &&& !is_file(m, fd)
                &&& !(100 <= fd <= 103)
                &&& is_file(o.m, fd)
                &&& file(o.m, fd) == (FileView {
                    path,
                    data_offset: (found->0).0,
                    data_size: (found->0).1,
                    seek_offset: 0,
                })
                &&& forall|k: u64|
                    k != fd ==> #[trigger] is_file(o.m, k) == is_file(m, k) && (is_file(m, k)
                        ==> file(o.m, k) == file(m, k))
                &&& forall|k: u64| k < fd && !(100 <= k <= 103) ==> #[trigger] is_file(m, k)
                &&& o.m.mem == m.mem
                &&& rest_same(m, o.m)
            }
        }),
{
    lemma_carry(f.pstate);
    if let Some(place) = found {
        dispatch::law_open_takes_lowest(m, f, path, place);
        let o = dispatch::lookup_outcome(m, f, path, LookupFor::Open, found);
        let fd = o.f.x[0];
        assert forall|k: u64| k != fd implies #[trigger] is_file(o.m, k) == is_file(m, k) && (
        is_file(m, k) ==> file(o.m, k) == file(m, k)) by {
            if k < m.files.len() {
                assert(o.m.files[k as int] == m.files[k as int]);
            } else if k < o.m.files.len() {
                assert(o.m.files[k as int] is None);
            }
        }
        files::lemma_lowest_free(m.files);
        assert forall|k: u64| k < fd && !(100 <= k <= 103) implies #[trigger] is_file(m, k) by {
            assert(!files::is_free(m.files, k as int));
        }
    }
}

/// A closed file is open no more, and all other files are as they were; a device
/// can always be closed, any other descriptor not.
pub proof fn law_close_ends_file(m: MachineView, f: Frame, ticks: u64)
    requires
        calls(f, 6),
    ensures
        ({
            let o = dispatch::dispatch_outcome(m, f, ticks);
            let fd = f.x[0];
            &&& o.m.mem == m.mem
            &&& rest_same(m, o.m)
            &&& forall|k: u64|
                k != fd ==> #[trigger] is_file(o.m, k) == is_file(m, k) && (is_file(m, k) ==> file(
                    o.m,
                    k,
                ) == file(m, k))
            &&& !is_file(o.m, fd)
            &&& is_file(m, fd) || 100 <= fd <= 103 ==> returned(f, o, 0)
            &&& !is_file(m, fd) && !(100 <= fd <= 103) ==> failed(f, o, 9)
        }),
{
    lemma_carry(f.pstate);
    lemma_carry(f.pstate & !0x2000_0000u64);
}

/// Whether the attributes in memory at `st` are those of a device or a file of
/// `size` bytes, and no other byte changed.
pub open spec fn attributes_at(
    m: Memory,
    n: Memory,
    st: u64,
    mode: int,
    size: int,
) -> bool {
    &&& n.base == m.base
    &&& n.bytes.len() == m.bytes.len()
    &&& n.get16(st + 4) == Some(mode)
    &&& n.get64(st + 96) == Some(size)
    &&& n.get32(st + 112) == Some(4096int)
    &&& forall|x: int|
        st <= x < st + 144 && !(st + 4 <= x < st + 6) && !(st + 96 <= x < st + 104) && !(st + 112
            <= x < st + 116) ==> #[trigger] n.get8(x) == Some(0int)
    &&& forall|x: int| !(st <= x < st + 144) ==> #[trigger] n.get8(x) == m.get8(x)
}

proof fn lemma_stat_record(m: Memory, st: u64, device: bool, size: u64)
    requires
        m.covers(st as int, 144),
    ensures
        attributes_at(
            m,
            m.put(st as int, files::stat_record(device, size)),
            st,
            if device {
                0x21b6
            } else {
                0x81ed
            },
            size as int,
        ),
{
    let mode: u16 = if device {
        0x21b6
    } else {
        0x81ed
    };
    let r = files::stat_record(device, size);
    let n = m.put(st as int, r);
    mem::law_written_bytes_are_read(m, st as int, r);
    bytes::lemma_le16_roundtrip(mode);
    bytes::lemma_le64_roundtrip(size);
    bytes::lemma_le32_roundtrip(4096);
    let at = st - m.base;
    bytes::lemma_le_window(n.bytes, at + 4, bytes::le16_bytes(mode), 0, 2);
    bytes::lemma_le_window(n.bytes, at + 96, bytes::le64_bytes(size), 0, 8);
    bytes::lemma_le_window(n.bytes, at + 112, bytes::le32_bytes(4096), 0, 4);
}

/// The attributes of an open file stand in memory where the call wants them, and
/// say how many bytes it has.
pub proof fn law_fstat_gives_size(m: MachineView, f: Frame, ticks: u64)
    requires
        calls(f, 339),
        is_file(m, f.x[0]),
        !(100 <= f.x[0] <= 103),
        f.x[1] != 0,
        m.mem.covers(f.x[1] as int, 144),
    ensures
        ({
            let o = dispatch::dispatch_outcome(m, f, ticks);
            &&& returned(f, o, 0)
            &&& o.m == MachineView { mem: o.m.mem, ..m }
            &&& attributes_at(
                m.mem,
                o.m.mem,
                f.x[1],
                0x81ed,
                file(m, f.x[0]).data_size as int,
            )
        }),
{
    lemma_carry(f.pstate);
    lemma_stat_record(m.mem, f.x[1], false, file(m, f.x[0]).data_size);
}

/// Attributes of a file by path: looked up first, then written with the size that
/// was found. One that was not found is an error.
#[verifier::spinoff_prover]
#[verifier::rlimit(40)]
pub proof fn law_stat_gives_size(
    m: MachineView,
    f: Frame,
    ticks: u64,
    path: Seq<char>,
    found: Option<(u64, u64)>,
)
    requires
        calls(f, 338) || calls(f, 340),
        text_at(m.mem, f.x[0], path),
        path != "/dev/null"@,
        f.x[1] != 0,
        m.mem.covers(f.x[1] as int, 144),
    ensures
        ({
            let asked = dispatch::dispatch_outcome(m, f, ticks);
            let o = dispatch::lookup_outcome(
                asked.m,
                asked.f,
                path,
                asked.flow->lookup_for,
                found,
            );
            &&& asked.m == m
            &&& asked.flow is Lookup
            &&& asked.flow->path == path
            &&& found is None ==> failed(f, o, 2) && o.m == m
            &&& found is Some ==> {
                &&& returned(f, o, 0)
                &&& o.m == MachineView { mem: o.m.mem, ..m }
                &&& attributes_at(m.mem, o.m.mem, f.x[1], 0x81ed, (found->0).1 as int)
            }
        }),
{
    lemma_carry(f.pstate);
    lemma_carry(f.pstate & !0x2000_0000u64);
    law_text_is_read(m.mem, f.x[0], path);
    if let Some(place) = found {
        lemma_stat_record(m.mem, f.x[1], false, place.1);
    }
}

/// A path that is not there, or whose first 1025 bytes hold no zero, opens
/// nothing and is an error.
pub proof fn law_open_refuses_path(m: MachineView, f: Frame, ticks: u64)
    requires
        calls(f, 5),
        f.x[0] == 0 || f.x[0] + 1024 <= u64::MAX && forall|k: int|
            0 <= k <= 1024 ==> #[trigger] m.mem.get8(f.x[0] + k) is Some && m.mem.get8(f.x[0] + k)
                != Some(0int),
    ensures
        failed(f, dispatch::dispatch_outcome(m, f, ticks), 22),
        only_logged(m, dispatch::dispatch_outcome(m, f, ticks).m),
{
    lemma_carry(f.pstate & !0x2000_0000u64);
    if f.x[0] != 0 {
        lemma_endless(m.mem, f.x[0], 0);
    }
}

proof fn lemma_endless(m: Memory, ptr: u64, i: int)
    requires
        0 <= i <= 1025,
        ptr + 1024 <= u64::MAX,
        forall|k: int|
            0 <= k <= 1024 ==> #[trigger] m.get8(ptr + k) is Some && m.get8(ptr + k) != Some(0int),
    ensures
        files::string_len(m, ptr, i) == Ok::<Option<int>, Stop>(None),
    decreases 1025 - i,
{
    if i <= 1024 {
        assert(m.get8(ptr + i) is Some);
        lemma_endless(m, ptr, i + 1);
    }
}

} // verus!
