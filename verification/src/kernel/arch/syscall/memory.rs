//! System calls and traps that map memory.

use crate::align;
use crate::bytes;
use crate::kernel::arch::context::{Frame, TrapFrame};
use crate::kernel::arch::machine;
use crate::kernel::arch::machine::{Flow, FlowView, Machine, MachineView, Outcome, ReadFor};
use crate::kernel::arch::syscall::files;
use crate::kernel::arch::syscall::files::{FdRead, EIO};
use crate::mem::Stop;
use vstd::prelude::*;

verus! {

pub const ENOMEM: u64 = 12;

/// The mapping is not backed by a file.
pub const MAP_ANON: u64 = 0x1000;

/// The mapping goes to the given address.
pub const MAP_FIXED: u64 = 0x0010;

/// Where anonymous mappings start.
pub const MMAP_REGION_START: u64 = 0x6000_0000;

/// Where anonymous mappings end.
pub const MMAP_REGION_END: u64 = 0xbf00_0000;

/// Where memory starts.
pub const RAM_START: u64 = 0x4000_0000;

/// Where memory ends.
pub const RAM_END: u64 = 0xc000_0000;

/// What a trap returns when there is no room.
pub const KERN_NO_SPACE: u64 = 3;

/// Where the next anonymous mapping starts.
pub open spec fn next_start(m: MachineView) -> u64 {
    if m.mmap_base == 0 {
        MMAP_REGION_START
    } else {
        m.mmap_base
    }
}

/// Takes `aligned` bytes for an anonymous mapping; none if they do not fit.
pub open spec fn reserved(m: MachineView, aligned: int) -> Result<Option<MachineView>, Stop> {
    if next_start(m) + aligned > u64::MAX {
        Err(Stop::Overflow)
    } else if next_start(m) + aligned <= MMAP_REGION_END {
        Ok(Some(MachineView { mmap_base: (next_start(m) + aligned) as u64, ..m }))
    } else {
        Ok(None)
    }
}

/// Takes `aligned` bytes for an anonymous mapping and gives their address.
fn reserve(m: &mut Machine, aligned: u64) -> (r: Result<Option<u64>, Stop>)
    ensures
        match (r, reserved(old(m)@, aligned as int)) {
            (Ok(Some(start)), Ok(Some(n))) => start == next_start(old(m)@) && final(m)@ == n,
            (Ok(None), Ok(None)) => final(m)@ == old(m)@,
            (Err(e), Err(f)) => e == f && final(m)@ == old(m)@,
            _ => false,
        },
{
    let start: u64 = if m.mmap_base == 0 {
        MMAP_REGION_START
    } else {
        m.mmap_base
    };
    match start.checked_add(aligned) {
        None => Err(Stop::Overflow),
        Some(end) => if end <= MMAP_REGION_END {
            m.mmap_base = end;
            Ok(Some(start))
        } else {
            Ok(None)
        },
    }
}

/// The trace of an `mmap` call.
pub open spec fn mmap_traced(m: MachineView, f: Frame) -> MachineView {
    m.say("xnu-rs: sys_mmap addr=0x"@).hex(f.x[0]).say(" len=0x"@).hex(f.x[1]).say(
        " prot=0x"@,
    ).hex(f.x[2]).say(" flags=0x"@).hex(f.x[3]).say(" fd="@).hex(f.x[4]).say(" offset=0x"@).hex(
        f.x[5],
    ).say("\n"@)
}

/// Where a mapping goes: its address and the machine with the room taken; an
/// outcome if the call ends here.
pub open spec fn placed(m: MachineView, f: Frame, aligned: int) -> Result<
    (u64, MachineView),
    Outcome,
> {
    let addr = f.x[0];
    if f.x[3] & MAP_FIXED != 0 && addr != 0 {
        if addr >= RAM_START && addr + aligned > u64::MAX {
            Err(machine::stopped(m, f, Stop::Overflow))
        } else if addr < RAM_START || addr + aligned > RAM_END {
            Err(
                machine::done(
                    m.say("xnu-rs: sys_mmap MAP_FIXED addr 0x"@).hex(addr).say(
                        " outside RAM, returning ENOMEM\n"@,
                    ),
                    machine::fail(f, ENOMEM),
                ),
            )
        } else {
            Ok((addr, m))
        }
    } else {
        match reserved(m, aligned) {
            Err(e) => Err(machine::stopped(m, f, e)),
            Ok(None) => Err(
                machine::done(m.say("xnu-rs: sys_mmap ENOMEM\n"@), machine::fail(f, ENOMEM)),
            ),
            Ok(Some(n)) => Ok((next_start(m), n)),
        }
    }
}

/// A mapping whose file could not be read.
pub open spec fn mmap_failed(m: MachineView, f: Frame, errno: u64) -> Outcome {
    machine::done(
        m.say("xnu-rs: sys_mmap read_from_fd error errno="@).hex(errno).say("\n"@),
        machine::fail(f, errno),
    )
}

/// A mapping of `len` bytes at `dest` that starts with `data`; the rest is zero.
pub open spec fn mapped(m: MachineView, f: Frame, dest: u64, len: u64, data: Seq<u8>) -> Outcome {
    match m.fill(dest, data) {
        Err(e) => machine::stopped(m, f, e),
        Ok(n) => if data.len() >= len {
            machine::done(n, machine::ret(f, dest))
        } else if dest + data.len() > u64::MAX {
            machine::stopped(n, f, Stop::Overflow)
        } else {
            match n.fill((dest + data.len()) as u64, bytes::zeros((len - data.len()) as nat)) {
                Err(e) => machine::stopped(n, f, e),
                Ok(p) => machine::done(p, machine::ret(f, dest)),
            }
        },
    }
}

/// `mmap`: zeroed memory, filled from a file unless it is anonymous.
pub open spec fn mmap_outcome(m: MachineView, f: Frame) -> Outcome {
    let len = f.x[1];
    if len + 0xfff > u64::MAX {
        machine::stopped(m, f, Stop::Overflow)
    } else {
        match placed(mmap_traced(m, f), f, align::page_up(len as int)) {
            Err(o) => o,
            Ok((dest, n)) => {
                let p = n.say("xnu-rs: sys_mmap dest=0x"@).hex(dest).say("\n"@);
                match p.fill(dest, bytes::zeros(align::page_up(len as int) as nat)) {
                    Err(e) => machine::stopped(p, f, e),
                    Ok(q) => if f.x[3] & MAP_ANON != 0 {
                        machine::done(q, machine::ret(f, dest))
                    } else {
                        match files::fd_read(q, f.x[4], len, f.x[5]) {
                            FdRead::Error(errno) => mmap_failed(q, f, errno),
                            FdRead::Nothing => mapped(q, f, dest, len, Seq::empty()),
                            FdRead::Stopped(e) => machine::stopped(q, f, e),
                            FdRead::Disk { offset, len: n } => Outcome {
                                m: q,
                                f,
                                flow: FlowView::Read {
                                    offset,
                                    len: n,
                                    read_for: ReadFor::Mmap { dest, len },
                                },
                            },
                        }
                    },
                }
            },
        }
    }
}

fn trace_mmap(m: &mut Machine, frame: &TrapFrame)
    ensures
        final(m)@ == mmap_traced(old(m)@, frame@),
{
    m.say("xnu-rs: sys_mmap addr=0x");
    m.hex(frame.x[0]);
    m.say(" len=0x");
    m.hex(frame.x[1]);
    m.say(" prot=0x");
    m.hex(frame.x[2]);
    m.say(" flags=0x");
    m.hex(frame.x[3]);
    m.say(" fd=");
    m.hex(frame.x[4]);
    m.say(" offset=0x");
    m.hex(frame.x[5]);
    m.say("\n");
}

/// Finds the place of a mapping; a flow if the call ends here.
fn place(m: &mut Machine, frame: &mut TrapFrame, aligned: u64) -> (r: Result<u64, Flow>)
    ensures
        match (r, placed(old(m)@, old(frame)@, aligned as int)) {
            (Ok(dest), Ok((d, n))) => dest == d && final(m)@ == n && final(frame)@ == old(frame)@,
            (Err(flow), Err(o)) => machine::outcome(*final(m), *final(frame), flow) == o,
            _ => false,
        },
{
    let addr: u64 = frame.x[0];
    if frame.x[3] & MAP_FIXED != 0 && addr != 0 {
        let inside: bool = if addr < RAM_START {
            false
        } else {
            match addr.checked_add(aligned) {
                None => {
                    return Err(Flow::Stopped(Stop::Overflow));
                },
                Some(end) => end <= RAM_END,
            }
        };
        if !inside {
            m.say("xnu-rs: sys_mmap MAP_FIXED addr 0x");
            m.hex(addr);
            m.say(" outside RAM, returning ENOMEM\n");
            machine::syscall_error(frame, ENOMEM);
            return Err(Flow::Resume);
        }
        Ok(addr)
    } else {
        match reserve(m, aligned) {
            Err(e) => Err(Flow::Stopped(e)),
            Ok(None) => {
                m.say("xnu-rs: sys_mmap ENOMEM\n");
                machine::syscall_error(frame, ENOMEM);
                Err(Flow::Resume)
            },
            Ok(Some(start)) => Ok(start),
        }
    }
}

/// Ends a mapping whose file could not be read.
pub fn fail_mmap(m: &mut Machine, frame: &mut TrapFrame, errno: u64) -> (r: Flow)
    ensures
        machine::outcome(*final(m), *final(frame), r) == mmap_failed(old(m)@, old(frame)@, errno),
{
    m.say("xnu-rs: sys_mmap read_from_fd error errno=");
    m.hex(errno);
    m.say("\n");
    machine::syscall_error(frame, errno);
    Flow::Resume
}

/// Fills a mapping from a file and ends the call.
pub fn finish_mmap(m: &mut Machine, frame: &mut TrapFrame, dest: u64, len: u64, data: &[u8]) -> (r:
    Flow)
    ensures
        machine::outcome(*final(m), *final(frame), r) == mapped(
            old(m)@,
            old(frame)@,
            dest,
            len,
            data@,
        ),
{
    assert(data@.len() == data.len());
    let got: u64 = data.len() as u64;
    match m.fill(dest, data) {
        Err(e) => {
            return Flow::Stopped(e);
        },
        Ok(()) => {},
    }
    if got < len {
        let at: u64 = match dest.checked_add(got) {
            None => {
                return Flow::Stopped(Stop::Overflow);
            },
            Some(a) => a,
        };
        match m.clear(at, len - got) {
            Err(e) => {
                return Flow::Stopped(e);
            },
            Ok(()) => {},
        }
    }
    machine::set_result(frame, dest);
    Flow::Resume
}

/// `mmap`.
pub fn sys_mmap(m: &mut Machine, frame: &mut TrapFrame) -> (r: Flow)
    ensures
        machine::outcome(*final(m), *final(frame), r) == mmap_outcome(old(m)@, old(frame)@),
{
    let len: u64 = frame.x[1];
    let aligned: u64 = match align::page_align(len) {
        None => {
            return Flow::Stopped(Stop::Overflow);
        },
        Some(a) => a,
    };
    trace_mmap(m, frame);
    let dest: u64 = match place(m, frame, aligned) {
        Err(flow) => {
            return flow;
        },
        Ok(d) => d,
    };
    m.say("xnu-rs: sys_mmap dest=0x");
    m.hex(dest);
    m.say("\n");
    match m.clear(dest, aligned) {
        Err(e) => {
            return Flow::Stopped(e);
        },
        Ok(()) => {},
    }
    if frame.x[3] & MAP_ANON == 0 {
        match files::read_from_fd(m, frame.x[4], len, frame.x[5]) {
            FdRead::Error(errno) => fail_mmap(m, frame, errno),
            FdRead::Nothing => {
                let none: Vec<u8> = Vec::new();
                assert(none@ =~= Seq::<u8>::empty());
                finish_mmap(m, frame, dest, len, &none)
            },
            FdRead::Stopped(e) => Flow::Stopped(e),
            FdRead::Disk { offset, len: n } => Flow::Read {
                offset,
                len: n,
                read_for: ReadFor::Mmap { dest, len },
            },
        }
    } else {
        machine::set_result(frame, dest);
        Flow::Resume
    }
}

/// The end of a file mapping; `data` is none if the disk failed.
pub open spec fn disk_mapped(
    m: MachineView,
    f: Frame,
    dest: u64,
    len: u64,
    data: Option<Seq<u8>>,
) -> Outcome {
    match data {
        None => mmap_failed(m, f, EIO),
        Some(d) => mapped(m, f, dest, len, d),
    }
}

/// What allocating `size` bytes does, and what it returns: zeroed pages whose
/// address is written at `out`, unless that is zero.
pub open spec fn vm_taken(m: MachineView, out: u64, size: u64, label: Seq<char>) -> (
    MachineView,
    Result<u64, Stop>,
) {
    if size + 0xfff > u64::MAX {
        (m, Err(Stop::Overflow))
    } else {
        let n = m.say(label).hex(size);
        match reserved(n, align::page_up(size as int)) {
            Err(e) => (n, Err(e)),
            Ok(None) => (n.say(" -> KERN_NO_SPACE\n"@), Ok(KERN_NO_SPACE)),
            Ok(Some(p)) => {
                let start = next_start(n);
                match p.fill(start, bytes::zeros(align::page_up(size as int) as nat)) {
                    Err(e) => (p, Err(e)),
                    Ok(q) => {
                        let word = if out == 0 {
                            Seq::empty()
                        } else {
                            bytes::le64_bytes(start)
                        };
                        match q.fill(out, word) {
                            Err(e) => (q, Err(e)),
                            Ok(w) => (w.say(" -> 0x"@).hex(start).say("\n"@), Ok(0)),
                        }
                    },
                }
            },
        }
    }
}

/// The traps that allocate memory.
pub open spec fn vm_outcome(m: MachineView, f: Frame, label: Seq<char>) -> Outcome {
    match vm_taken(m, f.x[1], f.x[2], label) {
        (n, Ok(code)) => machine::done(n, machine::ret(f, code)),
        (n, Err(e)) => machine::stopped(n, f, e),
    }
}

/// Allocates `size` bytes.
pub fn vm_take(m: &mut Machine, out: u64, size: u64, label: &str) -> (r: Result<u64, Stop>)
    ensures
        (final(m)@, r) == vm_taken(old(m)@, out, size, label@),
{
    let aligned: u64 = match align::page_align(size) {
        None => {
            return Err(Stop::Overflow);
        },
        Some(a) => a,
    };
    m.say(label);
    m.hex(size);
    let start: u64 = match reserve(m, aligned) {
        Err(e) => {
            return Err(e);
        },
        Ok(None) => {
            m.say(" -> KERN_NO_SPACE\n");
            return Ok(KERN_NO_SPACE);
        },
        Ok(Some(s)) => s,
    };
    match m.clear(start, aligned) {
        Err(e) => {
            return Err(e);
        },
        Ok(()) => {},
    }
    let mut b: Vec<u8> = Vec::new();
    if out != 0 {
        bytes::push_le64(&mut b, start);
        assert(b@ =~= bytes::le64_bytes(start));
    } else {
        assert(b@ =~= Seq::<u8>::empty());
    }
    match m.fill(out, &b) {
        Err(e) => {
            return Err(e);
        },
        Ok(()) => {},
    }
    m.say(" -> 0x");
    m.hex(start);
    m.say("\n");
    Ok(0)
}

/// The traps that allocate memory.
pub fn vm_allocate(m: &mut Machine, frame: &mut TrapFrame, label: &str) -> (r: Flow)
    ensures
        machine::outcome(*final(m), *final(frame), r) == vm_outcome(
            old(m)@,
            old(frame)@,
            label@,
        ),
{
    match vm_take(m, frame.x[1], frame.x[2], label) {
        Ok(code) => {
            machine::set_result(frame, code);
            Flow::Resume
        },
        Err(e) => Flow::Stopped(e),
    }
}

/// The next anonymous mapping starts at a page inside the region.
pub open spec fn region_ok(m: MachineView) -> bool {
    &&& next_start(m) % 0x1000 == 0
    &&& MMAP_REGION_START <= next_start(m) <= MMAP_REGION_END
}

/// Anonymous mappings are whole pages inside the region, and each starts where
/// the one before it ended, so that no two overlap.
pub proof fn law_mappings_are_disjoint(m: MachineView, len: int, n: MachineView)
    requires
        region_ok(m),
        0 <= len,
        reserved(m, align::page_up(len)) == Ok::<Option<MachineView>, Stop>(Some(n)),
    ensures
        region_ok(n),
        next_start(m) % 0x1000 == 0,
        MMAP_REGION_START <= next_start(m),
        next_start(m) + len <= next_start(n),
        next_start(n) <= MMAP_REGION_END,
{
}

/// Whether the next anonymous mapping of `n` starts no earlier than that of `m`,
/// and inside the region.
pub open spec fn moves_on(m: MachineView, n: MachineView) -> bool {
    region_ok(n) && next_start(m) <= next_start(n)
}

proof fn lemma_placed_moves_on(m: MachineView, f: Frame, aligned: int)
    requires
        region_ok(m),
        0 <= aligned,
        aligned % 0x1000 == 0,
    ensures
        match placed(m, f, aligned) {
            Ok((dest, n)) => moves_on(m, n),
            Err(o) => moves_on(m, o.m),
        },
{
}

proof fn lemma_mapped_keeps(m: MachineView, f: Frame, dest: u64, len: u64, data: Seq<u8>)
    ensures
        mapped(m, f, dest, len, data).m.mmap_base == m.mmap_base,
{
}

/// A call of `mmap` takes room in the region or leaves it alone.
pub proof fn lemma_mmap_moves_on(m: MachineView, f: Frame)
    requires
        region_ok(m),
    ensures
        moves_on(m, mmap_outcome(m, f).m),
{
    let size = align::page_up(f.x[1] as int);
    let t = mmap_traced(m, f);
    assert(t.mmap_base == m.mmap_base);
    lemma_placed_moves_on(t, f, size);
    if f.x[1] + 0xfff <= u64::MAX {
        if let Ok((dest, n)) = placed(t, f, size) {
            let p = n.say("xnu-rs: sys_mmap dest=0x"@).hex(dest).say("\n"@);
            assert(p.mmap_base == n.mmap_base);
            if let Ok(q) = p.fill(dest, bytes::zeros(size as nat)) {
                assert(q.mmap_base == n.mmap_base);
                lemma_mapped_keeps(q, f, dest, f.x[1], Seq::empty());
            }
        }
    }
}

/// The end of a file mapping leaves the region alone.
pub proof fn lemma_disk_mapped_keeps(
    m: MachineView,
    f: Frame,
    dest: u64,
    len: u64,
    data: Option<Seq<u8>>,
)
    ensures
        disk_mapped(m, f, dest, len, data).m.mmap_base == m.mmap_base,
{
    if let Some(d) = data {
        lemma_mapped_keeps(m, f, dest, len, d);
    }
}

/// The traps that allocate memory take room in the region or leave it alone.
pub proof fn lemma_vm_moves_on(m: MachineView, f: Frame, label: Seq<char>)
    requires
        region_ok(m),
    ensures
        moves_on(m, vm_outcome(m, f, label).m),
{
    let n = m.say(label).hex(f.x[2]);
    assert(n.mmap_base == m.mmap_base);
}

/// What a successful anonymous mapping leaves behind.
pub proof fn lemma_anonymous_mapping(m: MachineView, f: Frame)
    requires
        f.x.len() == 31,
        region_ok(m),
        f.x[3] & MAP_ANON != 0,
        f.x[3] & MAP_FIXED == 0 || f.x[0] == 0,
    ensures
        ({
            let o = mmap_outcome(m, f);
            let size = align::page_up(f.x[1] as int);
            o.flow == FlowView::Resume ==> {
                ||| exists|n: MachineView| o == #[trigger] machine::done(n, machine::fail(f, ENOMEM))
                ||| {
                    &&& o.f == machine::ret(f, next_start(m))
                    &&& next_start(o.m) == next_start(m) + size
                    &&& next_start(o.m) <= MMAP_REGION_END
                    &&& forall|k: int|
                        0 <= k < size ==> #[trigger] o.m.mem.get8(next_start(m) + k) == Some(0int)
                }
            }
        }),
{
    let size = align::page_up(f.x[1] as int);
    let t = mmap_traced(m, f);
    assert(t.mmap_base == m.mmap_base);
    let o = mmap_outcome(m, f);
    if f.x[1] + 0xfff <= u64::MAX {
        match reserved(t, size) {
            Err(e) => {
                assert(o.flow == FlowView::Stopped(e));
            },
            Ok(None) => {
                let n = t.say("xnu-rs: sys_mmap ENOMEM\n"@);
                assert(o == machine::done(n, machine::fail(f, ENOMEM)));
            },
            Ok(Some(n)) => {
                let dest = next_start(t);
                assert(placed(t, f, size) == Ok::<(u64, MachineView), Outcome>((dest, n)));
                let p = n.say("xnu-rs: sys_mmap dest=0x"@).hex(dest).say("\n"@);
                assert(p.mmap_base == n.mmap_base);
                match p.fill(dest, bytes::zeros(size as nat)) {
                    Err(e) => {
                        assert(o.flow == FlowView::Stopped(e));
                    },
                    Ok(q) => {
                        assert(o == machine::done(q, machine::ret(f, dest)));
                        assert(q.mmap_base == n.mmap_base);
                        assert forall|k: int| 0 <= k < size implies #[trigger] q.mem.get8(dest + k)
                            == Some(0int) by {
                            assert(q.mem == p.mem.put(dest as int, bytes::zeros(size as nat)));
                        }
                    },
                }
            },
        }
    }
}

} // verus!
