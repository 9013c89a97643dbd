//! System calls that hand out facts: sysctl, ioctl, time, limits, entropy.

use crate::bytes;
use crate::kernel::arch::context::{Frame, TrapFrame};
use crate::kernel::arch::machine;
use crate::kernel::arch::machine::{Flow, Machine, MachineView, Outcome};
use crate::kernel::arch::syscall::files;
use crate::kernel::arch::syscall::files::{EINVAL, ENOENT};
use crate::mem::Stop;
use vstd::prelude::*;
use vstd::utf8::*;

verus! {

/// The request for the window size.
pub const TIOCGWINSZ: u64 = 0x4008_7468;

/// The most bytes that `getentropy` hands out.
pub const MAX_ENTROPY: u64 = 256;

pub const CTL_KERN: u32 = 1;

pub const CTL_HW: u32 = 6;

pub const KERN_OSTYPE: u32 = 1;

pub const KERN_OSRELEASE: u32 = 2;

pub const KERN_OSREV: u32 = 3;

pub const KERN_VERSION: u32 = 4;

pub const KERN_MAXPROC: u32 = 6;

pub const KERN_MAXFILES: u32 = 7;

pub const KERN_ARGMAX: u32 = 8;

pub const HW_NCPU: u32 = 3;

pub const HW_PHYSMEM: u32 = 5;

pub const HW_USERMEM: u32 = 6;

pub const HW_PAGESIZE: u32 = 7;

pub const HW_BYTEORDER: u32 = 9;

pub const HW_CACHELINESIZE: u32 = 13;

pub const HW_CPU_FREQ: u32 = 15;

pub const HW_MEMSIZE: u32 = 24;

/// Writes `data` at `addr`, unless `addr` is null, and returns 0.
pub open spec fn gave(m: MachineView, f: Frame, addr: u64, data: Seq<u8>) -> Outcome {
    if addr == 0 {
        machine::done(m, machine::ret(f, 0))
    } else {
        match m.fill(addr, data) {
            Err(e) => machine::stopped(m, f, e),
            Ok(n) => machine::done(n, machine::ret(f, 0)),
        }
    }
}

/// Writes `data` at `addr`, unless `addr` is null, and returns 0.
pub fn give(m: &mut Machine, frame: &mut TrapFrame, addr: u64, data: &[u8]) -> (r: Flow)
    ensures
        machine::outcome(*final(m), *final(frame), r) == gave(
            old(m)@,
            old(frame)@,
            addr,
            data@,
        ),
{
    if addr != 0 {
        match m.fill(addr, data) {
            Err(e) => {
                return Flow::Stopped(e);
            },
            Ok(()) => {},
        }
    }
    machine::set_result(frame, 0);
    Flow::Resume
}

/// Twelve zero bytes: the start of time.
pub fn sys_gettimeofday(m: &mut Machine, frame: &mut TrapFrame) -> (r: Flow)
    ensures
        machine::outcome(*final(m), *final(frame), r) == gave(
            old(m)@,
            old(frame)@,
            old(frame)@.x[0],
            bytes::zeros(12),
        ),
{
    let b: Vec<u8> = bytes::zeroed(12);
    give(m, frame, frame.x[0], &b)
}

/// A zeroed record of resource usage.
pub fn sys_getrusage(m: &mut Machine, frame: &mut TrapFrame) -> (r: Flow)
    ensures
        machine::outcome(*final(m), *final(frame), r) == gave(
            old(m)@,
            old(frame)@,
            old(frame)@.x[1],
            bytes::zeros(144),
        ),
{
    let b: Vec<u8> = bytes::zeroed(144);
    give(m, frame, frame.x[1], &b)
}

/// No limits.
pub open spec fn no_limits() -> Seq<u8> {
    bytes::le64_bytes(u64::MAX) + bytes::le64_bytes(u64::MAX)
}

/// No limits.
pub fn sys_getrlimit(m: &mut Machine, frame: &mut TrapFrame) -> (r: Flow)
    ensures
        machine::outcome(*final(m), *final(frame), r) == gave(
            old(m)@,
            old(frame)@,
            old(frame)@.x[1],
            no_limits(),
        ),
{
    let mut b: Vec<u8> = Vec::new();
    bytes::push_le64(&mut b, u64::MAX);
    bytes::push_le64(&mut b, u64::MAX);
    assert(b@ =~= no_limits());
    give(m, frame, frame.x[1], &b)
}

/// A window of 24 rows and 80 columns.
pub open spec fn window_size() -> Seq<u8> {
    bytes::le16_bytes(24) + bytes::le16_bytes(80) + bytes::le16_bytes(0) + bytes::le16_bytes(0)
}

/// `ioctl`: the window size; other requests do nothing.
pub open spec fn ioctl_outcome(m: MachineView, f: Frame) -> Outcome {
    if f.x[1] == TIOCGWINSZ {
        gave(m, f, f.x[2], window_size())
    } else {
        machine::done(m, machine::ret(f, 0))
    }
}

/// `ioctl`.
pub fn sys_ioctl(m: &mut Machine, frame: &mut TrapFrame) -> (r: Flow)
    ensures
        machine::outcome(*final(m), *final(frame), r) == ioctl_outcome(old(m)@, old(frame)@),
{
    if frame.x[1] == TIOCGWINSZ {
        let mut b: Vec<u8> = Vec::new();
        bytes::push_le16(&mut b, 24);
        bytes::push_le16(&mut b, 80);
        bytes::push_le16(&mut b, 0);
        bytes::push_le16(&mut b, 0);
        assert(b@ =~= window_size());
        give(m, frame, frame.x[2], &b)
    } else {
        machine::set_result(frame, 0);
        Flow::Resume
    }
}

/// `getentropy`: random bytes; a request that is too long is passed over.
pub open spec fn entropy_outcome(m: MachineView, f: Frame, ticks: u64) -> Outcome {
    if f.x[1] <= MAX_ENTROPY {
        gave(m, f, f.x[0], files::random_bytes(ticks, f.x[1] as nat))
    } else {
        machine::done(m, machine::ret(f, 0))
    }
}

/// `getentropy`; `ticks` is the time counter.
pub fn sys_getentropy(m: &mut Machine, frame: &mut TrapFrame, ticks: u64) -> (r: Flow)
    ensures
        machine::outcome(*final(m), *final(frame), r) == entropy_outcome(
            old(m)@,
            old(frame)@,
            ticks,
        ),
{
    if frame.x[1] <= MAX_ENTROPY {
        let b: Vec<u8> = files::make_random(ticks, frame.x[1] as usize);
        give(m, frame, frame.x[0], &b)
    } else {
        machine::set_result(frame, 0);
        Flow::Resume
    }
}

/// What a sysctl name stands for.
pub enum Sysctl {
    /// Text.
    Text(&'static str),
    /// A 32-bit number.
    Word(u32),
    /// A 64-bit number.
    Long(u64),
    /// Nothing, without a note.
    Quiet,
    /// Nothing.
    Unknown,
}

/// What a `Sysctl` says.
pub enum SysctlView {
    Text(Seq<char>),
    Word(u32),
    Long(u64),
    Quiet,
    Unknown,
}

impl View for Sysctl {
    type V = SysctlView;

    open spec fn view(&self) -> SysctlView {
        match self {
            Sysctl::Text(s) => SysctlView::Text(s@),
            Sysctl::Word(v) => SysctlView::Word(*v),
            Sysctl::Long(v) => SysctlView::Long(*v),
            Sysctl::Quiet => SysctlView::Quiet,
            Sysctl::Unknown => SysctlView::Unknown,
        }
    }
}

/// The table of sysctl names.
pub open spec fn sysctl_entry(a: u32, b: u32) -> SysctlView {
    if a == CTL_KERN && b == KERN_OSTYPE {
        SysctlView::Text("Darwin\0"@)
    } else if a == CTL_KERN && b == KERN_OSRELEASE {
        SysctlView::Text("23.0.0\0"@)
    } else if a == CTL_KERN && b == KERN_VERSION {
        SysctlView::Text("Darwin Kernel Version 23.0.0\0"@)
    } else if a == CTL_KERN && b == KERN_MAXFILES {
        SysctlView::Word(10_240)
    } else if a == CTL_KERN && b == KERN_ARGMAX {
        SysctlView::Word(262_144)
    } else if a == CTL_KERN && b == KERN_OSREV {
        SysctlView::Word(23_000_000)
    } else if a == CTL_KERN && b == KERN_MAXPROC {
        SysctlView::Word(1_024)
    } else if a == CTL_HW && b == HW_NCPU {
        SysctlView::Word(1)
    } else if a == CTL_HW && b == HW_BYTEORDER {
        SysctlView::Word(1234)
    } else if a == CTL_HW && b == HW_PAGESIZE {
        SysctlView::Word(4096)
    } else if a == CTL_HW && (b == HW_PHYSMEM || b == HW_USERMEM) {
        SysctlView::Word(0x8000_0000)
    } else if a == CTL_HW && b == HW_MEMSIZE {
        SysctlView::Long(0x8000_0000)
    } else if a == CTL_HW && b == HW_CPU_FREQ {
        SysctlView::Word(1_000_000_000)
    } else if a == CTL_HW && b == HW_CACHELINESIZE {
        SysctlView::Word(64)
    } else if a == 0 {
        SysctlView::Quiet
    } else {
        SysctlView::Unknown
    }
}

/// Looks a sysctl name up.
pub fn find_sysctl(a: u32, b: u32) -> (r: Sysctl)
    ensures
        r@ == sysctl_entry(a, b),
{
    match (a, b) {
        (CTL_KERN, KERN_OSTYPE) => Sysctl::Text("Darwin\0"),
        (CTL_KERN, KERN_OSRELEASE) => Sysctl::Text("23.0.0\0"),
        (CTL_KERN, KERN_VERSION) => Sysctl::Text("Darwin Kernel Version 23.0.0\0"),
        (CTL_KERN, KERN_MAXFILES) => Sysctl::Word(10_240),
        (CTL_KERN, KERN_ARGMAX) => Sysctl::Word(262_144),
        (CTL_KERN, KERN_OSREV) => Sysctl::Word(23_000_000),
        (CTL_KERN, KERN_MAXPROC) => Sysctl::Word(1_024),
        (CTL_HW, HW_NCPU) => Sysctl::Word(1),
        (CTL_HW, HW_BYTEORDER) => Sysctl::Word(1234),
        (CTL_HW, HW_PAGESIZE) => Sysctl::Word(4096),
        (CTL_HW, HW_PHYSMEM) => Sysctl::Word(0x8000_0000),
        (CTL_HW, HW_USERMEM) => Sysctl::Word(0x8000_0000),
        (CTL_HW, HW_MEMSIZE) => Sysctl::Long(0x8000_0000),
        (CTL_HW, HW_CPU_FREQ) => Sysctl::Word(1_000_000_000),
        (CTL_HW, HW_CACHELINESIZE) => Sysctl::Word(64),
        (0, _) => Sysctl::Quiet,
        _ => Sysctl::Unknown,
    }
}

/// Hands a value out: its length at `oldlenp` and then its bytes at `oldp`,
/// each unless the address is null. Text goes out only with its length.
pub open spec fn value_given(
    m: MachineView,
    f: Frame,
    oldp: u64,
    oldlenp: u64,
    data: Seq<u8>,
    is_text: bool,
) -> Outcome {
    let len = if oldlenp == 0 {
        Seq::empty()
    } else {
        bytes::le64_bytes(data.len() as u64)
    };
    let out = if oldp == 0 || (is_text && oldlenp == 0) {
        Seq::empty()
    } else {
        data
    };
    match m.fill(oldlenp, len) {
        Err(e) => machine::stopped(m, f, e),
        Ok(n) => match n.fill(oldp, out) {
            Err(e) => machine::stopped(n, f, e),
            Ok(p) => machine::done(p, machine::ret(f, 0)),
        },
    }
}

/// Hands a value out.
fn give_value(
    m: &mut Machine,
    frame: &mut TrapFrame,
    oldp: u64,
    oldlenp: u64,
    data: &[u8],
    is_text: bool,
) -> (r: Flow)
    ensures
        machine::outcome(*final(m), *final(frame), r) == value_given(
            old(m)@,
            old(frame)@,
            oldp,
            oldlenp,
            data@,
            is_text,
        ),
{
    assert(data@.len() == data.len());
    let mut len: Vec<u8> = Vec::new();
    if oldlenp != 0 {
        bytes::push_le64(&mut len, data.len() as u64);
        assert(len@ =~= bytes::le64_bytes(data@.len() as u64));
    }
    match m.fill(oldlenp, &len) {
        Err(e) => {
            return Flow::Stopped(e);
        },
        Ok(()) => {},
    }
    if oldp != 0 && !(is_text && oldlenp == 0) {
        match m.fill(oldp, data) {
            Err(e) => {
                return Flow::Stopped(e);
            },
            Ok(()) => {},
        }
    }
    machine::set_result(frame, 0);
    Flow::Resume
}

/// The 32-bit number at `addr`, an address that may be too large.
pub open spec fn half_at(m: MachineView, addr: int) -> Result<u32, Stop> {
    if addr > u64::MAX {
        Err(Stop::Overflow)
    } else {
        match m.mem.get32(addr) {
            None => Err(Stop::Fault(addr as u64)),
            Some(v) => Ok(v as u32),
        }
    }
}

/// The value of the name `(a, b)`, handed out.
pub open spec fn sysctl_given(m: MachineView, f: Frame, a: u32, b: u32) -> Outcome {
    let oldp = f.x[2];
    let oldlenp = f.x[3];
    match sysctl_entry(a, b) {
        SysctlView::Text(s) => value_given(m, f, oldp, oldlenp, encode_utf8(s), true),
        SysctlView::Word(v) => value_given(m, f, oldp, oldlenp, bytes::le32_bytes(v), false),
        SysctlView::Long(v) => value_given(m, f, oldp, oldlenp, bytes::le64_bytes(v), false),
        SysctlView::Quiet => machine::done(m, machine::fail(f, ENOENT)),
        SysctlView::Unknown => machine::done(
            m.say("xnu-rs: sysctl "@).hex(a as u64).say("."@).hex(b as u64).say("\n"@),
            machine::fail(f, ENOENT),
        ),
    }
}

/// `sysctl`: the first two numbers of the name at x0 select the value.
pub open spec fn sysctl_outcome(m: MachineView, f: Frame) -> Outcome {
    let mib = f.x[0];
    if mib == 0 || f.x[1] == 0 {
        machine::done(m, machine::fail(f, EINVAL))
    } else {
        match half_at(m, mib as int) {
            Err(e) => machine::stopped(m, f, e),
            Ok(a) => if f.x[1] > 1 {
                match half_at(m, mib + 4) {
                    Err(e) => machine::stopped(m, f, e),
                    Ok(b) => sysctl_given(m, f, a, b),
                }
            } else {
                sysctl_given(m, f, a, 0)
            },
        }
    }
}

/// Hands the value of the name `(a, b)` out.
fn give_sysctl(m: &mut Machine, frame: &mut TrapFrame, a: u32, b: u32) -> (r: Flow)
    ensures
        machine::outcome(*final(m), *final(frame), r) == sysctl_given(
            old(m)@,
            old(frame)@,
            a,
            b,
        ),
{
    let oldp: u64 = frame.x[2];
    let oldlenp: u64 = frame.x[3];
    match find_sysctl(a, b) {
        Sysctl::Text(s) => give_value(m, frame, oldp, oldlenp, s.as_bytes(), true),
        Sysctl::Word(v) => {
            let mut d: Vec<u8> = Vec::new();
            bytes::push_le32(&mut d, v);
            assert(d@ =~= bytes::le32_bytes(v));
            give_value(m, frame, oldp, oldlenp, &d, false)
        },
        Sysctl::Long(v) => {
            let mut d: Vec<u8> = Vec::new();
            bytes::push_le64(&mut d, v);
            assert(d@ =~= bytes::le64_bytes(v));
            give_value(m, frame, oldp, oldlenp, &d, false)
        },
        Sysctl::Quiet => {
            machine::syscall_error(frame, ENOENT);
            Flow::Resume
        },
        Sysctl::Unknown => {
            m.say("xnu-rs: sysctl ");
            m.hex(a as u64);
            m.say(".");
            m.hex(b as u64);
            m.say("\n");
            machine::syscall_error(frame, ENOENT);
            Flow::Resume
        },
    }
}

/// `sysctl`.
pub fn sys_sysctl(m: &mut Machine, frame: &mut TrapFrame) -> (r: Flow)
    ensures
        machine::outcome(*final(m), *final(frame), r) == sysctl_outcome(old(m)@, old(frame)@),
{
    let mib: u64 = frame.x[0];
    let len: u64 = frame.x[1];
    if mib == 0 || len == 0 {
        machine::syscall_error(frame, EINVAL);
        return Flow::Resume;
    }
    let a: u32 = match m.mem.load32(mib) {
        Err(e) => {
            return Flow::Stopped(e);
        },
        Ok(v) => v,
    };
    let b: u32 = if len > 1 {
        let at: u64 = match mib.checked_add(4) {
            None => {
                return Flow::Stopped(Stop::Overflow);
            },
            Some(x) => x,
        };
        match m.mem.load32(at) {
            Err(e) => {
                return Flow::Stopped(e);
            },
            Ok(v) => v,
        }
    } else {
        0
    };
    give_sysctl(m, frame, a, b)
}

/// Calls that give information leave the mappings alone.
pub proof fn lemma_info_keeps_mappings(
    m: MachineView,
    f: Frame,
    ticks: u64,
    addr: u64,
    data: Seq<u8>,
)
    ensures
        gave(m, f, addr, data).m.mmap_base == m.mmap_base,
        ioctl_outcome(m, f).m.mmap_base == m.mmap_base,
        entropy_outcome(m, f, ticks).m.mmap_base == m.mmap_base,
        sysctl_outcome(m, f).m.mmap_base == m.mmap_base,
{
}

} // verus!
