//! System calls on files: read, pread, open, close, lseek, stat64, fstat64.

use crate::bytes;
use crate::kernel::arch::context::{Frame, TrapFrame};
use crate::kernel::arch::machine;
use crate::kernel::arch::machine::{
    FileView, Flow, FlowView, LookupFor, Machine, MachineView, OpenFile, Outcome, ReadFor,
};
use crate::mem::{Memory, PhysMem, Stop};
use crate::text;
use vstd::prelude::*;

verus! {

pub const EIO: u64 = 5;

pub const ENOENT: u64 = 2;

pub const EBADF: u64 = 9;

pub const EINVAL: u64 = 22;

/// Descriptor of `/dev/null`.
pub const DEV_NULL_FD: u64 = 100;

/// Descriptor of the console.
pub const DEV_CONSOLE_FD: u64 = 101;

/// Descriptor of the random number devices.
pub const DEV_URANDOM_FD: u64 = 102;

/// Descriptor of `/dev/zero`.
pub const DEV_ZERO_FD: u64 = 103;

/// The longest path that user code may pass.
pub const MAX_PATH: u64 = 1024;

/// Size of the attribute record that stat calls write.
pub const STAT_SIZE: usize = 144;

/// Type and permissions of a device.
pub const MODE_DEVICE: u16 = 0x21b6;

/// Type and permissions of a file.
pub const MODE_FILE: u16 = 0x81ed;

/// Appends `c`; specifies `String::push` of the standard library.
pub assume_specification[ String::push ](s: &mut String, c: char)
    ensures
        final(s)@ == old(s)@.push(c),
;

/// Whether `fd` names a device.
pub open spec fn dev_fd(fd: u64) -> bool {
    fd == DEV_NULL_FD || fd == DEV_CONSOLE_FD || fd == DEV_URANDOM_FD || fd == DEV_ZERO_FD
}

/// Whether `fd` names a device.
pub fn is_dev_fd(fd: u64) -> (r: bool)
    ensures
        r == dev_fd(fd),
{
    fd == DEV_NULL_FD || fd == DEV_CONSOLE_FD || fd == DEV_URANDOM_FD || fd == DEV_ZERO_FD
}

// ── Random bytes ───────────────────────────────────────────────────────────

/// The next state of the random number generator.
pub open spec fn next_seed(seed: u64) -> u64 {
    let a = seed ^ (seed << 13u32);
    let b = a ^ (a >> 7u32);
    b ^ (b << 17u32)
}

/// The state after `n` steps.
pub open spec fn seed_after(seed: u64, n: nat) -> u64
    decreases n,
{
    if n == 0 {
        seed
    } else {
        next_seed(seed_after(seed, (n - 1) as nat))
    }
}

/// `n` random bytes from `seed`: the low byte of each state.
pub open spec fn random_bytes(seed: u64, n: nat) -> Seq<u8> {
    Seq::new(n, |i: int| seed_after(seed, (i + 1) as nat) as u8)
}

/// Makes `n` random bytes from `seed`.
pub fn make_random(seed: u64, n: usize) -> (r: Vec<u8>)
    ensures
        r@ == random_bytes(seed, n as nat),
{
    let mut out: Vec<u8> = Vec::new();
    let mut s: u64 = seed;
    let mut i: usize = 0;
    while i < n
        invariant
            i <= n,
            s == seed_after(seed, i as nat),
            out@ =~= random_bytes(seed, i as nat),
        decreases n - i,
    {
        s = s ^ (s << 13u32);
        s = s ^ (s >> 7u32);
        s = s ^ (s << 17u32);
        out.push(s as u8);
        i = i + 1;
    }
    out
}

// ── User strings ───────────────────────────────────────────────────────────

/// How long the string at `ptr` is, given that its first `i` bytes are not
/// zero: none if it is longer than `MAX_PATH`.
pub open spec fn string_len(mem: Memory, ptr: u64, i: int) -> Result<Option<int>, Stop>
    decreases MAX_PATH + 1 - i,
{
    if i > MAX_PATH {
        Ok(None)
    } else if ptr + i > u64::MAX {
        Err(Stop::Overflow)
    } else {
        match mem.get8(ptr + i) {
            None => Err(Stop::Fault((ptr + i) as u64)),
            Some(b) => if b == 0 {
                Ok(Some(i))
            } else {
                string_len(mem, ptr, i + 1)
            },
        }
    }
}

/// The text of the `n` bytes at `ptr`, one character per byte.
pub open spec fn byte_text(mem: Memory, ptr: u64, n: nat) -> Seq<char> {
    Seq::new(n, |i: int| mem.bytes[ptr - mem.base + i] as char)
}

/// The string at `ptr`; none if `ptr` is null or the string is too long.
pub open spec fn user_string(mem: Memory, ptr: u64) -> Result<Option<Seq<char>>, Stop> {
    if ptr == 0 {
        Ok(None)
    } else {
        match string_len(mem, ptr, 0) {
            Err(e) => Err(e),
            Ok(None) => Ok(None),
            Ok(Some(n)) => Ok(Some(byte_text(mem, ptr, n as nat))),
        }
    }
}

/// Reads the string at `ptr`.
pub fn get_user_string(mem: &PhysMem, ptr: u64) -> (r: Result<Option<String>, Stop>)
    ensures
        match (r, user_string(mem@, ptr)) {
            (Ok(Some(s)), Ok(Some(t))) => s@ == t,
            (Ok(None), Ok(None)) => true,
            (Err(e), Err(f)) => e == f,
            _ => false,
        },
{
    if ptr == 0 {
        return Ok(None);
    }
    let mut s: String = String::new();
    let mut i: u64 = 0;
    assert(s@ =~= byte_text(mem@, ptr, 0));
    while i <= MAX_PATH
        invariant
            i <= MAX_PATH + 1,
            ptr != 0,
            string_len(mem@, ptr, 0) == string_len(mem@, ptr, i as int),
            s@ =~= byte_text(mem@, ptr, i as nat),
        decreases MAX_PATH + 1 - i,
    {
        let addr: u64 = match ptr.checked_add(i) {
            Some(a) => a,
            None => {
                return Err(Stop::Overflow);
            },
        };
        let b: u8 = match mem.load8(addr) {
            Ok(b) => b,
            Err(e) => {
                return Err(e);
            },
        };
        if b == 0 {
            return Ok(Some(s));
        }
        s.push(b as char);
        i = i + 1;
    }
    Ok(None)
}

// ── Reading from descriptors ───────────────────────────────────────────────

/// What reading from a descriptor takes.
#[derive(Clone, Copy, Debug, PartialEq, Eq, Structural)]
pub enum FdRead {
    /// It fails with this error.
    Error(u64),
    /// There is nothing to read.
    Nothing,
    /// These bytes of the disk are needed.
    Disk { offset: u64, len: u64 },
    /// The disk offset overflowed.
    Stopped(Stop),
}

/// What reading `len` bytes at `offset` of descriptor `fd` takes: as many bytes
/// as the file has from there on, at most `len`.
pub open spec fn fd_read(m: MachineView, fd: u64, len: u64, offset: u64) -> FdRead {
    if fd >= m.files.len() || m.files[fd as int] is None {
        FdRead::Error(EBADF)
    } else {
        let file = m.files[fd as int]->0;
        if offset >= file.data_size {
            FdRead::Nothing
        } else if file.data_offset + offset > u64::MAX {
            FdRead::Stopped(Stop::Overflow)
        } else if len == 0 {
            FdRead::Nothing
        } else {
            FdRead::Disk {
                offset: (file.data_offset + offset) as u64,
                len: if len < file.data_size - offset {
                    len
                } else {
                    (file.data_size - offset) as u64
                },
            }
        }
    }
}

/// Finds out what reading from a descriptor takes.
pub fn read_from_fd(m: &Machine, fd: u64, len: u64, offset: u64) -> (r: FdRead)
    ensures
        r == fd_read(m@, fd, len, offset),
{
    assert(m.files@.len() == m.files.len());
    if fd >= m.files.len() as u64 {
        return FdRead::Error(EBADF);
    }
    match &m.files[fd as usize] {
        None => FdRead::Error(EBADF),
        Some(file) => {
            if offset >= file.data_size {
                return FdRead::Nothing;
            }
            let disk: u64 = match file.data_offset.checked_add(offset) {
                Some(d) => d,
                None => {
                    return FdRead::Stopped(Stop::Overflow);
                },
            };
            if len == 0 {
                return FdRead::Nothing;
            }
            let rest: u64 = file.data_size - offset;
            FdRead::Disk {
                offset: disk,
                len: if len < rest {
                    len
                } else {
                    rest
                },
            }
        },
    }
}

/// A failed read.
pub open spec fn read_failed(m: MachineView, f: Frame, errno: u64) -> Outcome {
    machine::done(
        m.say(" -> error errno="@).hex(errno).say("\n"@),
        machine::fail(f, errno),
    )
}

/// A read that gave `n` bytes.
pub open spec fn read_gave(m: MachineView, f: Frame, n: u64) -> Outcome {
    machine::done(m.say(" -> read_len=0x"@).hex(n).say("\n"@), machine::ret(f, n))
}

/// A read through the file position that gave `n` bytes: the position moves on.
pub open spec fn read_moved(m: MachineView, f: Frame, fd: u64, n: u64) -> Outcome {
    if fd < m.files.len() && m.files[fd as int] is Some {
        let file = m.files[fd as int]->0;
        if file.seek_offset + n > u64::MAX {
            machine::stopped(m, f, Stop::Overflow)
        } else {
            read_gave(
                MachineView {
                    files: m.files.update(
                        fd as int,
                        Some(FileView { seek_offset: (file.seek_offset + n) as u64, ..file }),
                    ),
                    ..m
                },
                f,
                n,
            )
        }
    } else {
        read_gave(m, f, n)
    }
}

fn fail_read(m: &mut Machine, frame: &mut TrapFrame, errno: u64) -> (r: Flow)
    ensures
        machine::outcome(*final(m), *final(frame), r) == read_failed(old(m)@, old(frame)@, errno),
{
    m.say(" -> error errno=");
    m.hex(errno);
    m.say("\n");
    machine::syscall_error(frame, errno);
    Flow::Resume
}

fn give_read(m: &mut Machine, frame: &mut TrapFrame, n: u64) -> (r: Flow)
    ensures
        machine::outcome(*final(m), *final(frame), r) == read_gave(old(m)@, old(frame)@, n),
{
    m.say(" -> read_len=0x");
    m.hex(n);
    m.say("\n");
    machine::set_result(frame, n);
    Flow::Resume
}

fn move_read(m: &mut Machine, frame: &mut TrapFrame, fd: u64, n: u64) -> (r: Flow)
    ensures
        machine::outcome(*final(m), *final(frame), r) == read_moved(
            old(m)@,
            old(frame)@,
            fd,
            n,
        ),
{
    let ghost before = m@;
    assert(m.files@.len() == m.files.len());
    if fd < m.files.len() as u64 {
        let slot = &mut m.files[fd as usize];
        match slot {
            Some(file) => {
                match file.seek_offset.checked_add(n) {
                    Some(s) => {
                        file.seek_offset = s;
                    },
                    None => {
                        assert(m@.files =~= before.files);
                        return Flow::Stopped(Stop::Overflow);
                    },
                }
            },
            None => {},
        }
        proof {
            match before.files[fd as int] {
                Some(file) => {
                    assert(m@.files =~= before.files.update(
                        fd as int,
                        Some(FileView { seek_offset: (file.seek_offset + n) as u64, ..file }),
                    ));
                },
                None => {
                    assert(m@.files =~= before.files);
                },
            }
        }
    }
    give_read(m, frame, n)
}

/// `read`: from the position of an open file, or from a device.
pub open spec fn read_outcome(m: MachineView, f: Frame, ticks: u64) -> Outcome {
    let fd = f.x[0];
    let buf = f.x[1];
    let len = f.x[2];
    let n = m.say("xnu-rs: sys_read fd="@).hex(fd).say(" len=0x"@).hex(len);
    if fd == 0 || fd == DEV_NULL_FD || fd == DEV_CONSOLE_FD {
        machine::done(n.say(" -> 0 (eof)\n"@), machine::ret(f, 0))
    } else if fd == DEV_URANDOM_FD || fd == DEV_ZERO_FD {
        let note = if fd == DEV_URANDOM_FD {
            " -> (random)\n"@
        } else {
            " -> (zeros)\n"@
        };
        let data = if fd == DEV_URANDOM_FD {
            random_bytes(ticks, len as nat)
        } else {
            bytes::zeros(len as nat)
        };
        if buf == 0 {
            machine::done(n.say(note), machine::ret(f, 0))
        } else {
            match n.fill(buf, data) {
                Err(e) => machine::stopped(n, f, e),
                Ok(p) => machine::done(p.say(note), machine::ret(f, len)),
            }
        }
    } else if buf == 0 {
        machine::done(n.say(" -> EINVAL (null buf)\n"@), machine::fail(f, EINVAL))
    } else if fd >= n.files.len() {
        machine::done(n.say(" -> EBADF (out of range)\n"@), machine::fail(f, EBADF))
    } else if n.files[fd as int] is None {
        machine::done(n.say(" -> EBADF (not open)\n"@), machine::fail(f, EBADF))
    } else {
        let at = n.files[fd as int]->0.seek_offset;
        let p = n.say(" offset=0x"@).hex(at);
        match fd_read(p, fd, len, at) {
            FdRead::Error(errno) => read_failed(p, f, errno),
            FdRead::Nothing => read_moved(p, f, fd, 0),
            FdRead::Stopped(e) => machine::stopped(p, f, e),
            FdRead::Disk { offset, len } => Outcome {
                m: p,
                f,
                flow: FlowView::Read { offset, len, read_for: ReadFor::Read { fd, buf } },
            },
        }
    }
}

/// Hands out the bytes of a device.
fn read_device(m: &mut Machine, frame: &mut TrapFrame, ticks: u64, random: bool) -> (r: Flow)
    ensures
        machine::outcome(*final(m), *final(frame), r) == ({
            let buf = old(frame)@.x[1];
            let len = old(frame)@.x[2];
            let note = if random {
                " -> (random)\n"@
            } else {
                " -> (zeros)\n"@
            };
            let data = if random {
                random_bytes(ticks, len as nat)
            } else {
                bytes::zeros(len as nat)
            };
            if buf == 0 {
                machine::done(old(m)@.say(note), machine::ret(old(frame)@, 0))
            } else {
                match old(m)@.fill(buf, data) {
                    Err(e) => machine::stopped(old(m)@, old(frame)@, e),
                    Ok(p) => machine::done(p.say(note), machine::ret(old(frame)@, len)),
                }
            }
        }),
{
    let buf: u64 = frame.x[1];
    let len: u64 = frame.x[2];
    if buf != 0 {
        if len != 0 {
            if !m.mem.covers(buf, len) {
                return Flow::Stopped(Stop::Fault(buf));
            }
            assert(m.mem.bytes@.len() == m.mem.bytes.len());
            let data: Vec<u8> = if random {
                make_random(ticks, len as usize)
            } else {
                bytes::zeroed(len as usize)
            };
            match m.fill(buf, &data) {
                Ok(()) => {},
                Err(e) => {
                    return Flow::Stopped(e);
                },
            }
        }
        machine::set_result(frame, len);
    } else {
        machine::set_result(frame, 0);
    }
    if random {
        m.say(" -> (random)\n");
    } else {
        m.say(" -> (zeros)\n");
    }
    Flow::Resume
}

/// `read`; `ticks` is the time counter, which seeds random bytes.
pub fn sys_read(m: &mut Machine, frame: &mut TrapFrame, ticks: u64) -> (r: Flow)
    ensures
        machine::outcome(*final(m), *final(frame), r) == read_outcome(
            old(m)@,
            old(frame)@,
            ticks,
        ),
{
    let fd: u64 = frame.x[0];
    let buf: u64 = frame.x[1];
    let len: u64 = frame.x[2];
    m.say("xnu-rs: sys_read fd=");
    m.hex(fd);
    m.say(" len=0x");
    m.hex(len);
    if fd == 0 || fd == DEV_NULL_FD || fd == DEV_CONSOLE_FD {
        m.say(" -> 0 (eof)\n");
        machine::set_result(frame, 0);
        return Flow::Resume;
    }
    if fd == DEV_URANDOM_FD {
        return read_device(m, frame, ticks, true);
    }
    if fd == DEV_ZERO_FD {
        return read_device(m, frame, ticks, false);
    }
    if buf == 0 {
        m.say(" -> EINVAL (null buf)\n");
        machine::syscall_error(frame, EINVAL);
        return Flow::Resume;
    }
    assert(m.files@.len() == m.files.len());
    if fd >= m.files.len() as u64 {
        m.say(" -> EBADF (out of range)\n");
        machine::syscall_error(frame, EBADF);
        return Flow::Resume;
    }
    let at: u64 = match &m.files[fd as usize] {
        Some(file) => file.seek_offset,
        None => {
            m.say(" -> EBADF (not open)\n");
            machine::syscall_error(frame, EBADF);
            return Flow::Resume;
        },
    };
    m.say(" offset=0x");
    m.hex(at);
    match read_from_fd(m, fd, len, at) {
        FdRead::Error(errno) => fail_read(m, frame, errno),
        FdRead::Nothing => move_read(m, frame, fd, 0),
        FdRead::Stopped(e) => Flow::Stopped(e),
        FdRead::Disk { offset, len } => Flow::Read {
            offset,
            len,
            read_for: ReadFor::Read { fd, buf },
        },
    }
}

/// `pread`: from a given offset of an open file.
pub open spec fn pread_outcome(m: MachineView, f: Frame) -> Outcome {
    let fd = f.x[0];
    let buf = f.x[1];
    let len = f.x[2];
    let at = f.x[3];
    let n = m.say("xnu-rs: sys_pread fd="@).hex(fd).say(" len=0x"@).hex(len).say(" offset=0x"@).hex(
        at,
    );
    if buf == 0 {
        machine::done(n.say(" -> EINVAL (null buf)\n"@), machine::fail(f, EINVAL))
    } else {
        match fd_read(n, fd, len, at) {
            FdRead::Error(errno) => read_failed(n, f, errno),
            FdRead::Nothing => read_gave(n, f, 0),
            FdRead::Stopped(e) => machine::stopped(n, f, e),
            FdRead::Disk { offset, len } => Outcome {
                m: n,
                f,
                flow: FlowView::Read { offset, len, read_for: ReadFor::Pread { buf } },
            },
        }
    }
}

/// `pread`.
pub fn sys_pread(m: &mut Machine, frame: &mut TrapFrame) -> (r: Flow)
    ensures
        machine::outcome(*final(m), *final(frame), r) == pread_outcome(old(m)@, old(frame)@),
{
    let fd: u64 = frame.x[0];
    let buf: u64 = frame.x[1];
    let len: u64 = frame.x[2];
    let at: u64 = frame.x[3];
    m.say("xnu-rs: sys_pread fd=");
    m.hex(fd);
    m.say(" len=0x");
    m.hex(len);
    m.say(" offset=0x");
    m.hex(at);
    if buf == 0 {
        m.say(" -> EINVAL (null buf)\n");
        machine::syscall_error(frame, EINVAL);
        return Flow::Resume;
    }
    match read_from_fd(m, fd, len, at) {
        FdRead::Error(errno) => fail_read(m, frame, errno),
        FdRead::Nothing => give_read(m, frame, 0),
        FdRead::Stopped(e) => Flow::Stopped(e),
        FdRead::Disk { offset, len } => Flow::Read { offset, len, read_for: ReadFor::Pread { buf } },
    }
}

// ── Opening and closing ────────────────────────────────────────────────────

/// The descriptor of a device path, and the note that opening it leaves.
pub open spec fn device_of(path: Seq<char>) -> Option<(u64, Seq<char>)> {
    if path == "/dev/null"@ {
        Some((DEV_NULL_FD, " -> fd=100\n"@))
    } else if path == "/dev/console"@ || path == "/dev/tty"@ || path == "/dev/stderr"@ || path
        == "/dev/stdout"@ || path == "/dev/stdin"@ {
        Some((DEV_CONSOLE_FD, " -> fd=101 (console)\n"@))
    } else if path == "/dev/urandom"@ || path == "/dev/random"@ {
        Some((DEV_URANDOM_FD, " -> fd=102 (urandom)\n"@))
    } else if path == "/dev/zero"@ {
        Some((DEV_ZERO_FD, " -> fd=103 (zero)\n"@))
    } else {
        None
    }
}

/// Finds the device that a path names.
fn find_device(path: &str) -> (r: Option<(u64, &'static str)>)
    ensures
        match r {
            Some((fd, note)) => device_of(path@) == Some((fd, note@)),
            None => device_of(path@) is None,
        },
{
    if text::str_eq(path, "/dev/null") {
        Some((DEV_NULL_FD, " -> fd=100\n"))
    } else if text::str_eq(path, "/dev/console") || text::str_eq(path, "/dev/tty") || text::str_eq(
        path,
        "/dev/stderr",
    ) || text::str_eq(path, "/dev/stdout") || text::str_eq(path, "/dev/stdin") {
        Some((DEV_CONSOLE_FD, " -> fd=101 (console)\n"))
    } else if text::str_eq(path, "/dev/urandom") || text::str_eq(path, "/dev/random") {
        Some((DEV_URANDOM_FD, " -> fd=102 (urandom)\n"))
    } else if text::str_eq(path, "/dev/zero") {
        Some((DEV_ZERO_FD, " -> fd=103 (zero)\n"))
    } else {
        None
    }
}

/// `open`: a device at once, any other path once it was looked up.
pub open spec fn open_outcome(m: MachineView, f: Frame) -> Outcome {
    match user_string(m.mem, f.x[0]) {
        Err(e) => machine::stopped(m, f, e),
        Ok(None) => machine::done(
            m.say("xnu-rs: sys_open -> EINVAL (null/invalid path)\n"@),
            machine::fail(f, EINVAL),
        ),
        Ok(Some(path)) => {
            let n = m.say("xnu-rs: sys_open path=\""@).say(path).say("\""@);
            match device_of(path) {
                Some((fd, note)) => machine::done(n.say(note), machine::ret(f, fd)),
                None => Outcome {
                    m: n,
                    f,
                    flow: FlowView::Lookup { path, lookup_for: LookupFor::Open },
                },
            }
        },
    }
}

/// `open`.
pub fn sys_open(m: &mut Machine, frame: &mut TrapFrame) -> (r: Flow)
    ensures
        machine::outcome(*final(m), *final(frame), r) == open_outcome(old(m)@, old(frame)@),
{
    let path: String = match get_user_string(&m.mem, frame.x[0]) {
        Err(e) => {
            return Flow::Stopped(e);
        },
        Ok(None) => {
            m.say("xnu-rs: sys_open -> EINVAL (null/invalid path)\n");
            machine::syscall_error(frame, EINVAL);
            return Flow::Resume;
        },
        Ok(Some(p)) => p,
    };
    m.say("xnu-rs: sys_open path=\"");
    m.say(path.as_str());
    m.say("\"");
    match find_device(path.as_str()) {
        Some((fd, note)) => {
            m.say(note);
            machine::set_result(frame, fd);
            Flow::Resume
        },
        None => Flow::Lookup { path, lookup_for: LookupFor::Open },
    }
}

/// Whether a file can get descriptor `i`: it is no device's and its slot is
/// empty or not there yet.
pub open spec fn is_free(files: Seq<Option<FileView>>, i: int) -> bool {
    !(DEV_NULL_FD <= i <= DEV_ZERO_FD) && (i >= files.len() || files[i] is None)
}

/// The lowest descriptor from `i` on that a file can get.
pub open spec fn free_from(files: Seq<Option<FileView>>, i: int) -> int
    decreases files.len() + DEV_ZERO_FD + 1 - i,
{
    if is_free(files, i) || i > files.len() + DEV_ZERO_FD {
        i
    } else {
        free_from(files, i + 1)
    }
}

/// The lowest descriptor that a file can get.
pub open spec fn lowest_free(files: Seq<Option<FileView>>) -> int {
    free_from(files, 0)
}

proof fn lemma_free_from(files: Seq<Option<FileView>>, i: int)
    requires
        0 <= i <= files.len() + DEV_ZERO_FD + 1,
    ensures
        i <= free_from(files, i) <= files.len() + DEV_ZERO_FD + 1,
        is_free(files, free_from(files, i)),
        forall|k: int| i <= k < free_from(files, i) ==> !#[trigger] is_free(files, k),
    decreases files.len() + DEV_ZERO_FD + 1 - i,
{
    if !is_free(files, i) {
        lemma_free_from(files, i + 1);
    }
}

/// What `lowest_free` is, said without recursion.
pub proof fn lemma_lowest_free(files: Seq<Option<FileView>>)
    ensures
        0 <= lowest_free(files) <= files.len() + DEV_ZERO_FD + 1,
        is_free(files, lowest_free(files)),
        forall|k: int| 0 <= k < lowest_free(files) ==> !#[trigger] is_free(files, k),
{
    lemma_free_from(files, 0);
}

/// `n` empty slots.
pub open spec fn empty_slots(n: nat) -> Seq<Option<FileView>> {
    Seq::new(n, |i: int| None)
}

/// The table with `file` in slot `fd`, behind empty slots if the table ends
/// before it.
pub open spec fn with_file(
    files: Seq<Option<FileView>>,
    fd: int,
    file: FileView,
) -> Seq<Option<FileView>> {
    if fd < files.len() {
        files.update(fd, Some(file))
    } else {
        (files + empty_slots((fd - files.len()) as nat)).push(Some(file))
    }
}

/// The end of `open`, with the file's place on the disk if it was found. A file
/// never gets the descriptor of a device.
pub open spec fn opened(m: MachineView, f: Frame, path: Seq<char>, info: Option<(u64, u64)>) -> Outcome {
    match info {
        None => machine::done(m.say(" -> ENOENT\n"@), machine::fail(f, ENOENT)),
        Some((data_offset, data_size)) => {
            let fd = lowest_free(m.files) as u64;
            let n = MachineView {
                files: with_file(
                    m.files,
                    fd as int,
                    FileView { path, data_offset, data_size, seek_offset: 0 },
                ),
                ..m
            };
            machine::done(n.say(" -> fd="@).hex(fd).say("\n"@), machine::ret(f, fd))
        },
    }
}

/// Finds the lowest descriptor that a file can get.
fn find_free(m: &Machine) -> (r: u64)
    ensures
        r == lowest_free(m@.files),
        r <= m@.files.len() || r == DEV_ZERO_FD + 1,
        is_free(m@.files, r as int),
{
    let ghost files = m@.files;
    assert(m.files@.len() == m.files.len());
    proof {
        lemma_lowest_free(files);
    }
    let len: usize = m.files.len();
    let mut fd: usize = 0;
    while fd < len
        invariant
            fd <= len,
            len == m.files@.len(),
            files == m@.files,
            free_from(files, fd as int) == lowest_free(files),
        decreases len - fd,
    {
        if !is_dev_fd(fd as u64) && m.files[fd].is_none() {
            return fd as u64;
        }
        fd = fd + 1;
    }
    if DEV_NULL_FD <= fd as u64 && fd as u64 <= DEV_ZERO_FD {
        reveal_with_fuel(free_from, 6);
        DEV_ZERO_FD + 1
    } else {
        fd as u64
    }
}

/// Puts a file into slot `fd`; slots that are not there yet are made.
fn put_file(m: &mut Machine, fd: u64, file: OpenFile)
    requires
        is_free(old(m)@.files, fd as int),
        fd <= old(m)@.files.len() || fd == DEV_ZERO_FD + 1,
    ensures
        final(m)@ == (MachineView {
            files: with_file(old(m)@.files, fd as int, file@),
            ..old(m)@
        }),
{
    let ghost files = m@.files;
    assert(m.files@.len() == m.files.len());
    while (m.files.len() as u64) < fd
        invariant
            m@ == (MachineView {
                files: files + empty_slots((m.files@.len() - files.len()) as nat),
                ..old(m)@
            }),
            files == old(m)@.files,
            files.len() <= m.files@.len(),
            m.files@.len() <= fd || m.files@.len() == files.len(),
            m.files@.len() == m.files.len(),
            fd <= files.len() || fd == DEV_ZERO_FD + 1,
        decreases fd - m.files@.len(),
    {
        let ghost seen = m@.files;
        let ghost more = (m.files@.len() - files.len()) as nat;
        m.files.push(None);
        assert(m.files@.len() == m.files.len());
        assert(m@.files =~= seen.push(None));
        assert(empty_slots(more + 1) =~= empty_slots(more).push(None));
        assert(m@.files =~= files + empty_slots(more + 1));
    }
    if fd < m.files.len() as u64 {
        m.files[fd as usize] = Some(file);
    } else {
        m.files.push(Some(file));
    }
    assert(m@.files =~= with_file(files, fd as int, file@));
}

/// Ends `open`.
pub fn finish_open(
    m: &mut Machine,
    frame: &mut TrapFrame,
    path: String,
    info: Option<(u64, u64)>,
) -> (r: Flow)
    ensures
        machine::outcome(*final(m), *final(frame), r) == opened(
            old(m)@,
            old(frame)@,
            path@,
            info,
        ),
{
    let (data_offset, data_size) = match info {
        None => {
            m.say(" -> ENOENT\n");
            machine::syscall_error(frame, ENOENT);
            return Flow::Resume;
        },
        Some(i) => i,
    };
    let ghost files = m@.files;
    let fd: u64 = find_free(m);
    let ghost view = FileView { path: path@, data_offset, data_size, seek_offset: 0 };
    let file = OpenFile { path, data_offset, data_size, seek_offset: 0 };
    put_file(m, fd, file);
    assert(m@.files =~= with_file(files, fd as int, view));
    m.say(" -> fd=");
    m.hex(fd);
    m.say("\n");
    machine::set_result(frame, fd);
    Flow::Resume
}

/// `close`.
pub open spec fn close_outcome(m: MachineView, f: Frame) -> Outcome {
    let fd = f.x[0];
    let n = m.say("xnu-rs: sys_close fd="@).hex(fd);
    if fd < n.files.len() && n.files[fd as int] is Some {
        let p = MachineView { files: n.files.update(fd as int, None), ..n };
        machine::done(p.say(" -> ok\n"@), machine::ret(f, 0))
    } else if dev_fd(fd) {
        machine::done(n.say(" -> ok (devfs)\n"@), machine::ret(f, 0))
    } else {
        machine::done(n.say(" -> EBADF\n"@), machine::fail(f, EBADF))
    }
}

/// `close`.
pub fn sys_close(m: &mut Machine, frame: &mut TrapFrame) -> (r: Flow)
    ensures
        machine::outcome(*final(m), *final(frame), r) == close_outcome(old(m)@, old(frame)@),
{
    let fd: u64 = frame.x[0];
    m.say("xnu-rs: sys_close fd=");
    m.hex(fd);
    if m.is_open(fd) {
        let ghost files = m@.files;
        assert(m.files@.len() == m.files.len());
        m.files[fd as usize] = None;
        assert(m@.files =~= files.update(fd as int, None));
        m.say(" -> ok\n");
        machine::set_result(frame, 0);
    } else if is_dev_fd(fd) {
        m.say(" -> ok (devfs)\n");
        machine::set_result(frame, 0);
    } else {
        m.say(" -> EBADF\n");
        machine::syscall_error(frame, EBADF);
    }
    Flow::Resume
}

/// Where a seek goes, before the test for a negative result: from the start,
/// the position or the end of the file. None for another `whence`.
pub open spec fn seek_target(file: FileView, offset: i64, whence: i32) -> Option<int> {
    if whence == 0 {
        Some(offset as int)
    } else if whence == 1 {
        Some((file.seek_offset as i64) + offset)
    } else if whence == 2 {
        Some((file.data_size as i64) + offset)
    } else {
        None
    }
}

/// `lseek`.
pub open spec fn lseek_outcome(m: MachineView, f: Frame) -> Outcome {
    let fd = f.x[0];
    if fd >= m.files.len() || m.files[fd as int] is None {
        machine::done(m, machine::fail(f, EBADF))
    } else {
        let file = m.files[fd as int]->0;
        match seek_target(file, f.x[1] as i64, f.x[2] as i32) {
            None => machine::done(m, machine::fail(f, EINVAL)),
            Some(t) => if t < i64::MIN || t > i64::MAX {
                machine::stopped(m, f, Stop::Overflow)
            } else if t < 0 {
                machine::done(m, machine::fail(f, EINVAL))
            } else {
                machine::done(
                    MachineView {
                        files: m.files.update(
                            fd as int,
                            Some(FileView { seek_offset: t as u64, ..file }),
                        ),
                        ..m
                    },
                    machine::ret(f, t as u64),
                )
            },
        }
    }
}

/// `lseek`.
pub fn sys_lseek(m: &mut Machine, frame: &mut TrapFrame) -> (r: Flow)
    ensures
        machine::outcome(*final(m), *final(frame), r) == lseek_outcome(old(m)@, old(frame)@),
{
    let fd: u64 = frame.x[0];
    let offset: i64 = frame.x[1] as i64;
    let whence: i32 = frame.x[2] as i32;
    assert(m.files@.len() == m.files.len());
    if fd >= m.files.len() as u64 {
        machine::syscall_error(frame, EBADF);
        return Flow::Resume;
    }
    let base: i64 = match &m.files[fd as usize] {
        None => {
            machine::syscall_error(frame, EBADF);
            return Flow::Resume;
        },
        Some(file) => if whence == 0 {
            0
        } else if whence == 1 {
            file.seek_offset as i64
        } else if whence == 2 {
            file.data_size as i64
        } else {
            machine::syscall_error(frame, EINVAL);
            return Flow::Resume;
        },
    };
    let target: i64 = match base.checked_add(offset) {
        Some(t) => t,
        None => {
            return Flow::Stopped(Stop::Overflow);
        },
    };
    if target < 0 {
        machine::syscall_error(frame, EINVAL);
        return Flow::Resume;
    }
    let ghost before = m@.files;
    let slot = &mut m.files[fd as usize];
    match slot {
        Some(file) => {
            file.seek_offset = target as u64;
        },
        None => {},
    }
    proof {
        let file = before[fd as int]->0;
        assert(m@.files =~= before.update(
            fd as int,
            Some(FileView { seek_offset: target as u64, ..file }),
        ));
    }
    machine::set_result(frame, target as u64);
    Flow::Resume
}

// ── Attributes ─────────────────────────────────────────────────────────────

/// The attribute record of a file or device of `size` bytes.
pub open spec fn stat_record(device: bool, size: u64) -> Seq<u8> {
    let mode = if device {
        MODE_DEVICE
    } else {
        MODE_FILE
    };
    bytes::splice(
        bytes::splice(
            bytes::splice(bytes::zeros(STAT_SIZE as nat), 4, bytes::le16_bytes(mode)),
            96,
            bytes::le64_bytes(size),
        ),
        112,
        bytes::le32_bytes(4096),
    )
}

/// Writes the attribute record at `st`.
pub open spec fn stat_written(m: MachineView, f: Frame, st: u64, device: bool, size: u64) -> Outcome {
    match m.fill(st, stat_record(device, size)) {
        Err(e) => machine::stopped(m, f, e),
        Ok(n) => machine::done(n, machine::ret(f, 0)),
    }
}

/// Writes the attribute record at `st`.
fn write_stat(
    m: &mut Machine,
    frame: &mut TrapFrame,
    st: u64,
    device: bool,
    size: u64,
) -> (r: Flow)
    ensures
        machine::outcome(*final(m), *final(frame), r) == stat_written(
            old(m)@,
            old(frame)@,
            st,
            device,
            size,
        ),
{
    let mut rec: Vec<u8> = bytes::zeroed(STAT_SIZE);
    let mut mode: Vec<u8> = Vec::new();
    bytes::push_le16(
        &mut mode,
        if device {
            MODE_DEVICE
        } else {
            MODE_FILE
        },
    );
    let mut bytes8: Vec<u8> = Vec::new();
    bytes::push_le64(&mut bytes8, size);
    let mut block: Vec<u8> = Vec::new();
    bytes::push_le32(&mut block, 4096);
    proof {
        let md = if device {
            MODE_DEVICE
        } else {
            MODE_FILE
        };
        assert(mode@ =~= bytes::le16_bytes(md));
        assert(bytes8@ =~= bytes::le64_bytes(size));
        assert(block@ =~= bytes::le32_bytes(4096));
    }
    bytes::write_at(&mut rec, 4, &mode);
    bytes::write_at(&mut rec, 96, &bytes8);
    bytes::write_at(&mut rec, 112, &block);
    match m.fill(st, &rec) {
        Err(e) => Flow::Stopped(e),
        Ok(()) => {
            machine::set_result(frame, 0);
            Flow::Resume
        },
    }
}

/// `fstat64`.
pub open spec fn fstat_outcome(m: MachineView, f: Frame) -> Outcome {
    let fd = f.x[0];
    let st = f.x[1];
    if st == 0 {
        machine::done(m, machine::fail(f, EINVAL))
    } else if fd >= m.files.len() {
        machine::done(m, machine::fail(f, EBADF))
    } else if dev_fd(fd) {
        stat_written(m, f, st, true, 0)
    } else if m.files[fd as int] is Some {
        stat_written(m, f, st, false, m.files[fd as int]->0.data_size)
    } else {
        machine::done(m, machine::fail(f, EBADF))
    }
}

/// `fstat64`.
pub fn sys_fstat64(m: &mut Machine, frame: &mut TrapFrame) -> (r: Flow)
    ensures
        machine::outcome(*final(m), *final(frame), r) == fstat_outcome(old(m)@, old(frame)@),
{
    let fd: u64 = frame.x[0];
    let st: u64 = frame.x[1];
    if st == 0 {
        machine::syscall_error(frame, EINVAL);
        return Flow::Resume;
    }
    assert(m.files@.len() == m.files.len());
    if fd >= m.files.len() as u64 {
        machine::syscall_error(frame, EBADF);
        return Flow::Resume;
    }
    if is_dev_fd(fd) {
        return write_stat(m, frame, st, true, 0);
    }
    let size: u64 = match &m.files[fd as usize] {
        Some(file) => file.data_size,
        None => {
            machine::syscall_error(frame, EBADF);
            return Flow::Resume;
        },
    };
    write_stat(m, frame, st, false, size)
}

/// `stat64` and `lstat64`: `/dev/null` at once, any other path once it was
/// looked up.
pub open spec fn stat_outcome(m: MachineView, f: Frame) -> Outcome {
    match user_string(m.mem, f.x[0]) {
        Err(e) => machine::stopped(m, f, e),
        Ok(None) => machine::done(m, machine::fail(f, EINVAL)),
        Ok(Some(path)) => if f.x[1] == 0 {
            machine::done(m, machine::fail(f, EINVAL))
        } else if path == "/dev/null"@ {
            stat_written(m, f, f.x[1], true, 0)
        } else {
            Outcome {
                m,
                f,
                flow: FlowView::Lookup { path, lookup_for: LookupFor::Stat { st: f.x[1] } },
            }
        },
    }
}

/// `stat64` and `lstat64`.
pub fn sys_stat64(m: &mut Machine, frame: &mut TrapFrame) -> (r: Flow)
    ensures
        machine::outcome(*final(m), *final(frame), r) == stat_outcome(old(m)@, old(frame)@),
{
    let st: u64 = frame.x[1];
    let path: String = match get_user_string(&m.mem, frame.x[0]) {
        Err(e) => {
            return Flow::Stopped(e);
        },
        Ok(None) => {
            machine::syscall_error(frame, EINVAL);
            return Flow::Resume;
        },
        Ok(Some(p)) => p,
    };
    if st == 0 {
        machine::syscall_error(frame, EINVAL);
        return Flow::Resume;
    }
    if text::str_eq(path.as_str(), "/dev/null") {
        return write_stat(m, frame, st, true, 0);
    }
    Flow::Lookup { path, lookup_for: LookupFor::Stat { st } }
}

/// The end of `stat64`, with the file's place on the disk if it was found.
pub open spec fn statted(m: MachineView, f: Frame, st: u64, info: Option<(u64, u64)>) -> Outcome {
    match info {
        None => machine::done(m, machine::fail(f, ENOENT)),
        Some((_, size)) => stat_written(m, f, st, false, size),
    }
}

/// Ends `stat64`.
pub fn finish_stat(m: &mut Machine, frame: &mut TrapFrame, st: u64, info: Option<(u64, u64)>) -> (r:
    Flow)
    ensures
        machine::outcome(*final(m), *final(frame), r) == statted(old(m)@, old(frame)@, st, info),
{
    match info {
        None => {
            machine::syscall_error(frame, ENOENT);
            Flow::Resume
        },
        Some((_, size)) => write_stat(m, frame, st, false, size),
    }
}

/// The end of a read from the disk; `data` is none if the disk failed.
pub open spec fn disk_read(
    m: MachineView,
    f: Frame,
    data: Option<Seq<u8>>,
    buf: u64,
    fd: Option<u64>,
) -> Outcome {
    match data {
        None => read_failed(m, f, EIO),
        Some(d) => match m.fill(buf, d) {
            Err(e) => machine::stopped(m, f, e),
            Ok(n) => match fd {
                Some(fd) => read_moved(n, f, fd, d.len() as u64),
                None => read_gave(n, f, d.len() as u64),
            },
        },
    }
}

/// Ends `read` and `pread` with the bytes that the disk gave.
pub fn finish_read(
    m: &mut Machine,
    frame: &mut TrapFrame,
    data: Option<&[u8]>,
    buf: u64,
    fd: Option<u64>,
) -> (r: Flow)
    ensures
        machine::outcome(*final(m), *final(frame), r) == disk_read(
            old(m)@,
            old(frame)@,
            match data {
                Some(d) => Some(d@),
                None => None,
            },
            buf,
            fd,
        ),
{
    let d: &[u8] = match data {
        None => {
            return fail_read(m, frame, EIO);
        },
        Some(d) => d,
    };
    assert(d@.len() == d.len());
    match m.fill(buf, d) {
        Err(e) => Flow::Stopped(e),
        Ok(()) => match fd {
            Some(fd) => move_read(m, frame, fd, d.len() as u64),
            None => give_read(m, frame, d.len() as u64),
        },
    }
}

/// Calls on files leave the mappings alone.
pub proof fn lemma_files_keep_mappings(m: MachineView, f: Frame, ticks: u64)
    ensures
        read_outcome(m, f, ticks).m.mmap_base == m.mmap_base,
        pread_outcome(m, f).m.mmap_base == m.mmap_base,
        open_outcome(m, f).m.mmap_base == m.mmap_base,
        close_outcome(m, f).m.mmap_base == m.mmap_base,
        lseek_outcome(m, f).m.mmap_base == m.mmap_base,
        stat_outcome(m, f).m.mmap_base == m.mmap_base,
        fstat_outcome(m, f).m.mmap_base == m.mmap_base,
{
}

/// The ends of calls on files leave the mappings alone.
pub proof fn lemma_file_ends_keep_mappings(
    m: MachineView,
    f: Frame,
    path: Seq<char>,
    found: Option<(u64, u64)>,
    st: u64,
    data: Option<Seq<u8>>,
    buf: u64,
    fd: Option<u64>,
)
    ensures
        opened(m, f, path, found).m.mmap_base == m.mmap_base,
        statted(m, f, st, found).m.mmap_base == m.mmap_base,
        disk_read(m, f, data, buf, fd).m.mmap_base == m.mmap_base,
{
}

} // verus!
