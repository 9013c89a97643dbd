//! Which system call or trap a number stands for.

use crate::align;
use crate::kernel::arch::context::{Frame, TrapFrame};
use crate::kernel::arch::machine;
use crate::kernel::arch::machine::{
    FlowView, Flow, LookupFor, Machine, MachineView, Outcome, ReadFor, CARRY,
};
use crate::kernel::arch::syscall::files;
use crate::kernel::arch::syscall::files::{EBADF, EINVAL, EIO, ENOENT};
use crate::kernel::arch::syscall::info;
use crate::kernel::arch::syscall::mach;
use crate::kernel::arch::syscall::memory;
use crate::kernel::arch::syscall::memory::ENOMEM;
use crate::kernel::arch::syscall::output;
use vstd::prelude::*;
use crate::bytes;

verus! {

pub const ENOSYS: u64 = 38;

pub const SYS_EXIT: u64 = 1;

pub const SYS_FORK: u64 = 2;

pub const SYS_READ: u64 = 3;

pub const SYS_WRITE: u64 = 4;

pub const SYS_OPEN: u64 = 5;

pub const SYS_CLOSE: u64 = 6;

pub const SYS_CHDIR: u64 = 12;

pub const SYS_FCHDIR: u64 = 13;

pub const SYS_GETPID: u64 = 20;

pub const SYS_GETUID: u64 = 24;

pub const SYS_GETEUID: u64 = 25;

pub const SYS_RECVFROM: u64 = 29;

pub const SYS_SETITIMER: u64 = 38;

pub const SYS_DUP: u64 = 41;

pub const SYS_PIPE: u64 = 42;

pub const SYS_GETEGID: u64 = 43;

pub const SYS_SIGACTION: u64 = 46;

pub const SYS_GETGID: u64 = 47;

pub const SYS_SIGPROCMASK: u64 = 48;

pub const SYS_SIGALTSTACK: u64 = 53;

pub const SYS_IOCTL: u64 = 54;

pub const SYS_MUNMAP: u64 = 73;

pub const SYS_MPROTECT: u64 = 74;

pub const SYS_DUP2: u64 = 90;

pub const SYS_FCNTL: u64 = 92;

pub const SYS_SOCKET: u64 = 97;

pub const SYS_CONNECT: u64 = 98;

pub const SYS_GETTIMEOFDAY: u64 = 116;

pub const SYS_GETRUSAGE: u64 = 117;

pub const SYS_GETSOCKOPT: u64 = 118;

pub const SYS_WRITEV: u64 = 121;

pub const SYS_SENDTO: u64 = 133;

pub const SYS_PREAD: u64 = 153;

pub const SYS_PWRITE: u64 = 154;

pub const SYS_CSOPS: u64 = 169;

pub const SYS_CSOPS_AUDITTOKEN: u64 = 170;

pub const SYS_SIGRETURN: u64 = 184;

pub const SYS_GETRLIMIT: u64 = 194;

pub const SYS_SETRLIMIT: u64 = 195;

pub const SYS_MMAP: u64 = 197;

pub const SYS_LSEEK: u64 = 199;

pub const SYS_SYSCTL: u64 = 202;

pub const SYS_SHARED_REGION_CHECK_NP: u64 = 294;

pub const SYS_ISSETUGID: u64 = 327;

pub const SYS_PTHREAD_SIGMASK: u64 = 329;

pub const SYS_DISABLE_THREADSIGNAL: u64 = 332;

pub const SYS_PROC_INFO: u64 = 336;

pub const SYS_STAT64: u64 = 338;

pub const SYS_FSTAT64: u64 = 339;

pub const SYS_LSTAT64: u64 = 340;

pub const SYS_GETDIRENTRIES64: u64 = 344;

pub const SYS_AUDIT: u64 = 350;

pub const SYS_GETAUDIT_ADDR: u64 = 357;

pub const SYS_BSDTHREAD_REGISTER: u64 = 366;

pub const SYS_THREAD_SELFID: u64 = 372;

pub const SYS_WORKQ_OPEN: u64 = 456;

pub const SYS_KQUEUE_WORKLOOP_CTL: u64 = 483;

pub const SYS_WORK_INTERVAL_CTL: u64 = 500;

pub const SYS_GETENTROPY: u64 = 520;

pub const SYS_ABORT_WITH_PAYLOAD: u64 = 521;

/// Calls that do nothing and succeed.
pub open spec fn is_stub(nr: u64) -> bool {
    nr == SYS_FORK || nr == SYS_GETUID || nr == SYS_GETEUID || nr == SYS_GETGID || nr == SYS_GETEGID
        || nr == SYS_SIGACTION || nr == SYS_SIGPROCMASK || nr == SYS_SIGRETURN || nr
        == SYS_SIGALTSTACK || nr == SYS_MUNMAP || nr == SYS_MPROTECT || nr == SYS_SETRLIMIT || nr
        == SYS_ISSETUGID || nr == SYS_CSOPS || nr == SYS_CSOPS_AUDITTOKEN || nr == SYS_PROC_INFO
        || nr == SYS_BSDTHREAD_REGISTER || nr == SYS_WORKQ_OPEN || nr == SYS_DISABLE_THREADSIGNAL
        || nr == SYS_PTHREAD_SIGMASK || nr == SYS_GETDIRENTRIES64 || nr == SYS_AUDIT || nr
        == SYS_GETAUDIT_ADDR || nr == SYS_SETITIMER || nr == SYS_KQUEUE_WORKLOOP_CTL || nr
        == SYS_WORK_INTERVAL_CTL || nr == SYS_CHDIR || nr == SYS_FCHDIR || nr == SYS_PIPE || nr
        == 55 || nr == 242 || nr == 381
}

/// Socket calls, which are not there.
pub open spec fn is_socket(nr: u64) -> bool {
    nr == SYS_SOCKET || nr == SYS_CONNECT || nr == SYS_SENDTO || nr == SYS_RECVFROM || nr
        == SYS_GETSOCKOPT
}

/// What a BSD system call does; `ticks` is the time counter.
pub open spec fn bsd_outcome(m: MachineView, f: Frame, nr: u64, ticks: u64) -> Outcome {
    if nr == SYS_EXIT {
        output::exit_outcome(m, f)
    } else if nr == SYS_WRITE || nr == SYS_PWRITE {
        output::write_outcome(m, f)
    } else if nr == SYS_WRITEV {
        output::writev_outcome(m, f)
    } else if nr == SYS_READ {
        files::read_outcome(m, f, ticks)
    } else if nr == SYS_PREAD {
        files::pread_outcome(m, f)
    } else if nr == SYS_OPEN {
        files::open_outcome(m, f)
    } else if nr == SYS_CLOSE {
        files::close_outcome(m, f)
    } else if nr == SYS_LSEEK {
        files::lseek_outcome(m, f)
    } else if is_stub(nr) {
        machine::done(m, machine::ret(f, 0))
    } else if nr == SYS_GETPID || nr == SYS_THREAD_SELFID {
        machine::done(m, machine::ret(f, 1))
    } else if nr == SYS_IOCTL {
        info::ioctl_outcome(m, f)
    } else if nr == SYS_FCNTL {
        machine::done(
            m,
            machine::ret(
                f,
                if f.x[1] == 3 {
                    2
                } else {
                    0
                },
            ),
        )
    } else if nr == SYS_MMAP {
        memory::mmap_outcome(m, f)
    } else if nr == SYS_SYSCTL {
        info::sysctl_outcome(m, f)
    } else if nr == SYS_GETTIMEOFDAY {
        info::gave(m, f, f.x[0], bytes::zeros(12))
    } else if nr == SYS_GETRUSAGE {
        info::gave(m, f, f.x[1], bytes::zeros(144))
    } else if nr == SYS_GETRLIMIT {
        info::gave(m, f, f.x[1], info::no_limits())
    } else if nr == SYS_STAT64 || nr == SYS_LSTAT64 {
        files::stat_outcome(m, f)
    } else if nr == SYS_SHARED_REGION_CHECK_NP {
        machine::done(m, machine::fail(f, ENOENT))
    } else if nr == SYS_FSTAT64 {
        files::fstat_outcome(m, f)
    } else if nr == SYS_GETENTROPY {
        info::entropy_outcome(m, f, ticks)
    } else if is_socket(nr) {
        machine::done(m, machine::fail(f, ENOSYS))
    } else if nr == SYS_DUP {
        machine::done(m, f)
    } else if nr == SYS_DUP2 {
        machine::done(m, machine::ret(f, f.x[1]))
    } else if nr == SYS_ABORT_WITH_PAYLOAD {
        output::abort_outcome(m, f)
    } else {
        machine::done(
            m.say("xnu-rs: bsd x16="@).hex(nr).say("\n"@),
            machine::fail(f, ENOSYS),
        )
    }
}

/// Carries out a BSD system call.
pub fn dispatch_bsd(m: &mut Machine, frame: &mut TrapFrame, nr: u64, ticks: u64) -> (r: Flow)
    ensures
        machine::outcome(*final(m), *final(frame), r) == bsd_outcome(
            old(m)@,
            old(frame)@,
            nr,
            ticks,
        ),
{
    match nr {
        SYS_EXIT => output::sys_exit(m, frame),
        SYS_WRITE | SYS_PWRITE => output::sys_write(m, frame),
        SYS_WRITEV => output::sys_writev(m, frame),
        SYS_READ => files::sys_read(m, frame, ticks),
        SYS_PREAD => files::sys_pread(m, frame),
        SYS_OPEN => files::sys_open(m, frame),
        SYS_CLOSE => files::sys_close(m, frame),
        SYS_LSEEK => files::sys_lseek(m, frame),
        SYS_FORK
        | SYS_GETUID
        | SYS_GETEUID
        | SYS_GETGID
        | SYS_GETEGID
        | SYS_SIGACTION
        | SYS_SIGPROCMASK
        | SYS_SIGRETURN
        | SYS_SIGALTSTACK
        | SYS_MUNMAP
        | SYS_MPROTECT
        | SYS_SETRLIMIT
        | SYS_ISSETUGID
        | SYS_CSOPS
        | SYS_CSOPS_AUDITTOKEN
        | SYS_PROC_INFO
        | SYS_BSDTHREAD_REGISTER
        | SYS_WORKQ_OPEN
        | SYS_DISABLE_THREADSIGNAL
        | SYS_PTHREAD_SIGMASK
        | SYS_GETDIRENTRIES64
        | SYS_AUDIT
        | SYS_GETAUDIT_ADDR
        | SYS_SETITIMER
        | SYS_KQUEUE_WORKLOOP_CTL
        | SYS_WORK_INTERVAL_CTL
        | SYS_CHDIR
        | SYS_FCHDIR
        | SYS_PIPE
        | 55
        | 242
        | 381 => {
            machine::set_result(frame, 0);
            Flow::Resume
        },
        SYS_GETPID | SYS_THREAD_SELFID => {
            machine::set_result(frame, 1);
            Flow::Resume
        },
        SYS_IOCTL => info::sys_ioctl(m, frame),
        SYS_FCNTL => {
            let v: u64 = if frame.x[1] == 3 {
                2
            } else {
                0
            };
            machine::set_result(frame, v);
            Flow::Resume
        },
        SYS_MMAP => memory::sys_mmap(m, frame),
        SYS_SYSCTL => info::sys_sysctl(m, frame),
        SYS_GETTIMEOFDAY => info::sys_gettimeofday(m, frame),
        SYS_GETRUSAGE => info::sys_getrusage(m, frame),
        SYS_GETRLIMIT => info::sys_getrlimit(m, frame),
        SYS_STAT64 | SYS_LSTAT64 => files::sys_stat64(m, frame),
        SYS_SHARED_REGION_CHECK_NP => {
            machine::syscall_error(frame, ENOENT);
            Flow::Resume
        },
        SYS_FSTAT64 => files::sys_fstat64(m, frame),
        SYS_GETENTROPY => info::sys_getentropy(m, frame, ticks),
        SYS_SOCKET | SYS_CONNECT | SYS_SENDTO | SYS_RECVFROM | SYS_GETSOCKOPT => {
            machine::syscall_error(frame, ENOSYS);
            Flow::Resume
        },
        SYS_DUP => Flow::Resume,
        SYS_DUP2 => {
            let fd: u64 = frame.x[1];
            machine::set_result(frame, fd);
            Flow::Resume
        },
        SYS_ABORT_WITH_PAYLOAD => output::sys_abort(m, frame),
        _ => {
            m.say("xnu-rs: bsd x16=");
            m.hex(nr);
            m.say("\n");
            machine::syscall_error(frame, ENOSYS);
            Flow::Resume
        },
    }
}

/// A frame whose carry flag is clear.
pub open spec fn cleared(f: Frame) -> Frame {
    Frame { pstate: f.pstate & !CARRY, ..f }
}

/// What a supervisor call does. The low 32 bits of x16 select it: the platform
/// call, a negative number for a Mach trap, a BSD call otherwise.
pub open spec fn dispatch_outcome(m: MachineView, f: Frame, ticks: u64) -> Outcome {
    let nr = f.x[16];
    let low = nr as int % 0x1_0000_0000;
    if low == 0x8000_0000 {
        mach::platform_outcome(m, f)
    } else if low > 0x8000_0000 {
        mach::mach_outcome(m, f, (0xffff_ffff_0000_0000 + low) as u64, ticks)
    } else {
        bsd_outcome(m, cleared(f), nr, ticks)
    }
}

/// Carries out a supervisor call; `ticks` is the time counter.
pub fn dispatch(m: &mut Machine, frame: &mut TrapFrame, ticks: u64) -> (r: Flow)
    ensures
        machine::outcome(*final(m), *final(frame), r) == dispatch_outcome(
            old(m)@,
            old(frame)@,
            ticks,
        ),
{
    let nr: u64 = frame.x[16];
    let low: u64 = nr % 0x1_0000_0000;
    if low == 0x8000_0000 {
        mach::dispatch_platform(m, frame)
    } else if low > 0x8000_0000 {
        mach::dispatch_mach(m, frame, 0xffff_ffff_0000_0000 + low, ticks)
    } else {
        frame.pstate = frame.pstate & !CARRY;
        dispatch_bsd(m, frame, nr, ticks)
    }
}

/// Goes on after a file was looked up.
pub open spec fn lookup_outcome(
    m: MachineView,
    f: Frame,
    path: Seq<char>,
    lookup_for: LookupFor,
    found: Option<(u64, u64)>,
) -> Outcome {
    match lookup_for {
        LookupFor::Open => files::opened(m, f, path, found),
        LookupFor::Stat { st } => files::statted(m, f, st, found),
    }
}

/// Goes on after a file was looked up: `found` is its place and size on the
/// disk.
pub fn resume_lookup(
    m: &mut Machine,
    frame: &mut TrapFrame,
    path: String,
    lookup_for: LookupFor,
    found: Option<(u64, u64)>,
) -> (r: Flow)
    ensures
        machine::outcome(*final(m), *final(frame), r) == lookup_outcome(
            old(m)@,
            old(frame)@,
            path@,
            lookup_for,
            found,
        ),
{
    match lookup_for {
        LookupFor::Open => files::finish_open(m, frame, path, found),
        LookupFor::Stat { st } => files::finish_stat(m, frame, st, found),
    }
}

/// Goes on after the disk was read.
pub open spec fn disk_outcome(
    m: MachineView,
    f: Frame,
    read_for: ReadFor,
    data: Option<Seq<u8>>,
) -> Outcome {
    match read_for {
        ReadFor::Read { fd, buf } => files::disk_read(m, f, data, buf, Some(fd)),
        ReadFor::Pread { buf } => files::disk_read(m, f, data, buf, None),
        ReadFor::Mmap { dest, len } => memory::disk_mapped(m, f, dest, len, data),
    }
}

/// Goes on after the disk was read: `data` is none if that failed.
pub fn resume_read(
    m: &mut Machine,
    frame: &mut TrapFrame,
    read_for: ReadFor,
    data: Option<&[u8]>,
) -> (r: Flow)
    ensures
        machine::outcome(*final(m), *final(frame), r) == disk_outcome(
            old(m)@,
            old(frame)@,
            read_for,
            match data {
                Some(d) => Some(d@),
                None => None,
            },
        ),
{
    match read_for {
        ReadFor::Read { fd, buf } => files::finish_read(m, frame, data, buf, Some(fd)),
        ReadFor::Pread { buf } => files::finish_read(m, frame, data, buf, None),
        ReadFor::Mmap { dest, len } => match data {
            None => memory::fail_mmap(m, frame, EIO),
            Some(d) => memory::finish_mmap(m, frame, dest, len, d),
        },
    }
}

/// Whether a number is one of the errors that system calls report.
pub open spec fn is_errno(e: u64) -> bool {
    e == ENOENT || e == EIO || e == EBADF || e == ENOMEM || e == EINVAL || e == ENOSYS
}

/// Setting the carry flag shows, and clearing it shows.
proof fn lemma_carry(p: u64)
    ensures
        (p | CARRY) & CARRY != 0,
        (p & !CARRY) & CARRY == 0,
{
    assert((p | 0x2000_0000) & 0x2000_0000 != 0 && (p & !0x2000_0000) & 0x2000_0000 == 0)
        by (bit_vector);
}

/// A BSD call that goes back to user code reports an error exactly by the carry
/// flag: where it is set the result register holds an error number, and where
/// it is clear the processor state is otherwise as it was.
pub proof fn law_carry_marks_errors(m: MachineView, f: Frame, ticks: u64)
    requires
        f.x.len() == 31,
        f.x[16] as int % 0x1_0000_0000 < 0x8000_0000,
    ensures
        ({
            let o = dispatch_outcome(m, f, ticks);
            o.flow == FlowView::Resume ==> {
                ||| o.f.pstate & CARRY != 0 && is_errno(o.f.x[0])
                ||| o.f.pstate == f.pstate & !CARRY && o.f.pstate & CARRY == 0
            }
        }),
{
    lemma_carry(f.pstate);
    lemma_carry(f.pstate & !CARRY);
}

/// Closing an open file frees its descriptor: a read through it then fails with
/// `EBADF`, and the next file that is opened gets it or a lower one (but never
/// that of a device).
pub proof fn law_close_frees(m: MachineView, f: Frame, fd: u64, len: u64, offset: u64)
    requires
        f.x.len() == 31,
        f.x[0] == fd,
        fd < m.files.len(),
        m.files[fd as int] is Some,
    ensures
        ({
            let n = files::close_outcome(m, f).m;
            &&& files::fd_read(n, fd, len, offset) == files::FdRead::Error(EBADF)
            &&& !files::dev_fd(fd) ==> files::lowest_free(n.files) <= fd
            &&& forall|k: int| 0 <= k < m.files.len() && k != fd ==> n.files[k] == m.files[k]
        }),
{
    let n = files::close_outcome(m, f).m;
    files::lemma_lowest_free(n.files);
    if files::lowest_free(n.files) > fd {
        assert(!files::is_free(n.files, fd as int));
    }
}

/// Opening a file gives the lowest descriptor that was free and is no device's.
/// No other slot changes, and the processor state stays as it was.
pub proof fn law_open_takes_lowest(
    m: MachineView,
    f: Frame,
    path: Seq<char>,
    place: (u64, u64),
)
    requires
        f.x.len() == 31,
        m.files.len() < u64::MAX - 0x100,
    ensures
        ({
            let o = files::opened(m, f, path, Some(place));
            let fd = o.f.x[0];
            &&& o.flow == FlowView::Resume
            &&& o.f.pstate == f.pstate
            &&& fd == files::lowest_free(m.files)
            &&& !files::dev_fd(fd)
            &&& fd >= m.files.len() || m.files[fd as int] is None
            &&& forall|k: int|
                0 <= k < fd && k < m.files.len() && !files::dev_fd(k as u64) ==> (
                #[trigger] m.files[k]) is Some
            &&& fd < o.m.files.len()
            &&& o.m.files[fd as int] == Some(
                machine::FileView {
                    path,
                    data_offset: place.0,
                    data_size: place.1,
                    seek_offset: 0,
                },
            )
            &&& forall|k: int|
                0 <= k < m.files.len() && k != fd ==> o.m.files[k] == #[trigger] m.files[k]
            &&& forall|k: int|
                m.files.len() <= k < o.m.files.len() && k != fd ==> (
                #[trigger] o.m.files[k]) is None
        }),
{
    files::lemma_lowest_free(m.files);
    let fd = files::lowest_free(m.files);
    assert forall|k: int|
        0 <= k < fd && k < m.files.len() && !files::dev_fd(k as u64) implies (
    #[trigger] m.files[k]) is Some by {
        assert(!files::is_free(m.files, k));
    }
}

/// Whether a call of `mmap` asks for memory without a file, at an address of the
/// kernel's choice.
pub open spec fn is_anonymous(f: Frame) -> bool {
    &&& f.x.len() == 31
    &&& f.x[3] & memory::MAP_ANON != 0
    &&& f.x[3] & memory::MAP_FIXED == 0 || f.x[0] == 0
}

/// Whether a call went back to user code without an error.
pub open spec fn succeeded(o: Outcome) -> bool {
    o.flow == FlowView::Resume && o.f.pstate & CARRY == 0
}

/// An anonymous mapping is whole pages inside the region. It is zero when the
/// call returns, and the next one starts where it ends.
pub proof fn law_anonymous_mapping(m: MachineView, f: Frame)
    requires
        memory::region_ok(m),
        is_anonymous(f),
        succeeded(memory::mmap_outcome(m, f)),
    ensures
        ({
            let o = memory::mmap_outcome(m, f);
            let dest = o.f.x[0];
            let size = align::page_up(f.x[1] as int);
            &&& dest == memory::next_start(m)
            &&& dest % 0x1000 == 0
            &&& memory::MMAP_REGION_START <= dest
            &&& f.x[1] <= size
            &&& dest + size == memory::next_start(o.m)
            &&& dest + size <= memory::MMAP_REGION_END
            &&& forall|k: int| 0 <= k < size ==> #[trigger] o.m.mem.get8(dest + k) == Some(0int)
            &&& memory::region_ok(o.m)
        }),
{
    lemma_carry(f.pstate);
    memory::lemma_anonymous_mapping(m, f);
    let o = memory::mmap_outcome(m, f);
    if o.f.x[0] != memory::next_start(m) {
        let n = choose|n: MachineView|
            o == #[trigger] machine::done(n, machine::fail(f, ENOMEM));
        assert(o.f.pstate == f.pstate | CARRY);
    }
    memory::lemma_mmap_moves_on(m, f);
}

proof fn lemma_bsd_moves_on(m: MachineView, f: Frame, nr: u64, ticks: u64)
    requires
        memory::region_ok(m),
    ensures
        memory::moves_on(m, bsd_outcome(m, f, nr, ticks).m),
{
    output::lemma_output_keeps_mappings(m, f);
    files::lemma_files_keep_mappings(m, f, ticks);
    memory::lemma_mmap_moves_on(m, f);
    info::lemma_info_keeps_mappings(m, f, ticks, f.x[0], bytes::zeros(12));
    info::lemma_info_keeps_mappings(m, f, ticks, f.x[1], bytes::zeros(144));
    info::lemma_info_keeps_mappings(m, f, ticks, f.x[1], info::no_limits());
}

proof fn lemma_mach_moves_on(m: MachineView, f: Frame, nr: u64, ticks: u64)
    requires
        memory::region_ok(m),
    ensures
        memory::moves_on(m, mach::mach_outcome(m, f, nr, ticks).m),
{
    memory::lemma_vm_moves_on(m, f, "xnu-rs: vm_allocate size=0x"@);
    memory::lemma_vm_moves_on(m, f, "xnu-rs: vm_map size=0x"@);
}

/// No call moves the start of the next anonymous mapping back or out of the
/// region.
pub proof fn law_calls_keep_mappings(
    m: MachineView,
    f: Frame,
    ticks: u64,
    path: Seq<char>,
    lookup_for: LookupFor,
    found: Option<(u64, u64)>,
    read_for: ReadFor,
    data: Option<Seq<u8>>,
)
    requires
        memory::region_ok(m),
    ensures
        memory::moves_on(m, dispatch_outcome(m, f, ticks).m),
        memory::moves_on(m, lookup_outcome(m, f, path, lookup_for, found).m),
        memory::moves_on(m, disk_outcome(m, f, read_for, data).m),
{
    let nr = f.x[16];
    lemma_bsd_moves_on(m, cleared(f), nr, ticks);
    lemma_mach_moves_on(
        m,
        f,
        (0xffff_ffff_0000_0000 + nr as int % 0x1_0000_0000) as u64,
        ticks,
    );
    let st = match lookup_for {
        LookupFor::Stat { st } => st,
        LookupFor::Open => 0,
    };
    match read_for {
        ReadFor::Read { fd, buf } => {
            files::lemma_file_ends_keep_mappings(m, f, path, found, st, data, buf, Some(fd));
        },
        ReadFor::Pread { buf } => {
            files::lemma_file_ends_keep_mappings(m, f, path, found, st, data, buf, None);
        },
        ReadFor::Mmap { dest, len } => {
            files::lemma_file_ends_keep_mappings(m, f, path, found, st, data, 0, None);
            memory::lemma_disk_mapped_keeps(m, f, dest, len, data);
        },
    }
}

/// Two anonymous mappings never overlap, whatever calls come between them: those
/// keep the start of the next mapping at or behind the end of the first.
pub proof fn law_anonymous_mappings_are_disjoint(
    m1: MachineView,
    f1: Frame,
    m2: MachineView,
    f2: Frame,
)
    requires
        memory::region_ok(m1),
        is_anonymous(f1),
        succeeded(memory::mmap_outcome(m1, f1)),
        memory::moves_on(memory::mmap_outcome(m1, f1).m, m2),
        is_anonymous(f2),
        succeeded(memory::mmap_outcome(m2, f2)),
    ensures
        memory::mmap_outcome(m1, f1).f.x[0] + align::page_up(f1.x[1] as int)
            <= memory::mmap_outcome(m2, f2).f.x[0],
{
    law_anonymous_mapping(m1, f1);
    law_anonymous_mapping(m2, f2);
}

} // verus!
