//! The state that system calls work on, and what they leave behind.

use crate::kernel::arch::context::{Frame, TrapFrame};
use crate::kernel::arch::uart;
use crate::kernel::arch::uart::Console;
use crate::mem::{Memory, PhysMem, Stop};
use vstd::prelude::*;

verus! {

/// How many slots the table of open files starts with.
pub const OPEN_FILES: usize = 256;

/// The carry flag in the saved processor state, which marks an error.
pub const CARRY: u64 = 0x2000_0000;

/// A file that is open.
pub struct OpenFile {
    /// The path it was opened by.
    pub path: String,
    /// Where its bytes start on the disk.
    pub data_offset: u64,
    /// How many bytes it has.
    pub data_size: u64,
    /// Where the next read starts.
    pub seek_offset: u64,
}

/// What an `OpenFile` says.
#[verifier::ext_equal]
pub struct FileView {
    pub path: Seq<char>,
    pub data_offset: u64,
    pub data_size: u64,
    pub seek_offset: u64,
}

impl View for OpenFile {
    type V = FileView;

    open spec fn view(&self) -> FileView {
        FileView {
            path: self.path@,
            data_offset: self.data_offset,
            data_size: self.data_size,
            seek_offset: self.seek_offset,
        }
    }
}

/// The view of a slot in the table of open files.
pub open spec fn slot_view(f: Option<OpenFile>) -> Option<FileView> {
    match f {
        Some(o) => Some(o@),
        None => None,
    }
}

/// The state that system calls work on.
pub struct Machine {
    /// Open files, by descriptor.
    pub files: Vec<Option<OpenFile>>,
    /// Where the next anonymous mapping goes; 0 before the first.
    pub mmap_base: u64,
    /// The next port name.
    pub port_counter: u32,
    /// The thread pointer that user code can read.
    pub thread_pointer: u64,
    /// Identity-mapped memory.
    pub mem: PhysMem,
    /// The serial console.
    pub console: Console,
}

/// What a `Machine` holds.
#[verifier::ext_equal]
pub struct MachineView {
    pub files: Seq<Option<FileView>>,
    pub mmap_base: u64,
    pub port_counter: u32,
    pub thread_pointer: u64,
    pub mem: Memory,
    pub log: Seq<u8>,
}

impl View for Machine {
    type V = MachineView;

    open spec fn view(&self) -> MachineView {
        MachineView {
            files: Seq::new(self.files@.len(), |i: int| slot_view(self.files@[i])),
            mmap_base: self.mmap_base,
            port_counter: self.port_counter,
            thread_pointer: self.thread_pointer,
            mem: self.mem@,
            log: self.console@,
        }
    }
}

impl MachineView {
    /// With text behind the log.
    pub open spec fn say(self, s: Seq<char>) -> MachineView {
        MachineView { log: uart::put_str(self.log, s), ..self }
    }

    /// With a number behind the log.
    pub open spec fn hex(self, v: u64) -> MachineView {
        MachineView { log: uart::put_hex(self.log, v), ..self }
    }

    /// With `data` written at `addr`; writing nothing always succeeds.
    pub open spec fn fill(self, addr: u64, data: Seq<u8>) -> Result<MachineView, Stop> {
        if data.len() == 0 {
            Ok(self)
        } else if self.mem.covers(addr as int, data.len() as int) {
            Ok(MachineView { mem: self.mem.put(addr as int, data), ..self })
        } else {
            Err(Stop::Fault(addr))
        }
    }

    /// The `len` bytes at `addr`; reading nothing always succeeds.
    pub open spec fn span(self, addr: u64, len: u64) -> Result<Seq<u8>, Stop> {
        if len == 0 {
            Ok(Seq::empty())
        } else if self.mem.covers(addr as int, len as int) {
            Ok(self.mem.slice(addr as int, len as int))
        } else {
            Err(Stop::Fault(addr))
        }
    }
}

/// A frame whose result register holds `v`.
pub open spec fn ret(f: Frame, v: u64) -> Frame {
    Frame { x: f.x.update(0, v), ..f }
}

/// A frame that reports error `errno`.
pub open spec fn fail(f: Frame, errno: u64) -> Frame {
    Frame { x: f.x.update(0, errno), pstate: f.pstate | CARRY, ..f }
}

/// What a file lookup is for.
#[derive(Clone, Copy, Debug, PartialEq, Eq, Structural)]
pub enum LookupFor {
    /// Open the file.
    Open,
    /// Write its attributes at this address.
    Stat { st: u64 },
}

/// What a disk read is for.
#[derive(Clone, Copy, Debug, PartialEq, Eq, Structural)]
pub enum ReadFor {
    /// Hand the bytes out at `buf` and advance descriptor `fd`.
    Read { fd: u64, buf: u64 },
    /// Hand the bytes out at `buf`.
    Pread { buf: u64 },
    /// Fill the mapping of `len` bytes at `dest`.
    Mmap { dest: u64, len: u64 },
}

/// How a system call goes on.
pub enum Flow {
    /// Return to user code.
    Resume,
    /// Stop for good.
    Halt,
    /// The kernel itself failed.
    Stopped(Stop),
    /// Find a file on the disk and come back.
    Lookup { path: String, lookup_for: LookupFor },
    /// Read `len` bytes at byte `offset` of the disk and come back.
    Read { offset: u64, len: u64, read_for: ReadFor },
}

/// What a `Flow` says.
#[verifier::ext_equal]
pub enum FlowView {
    Resume,
    Halt,
    Stopped(Stop),
    Lookup { path: Seq<char>, lookup_for: LookupFor },
    Read { offset: u64, len: u64, read_for: ReadFor },
}

impl View for Flow {
    type V = FlowView;

    open spec fn view(&self) -> FlowView {
        match self {
            Flow::Resume => FlowView::Resume,
            Flow::Halt => FlowView::Halt,
            Flow::Stopped(s) => FlowView::Stopped(*s),
            Flow::Lookup { path, lookup_for } => FlowView::Lookup {
                path: path@,
                lookup_for: *lookup_for,
            },
            Flow::Read { offset, len, read_for } => FlowView::Read {
                offset: *offset,
                len: *len,
                read_for: *read_for,
            },
        }
    }
}

/// What a system call leaves behind.
#[verifier::ext_equal]
pub struct Outcome {
    pub m: MachineView,
    pub f: Frame,
    pub flow: FlowView,
}

/// The outcome that goes back to user code.
pub open spec fn done(m: MachineView, f: Frame) -> Outcome {
    Outcome { m, f, flow: FlowView::Resume }
}

/// The outcome of a kernel failure.
pub open spec fn stopped(m: MachineView, f: Frame, stop: Stop) -> Outcome {
    Outcome { m, f, flow: FlowView::Stopped(stop) }
}

/// The outcome of a call that left `m` and `f` and returned `r`.
pub open spec fn outcome(m: Machine, f: TrapFrame, r: Flow) -> Outcome {
    Outcome { m: m@, f: f@, flow: r@ }
}

impl Machine {
    /// A machine with nothing open and nothing mapped.
    pub fn new(mem: PhysMem) -> (r: Machine)
        ensures
            r@ == (MachineView {
                files: Seq::new(OPEN_FILES as nat, |i: int| None),
                mmap_base: 0,
                port_counter: 10,
                thread_pointer: 0,
                mem: mem@,
                log: Seq::empty(),
            }),
    {
        let mut files: Vec<Option<OpenFile>> = Vec::new();
        let mut i: usize = 0;
        while i < OPEN_FILES
            invariant
                i <= OPEN_FILES,
                files@.len() == i,
                forall|k: int| 0 <= k < i ==> (#[trigger] files@[k]) is None,
            decreases OPEN_FILES - i,
        {
            files.push(None);
            i = i + 1;
        }
        let r = Machine {
            files,
            mmap_base: 0,
            port_counter: 10,
            thread_pointer: 0,
            mem,
            console: Console::new(),
        };
        assert(r@.files =~= Seq::new(OPEN_FILES as nat, |i: int| None));
        r
    }

    /// Writes text to the console.
    pub fn say(&mut self, s: &str)
        ensures
            final(self)@ == old(self)@.say(s@),
    {
        uart::write_str(&mut self.console, s);
    }

    /// Writes a number to the console.
    pub fn hex(&mut self, v: u64)
        ensures
            final(self)@ == old(self)@.hex(v),
    {
        uart::write_hex_u64(&mut self.console, v);
    }

    /// Whether the file in slot `fd` is open.
    pub fn is_open(&self, fd: u64) -> (r: bool)
        ensures
            r == (fd < self@.files.len() && self@.files[fd as int] is Some),
    {
        assert(self.files@.len() == self.files.len());
        fd < self.files.len() as u64 && self.files[fd as usize].is_some()
    }

    /// Writes `data` at `addr`.
    pub fn fill(&mut self, addr: u64, data: &[u8]) -> (r: Result<(), Stop>)
        ensures
            match r {
                Ok(()) => old(self)@.fill(addr, data@) == Ok::<MachineView, Stop>(final(self)@),
                Err(e) => old(self)@.fill(addr, data@) == Err::<MachineView, Stop>(e)
                    && final(self)@ == old(self)@,
            },
    {
        if data.len() == 0 {
            return Ok(());
        }
        self.mem.store(addr, data)
    }

    /// Writes `len` zero bytes at `addr`.
    pub fn clear(&mut self, addr: u64, len: u64) -> (r: Result<(), Stop>)
        ensures
            match r {
                Ok(()) => old(self)@.fill(addr, crate::bytes::zeros(len as nat)) == Ok::<
                    MachineView,
                    Stop,
                >(final(self)@),
                Err(e) => old(self)@.fill(addr, crate::bytes::zeros(len as nat)) == Err::<
                    MachineView,
                    Stop,
                >(e) && final(self)@ == old(self)@,
            },
    {
        if len == 0 {
            return Ok(());
        }
        self.mem.clear(addr, len)
    }

    /// Copies the `len` bytes at `addr` to the console.
    pub fn print_span(&mut self, addr: u64, len: u64) -> (r: Result<(), Stop>)
        ensures
            match (r, old(self)@.span(addr, len)) {
                (Ok(()), Ok(s)) => final(self)@ == (MachineView {
                    log: old(self)@.log + s,
                    ..old(self)@
                }),
                (Err(e), Err(f)) => e == f && final(self)@ == old(self)@,
                _ => false,
            },
    {
        if len == 0 {
            assert(self@.log =~= self@.log + Seq::<u8>::empty());
            return Ok(());
        }
        if !self.mem.covers(addr, len) {
            return Err(Stop::Fault(addr));
        }
        assert(self.mem.bytes@.len() == self.mem.bytes.len());
        let at: usize = (addr - self.mem.base) as usize;
        let end: usize = at + len as usize;
        uart::write_bytes(&mut self.console, &self.mem.bytes[at..end]);
        Ok(())
    }
}

/// Puts `v` in the result register.
pub fn set_result(frame: &mut TrapFrame, v: u64)
    ensures
        final(frame)@ == ret(old(frame)@, v),
{
    frame.x[0] = v;
}

/// Reports error `errno`.
pub fn syscall_error(frame: &mut TrapFrame, errno: u64)
    ensures
        final(frame)@ == fail(old(frame)@, errno),
{
    frame.x[0] = errno;
    frame.pstate = frame.pstate | CARRY;
}

} // verus!
