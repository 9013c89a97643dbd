//! What a system call is given and what it gives back.

use crate::kernel::arch::machine::{Machine, MachineView};
use crate::kernel::ipc::mach_port::{Namespace, PortNamespace};
use vstd::prelude::*;

verus! {

/// A system call: its number and arguments, and what it returns.
pub struct SyscallContext {
    nr: u64,
    args: [u64; 8],
    ret: u64,
    carry: bool,
}

/// What a `SyscallContext` holds.
#[verifier::ext_equal]
pub struct Call {
    /// The number.
    pub nr: u64,
    /// The arguments.
    pub args: Seq<u64>,
    /// The returned value.
    pub ret: u64,
    /// Whether the returned value is an error number.
    pub carry: bool,
}

impl View for SyscallContext {
    type V = Call;

    closed spec fn view(&self) -> Call {
        Call { nr: self.nr, args: self.args@, ret: self.ret, carry: self.carry }
    }
}

impl Call {
    /// With a returned value.
    pub open spec fn returning(self, val: u64) -> Call {
        Call { ret: val, ..self }
    }
}

impl SyscallContext {
    /// A call that has not returned anything.
    pub fn new(nr: u64, args: [u64; 8]) -> (r: Self)
        ensures
            r@ == (Call { nr, args: args@, ret: 0, carry: false }),
    {
        SyscallContext { nr, args, ret: 0, carry: false }
    }

    /// The number.
    pub fn nr(&self) -> (r: u64)
        ensures
            r == self@.nr,
    {
        self.nr
    }

    /// Argument `i`.
    pub fn arg(&self, i: usize) -> (r: u64)
        requires
            i < 8,
        ensures
            r == self@.args[i as int],
    {
        self.args[i]
    }

    /// Sets the returned value.
    pub fn set_return(&mut self, val: u64)
        ensures
            final(self)@ == old(self)@.returning(val),
    {
        self.ret = val;
    }

    /// The returned value.
    pub fn return_val(&self) -> (r: u64)
        ensures
            r == self@.ret,
    {
        self.ret
    }

    /// Returns an error number and marks it as one.
    pub fn set_error(&mut self, errno: u64)
        ensures
            final(self)@ == (Call { ret: errno, carry: true, ..old(self)@ }),
    {
        self.ret = errno;
        self.carry = true;
    }

    /// Whether the returned value is an error number.
    pub fn has_error(&self) -> (r: bool)
        ensures
            r == self@.carry,
    {
        self.carry
    }
}

/// The state that system calls work on.
pub struct System {
    /// Memory, console and mappings.
    pub machine: Machine,
    /// The task's ports.
    pub names: PortNamespace,
}

/// What a `System` holds.
#[verifier::ext_equal]
pub struct SystemView {
    pub m: MachineView,
    pub n: Namespace,
}

impl View for System {
    type V = SystemView;

    open spec fn view(&self) -> SystemView {
        SystemView { m: self.machine@, n: self.names@ }
    }
}

} // verus!
