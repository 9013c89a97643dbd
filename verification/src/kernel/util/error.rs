//! The kernel's errors.

use vstd::prelude::*;

verus! {

/// Why the kernel could not do something.
#[derive(Debug, Clone, Copy, PartialEq, Eq, Structural)]
pub enum KernelError {
    OutOfMemory,
    InvalidAddress,
    NotFound,
    PermissionDenied,
    Again,
    Io,
    BadFd,
    NoSys,
    Fault,
}

/// The number of an error.
pub open spec fn errno(e: KernelError) -> int {
    match e {
        KernelError::PermissionDenied => 1,
        KernelError::NotFound => 2,
        KernelError::Io => 5,
        KernelError::BadFd => 9,
        KernelError::OutOfMemory => 12,
        KernelError::Fault => 14,
        KernelError::InvalidAddress => 22,
        KernelError::Again => 35,
        KernelError::NoSys => 78,
    }
}

/// What an error is as a number: its error number, negated.
pub open spec fn code(e: KernelError) -> i64 {
    (-errno(e)) as i64
}

impl vstd::std_specs::convert::FromSpecImpl<KernelError> for i64 {
    open spec fn obeys_from_spec() -> bool {
        true
    }

    open spec fn from_spec(e: KernelError) -> i64 {
        code(e)
    }
}

impl From<KernelError> for i64 {
    fn from(e: KernelError) -> (r: i64) {
        match e {
            KernelError::NotFound => -2,
            KernelError::Again => -35,
            KernelError::BadFd => -9,
            KernelError::OutOfMemory => -12,
            KernelError::PermissionDenied => -1,
            KernelError::Fault => -14,
            KernelError::Io => -5,
            KernelError::InvalidAddress => -22,
            KernelError::NoSys => -78,
        }
    }
}

/// Different errors have different numbers, all of them negative.
pub proof fn law_codes_tell_errors_apart(a: KernelError, b: KernelError)
    ensures
        code(a) < 0,
        code(a) == code(b) ==> a == b,
{
}

} // verus!
