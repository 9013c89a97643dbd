//! Rights on ports.

use vstd::prelude::*;

verus! {

/// The kind of right that a task holds on a port.
#[derive(Clone, Copy, PartialEq, Eq, Debug, Structural)]
pub enum RightKind {
    /// The holder can put messages into the port.
    Send,
    /// A right to send once, which the first use takes away.
    SendOnce,
    /// The holder can take messages out of the port; there is at most one for a
    /// port.
    Receive,
}

} // verus!
