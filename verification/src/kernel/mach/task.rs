//! The ports that every task has a name for.

use crate::kernel::ipc::mach_port::{NameEntry, Namespace, PortNamespace};
use crate::kernel::ipc::rights::RightKind;
use vstd::prelude::*;

verus! {

/// Name of the task's own port.
pub const TASK_SELF_NAME: u32 = 1;

/// Name of the thread's own port.
pub const THREAD_SELF_NAME: u32 = 2;

/// Name of the host's port.
pub const HOST_SELF_NAME: u32 = 3;

/// Name of the bootstrap port.
pub const BOOTSTRAP_NAME: u32 = 4;

/// Name of the right to send to the bootstrap port.
pub const BOOTSTRAP_SEND_NAME: u32 = 104;

/// With a new port under a given name, to receive from.
pub open spec fn with_port(n: Namespace, name: u32) -> Namespace {
    n.opened().at(name, n.ports.len() as usize, RightKind::Receive)
}

/// With the four ports, and the right to send to the bootstrap port.
pub open spec fn seeded(n: Namespace) -> Namespace {
    let all = with_port(
        with_port(
            with_port(with_port(n, TASK_SELF_NAME), THREAD_SELF_NAME),
            HOST_SELF_NAME,
        ),
        BOOTSTRAP_NAME,
    );
    all.at(BOOTSTRAP_SEND_NAME, all.entries[BOOTSTRAP_NAME].port, RightKind::Send)
}

/// Opens a port under a given name: its number.
fn open_at(ns: &mut PortNamespace, name: u32) -> (r: usize)
    ensures
        final(ns)@ == with_port(old(ns)@, name),
        r == old(ns)@.ports.len(),
{
    let port: usize = ns.open_port();
    ns.insert_at(name, port, RightKind::Receive);
    port
}

/// Opens the ports that every task has a name for.
pub fn init(ns: &mut PortNamespace)
    ensures
        final(ns)@ == seeded(old(ns)@),
{
    open_at(ns, TASK_SELF_NAME);
    open_at(ns, THREAD_SELF_NAME);
    open_at(ns, HOST_SELF_NAME);
    let bootstrap: usize = open_at(ns, BOOTSTRAP_NAME);
    ns.insert_at(BOOTSTRAP_SEND_NAME, bootstrap, RightKind::Send);
}

/// After that, each of the four names is for a port of its own, and what is sent
/// to the bootstrap port comes out under its name.
pub proof fn law_well_known_ports(n: Namespace)
    requires
        n.wf(),
        n.ports.len() + 4 <= usize::MAX,
    ensures
        seeded(n).wf(),
        forall|a: u32|
            1 <= a <= 4 ==> #[trigger] seeded(n).get(a) == Some(
                NameEntry {
                    kind: RightKind::Receive,
                    port: (n.ports.len() + a - 1) as usize,
                },
            ),
        seeded(n).get(BOOTSTRAP_SEND_NAME) == Some(
            NameEntry { kind: RightKind::Send, port: (n.ports.len() + 3) as usize },
        ),
        seeded(n).ports == n.ports + Seq::new(4, |i: int| Seq::empty()),
{
    assert(seeded(n).ports =~= n.ports + Seq::new(4, |i: int| Seq::empty()));
}

} // verus!
