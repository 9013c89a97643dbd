//! Sending and receiving messages.

use crate::bytes;
use crate::kernel::ipc::mach_port::{Namespace, NameEntry, PortNamespace};
use crate::kernel::ipc::rights::RightKind;
use crate::mem::{Memory, PhysMem, Stop};
use vstd::prelude::*;

verus! {

pub const MACH_MSG_SUCCESS: u32 = 0;

pub const MACH_SEND_INVALID_DEST: u32 = 0x1000_0003;

pub const MACH_RCV_TIMED_OUT: u32 = 0x1000_4003;

pub const MACH_RCV_TOO_LARGE: u32 = 0x1000_4004;

/// Option: send a message.
pub const MACH_SEND_MSG: u32 = 0x1;

/// Option: receive a message.
pub const MACH_RCV_MSG: u32 = 0x2;

/// Bytes of a message header.
pub const HEADER_SIZE: u32 = 24;

/// The header of a message.
#[derive(Clone, Copy, Debug, PartialEq, Eq, Structural)]
pub struct MachMsgHeader {
    pub msgh_bits: u32,
    pub msgh_size: u32,
    pub msgh_remote_port: u32,
    pub msgh_local_port: u32,
    pub msgh_voucher_port: u32,
    pub msgh_id: i32,
}

/// The name of the port that a message is for.
pub open spec fn remote_port(message: Seq<u8>) -> u32 {
    bytes::le32(message, 8) as u32
}

/// Whether a right allows sending.
pub open spec fn can_send(e: NameEntry) -> bool {
    e.kind == RightKind::Send || e.kind == RightKind::SendOnce
}

/// What sending `message` does, and what it returns. It goes into the port that
/// its header names, if that name stands for a right to send; a right to send
/// once is gone then. A message for no port is dropped.
pub open spec fn sent(n: Namespace, message: Seq<u8>) -> (Namespace, u32) {
    let name = remote_port(message);
    match n.get(name) {
        Some(e) if can_send(e) => {
            let port = e.port as int;
            let more = n.with_queue(port, n.ports[port].push(message));
            (
                if e.kind == RightKind::SendOnce {
                    more.without(name)
                } else {
                    more
                },
                MACH_MSG_SUCCESS,
            )
        },
        _ => (
            n,
            if name == 0 {
                MACH_MSG_SUCCESS
            } else {
                MACH_SEND_INVALID_DEST
            },
        ),
    }
}

/// How receiving ends.
pub enum Received {
    /// With this message, which is no longer in the port.
    Message(Namespace, Seq<u8>),
    /// With this code, and nothing changed.
    Code(u32),
}

/// What receiving from the port with a name ends with: its oldest message, if
/// the name stands for the right to receive, there is one and it fits.
pub open spec fn received(n: Namespace, name: u32, limit: u32) -> Received {
    match n.get(name) {
        Some(e) if e.kind == RightKind::Receive => {
            let port = e.port as int;
            let queue = n.ports[port];
            if queue.len() == 0 {
                Received::Code(MACH_RCV_TIMED_OUT)
            } else if queue[0].len() > limit {
                Received::Code(MACH_RCV_TOO_LARGE)
            } else {
                Received::Message(n.with_queue(port, queue.drop_first()), queue[0])
            }
        },
        _ => Received::Code(MACH_RCV_TIMED_OUT),
    }
}

/// Copies bytes out of memory.
fn copy_out(mem: &PhysMem, addr: u64, size: u32) -> (r: Result<Vec<u8>, Stop>)
    ensures
        match r {
            Ok(v) => mem@.covers(addr as int, size as int) && v@ == mem@.slice(
                addr as int,
                size as int,
            ),
            Err(e) => !mem@.covers(addr as int, size as int) && e == Stop::Fault(addr),
        },
{
    if !mem.covers(addr, size as u64) {
        return Err(Stop::Fault(addr));
    }
    assert(mem.bytes@.len() == mem.bytes.len());
    let at: usize = (addr - mem.base) as usize;
    let end: usize = at + size as usize;
    let mut out: Vec<u8> = Vec::new();
    bytes::push_bytes(&mut out, &mem.bytes[at..end]);
    assert(out@ =~= mem@.slice(addr as int, size as int));
    Ok(out)
}

/// What sending the `size` bytes at `addr` does, and what it returns. A message
/// that is too short for a header has no destination.
pub open spec fn send_outcome(n: Namespace, mem: Memory, addr: u64, size: u32) -> (
    Namespace,
    Result<u32, Stop>,
) {
    if size < HEADER_SIZE {
        (n, Ok(MACH_SEND_INVALID_DEST))
    } else if !mem.covers(addr as int, size as int) {
        (n, Err(Stop::Fault(addr)))
    } else {
        let (after, code) = sent(n, mem.slice(addr as int, size as int));
        (after, Ok(code))
    }
}

/// What receiving into the `size` bytes at `addr` does, and what it returns. A
/// message of more bytes stays in the port.
pub open spec fn recv_outcome(n: Namespace, mem: Memory, name: u32, addr: u64, size: u32) -> (
    Namespace,
    Memory,
    Result<u32, Stop>,
) {
    match received(n, name, size) {
        Received::Code(code) => (n, mem, Ok(code)),
        Received::Message(after, message) => if mem.covers(addr as int, message.len() as int) {
            (after, mem.put(addr as int, message), Ok(MACH_MSG_SUCCESS))
        } else {
            (after, mem, Err(Stop::Fault(addr)))
        },
    }
}

/// Sends the `size` bytes at `header_addr`.
pub fn send(ns: &mut PortNamespace, mem: &PhysMem, header_addr: u64, size: u32) -> (r: Result<
    u32,
    Stop,
>)
    requires
        old(ns)@.wf(),
    ensures
        final(ns)@.wf(),
        (final(ns)@, r) == send_outcome(old(ns)@, mem@, header_addr, size),
{
    if size < HEADER_SIZE {
        return Ok(MACH_SEND_INVALID_DEST);
    }
    let message: Vec<u8> = match copy_out(mem, header_addr, size) {
        Ok(m) => m,
        Err(e) => {
            return Err(e);
        },
    };
    let name: u32 = bytes::read_le32(&message, 8);
    match ns.lookup(name) {
        Some(e) => match e.kind {
            RightKind::Send => {
                ns.enqueue(e.port, message);
                return Ok(MACH_MSG_SUCCESS);
            },
            RightKind::SendOnce => {
                ns.enqueue(e.port, message);
                ns.deallocate(name);
                return Ok(MACH_MSG_SUCCESS);
            },
            RightKind::Receive => {},
        },
        None => {},
    }
    if name == 0 {
        Ok(MACH_MSG_SUCCESS)
    } else {
        Ok(MACH_SEND_INVALID_DEST)
    }
}

/// Receives from the port with a name and writes the message at `rcv_addr`.
pub fn recv(
    ns: &mut PortNamespace,
    mem: &mut PhysMem,
    local_port: u32,
    rcv_addr: u64,
    rcv_size: u32,
) -> (r: Result<u32, Stop>)
    requires
        old(ns)@.wf(),
    ensures
        final(ns)@.wf(),
        (final(ns)@, final(mem)@, r) == recv_outcome(
            old(ns)@,
            old(mem)@,
            local_port,
            rcv_addr,
            rcv_size,
        ),
{
    let port: usize = match ns.lookup(local_port) {
        Some(e) => match e.kind {
            RightKind::Receive => e.port,
            _ => {
                return Ok(MACH_RCV_TIMED_OUT);
            },
        },
        None => {
            return Ok(MACH_RCV_TIMED_OUT);
        },
    };
    match ns.first_len(port) {
        None => {
            return Ok(MACH_RCV_TIMED_OUT);
        },
        Some(n) => {
            if n as u64 > rcv_size as u64 {
                return Ok(MACH_RCV_TOO_LARGE);
            }
        },
    }
    let message: Vec<u8> = ns.dequeue(port);
    match mem.store(rcv_addr, &message) {
        Ok(()) => Ok(MACH_MSG_SUCCESS),
        Err(e) => Err(e),
    }
}

/// A message that is sent to a port without messages is the one that is received
/// from it, and then the port is without messages again.
pub proof fn law_received_is_sent(
    n: Namespace,
    message: Seq<u8>,
    receiver: u32,
    limit: u32,
)
    requires
        n.wf(),
        message.len() >= HEADER_SIZE,
        message.len() <= limit,
        n.get(remote_port(message)) matches Some(s) && can_send(s) && (n.get(
            receiver,
        ) matches Some(t) && t.kind == RightKind::Receive && t.port == s.port
            && n.ports[s.port as int].len() == 0),
    ensures
        sent(n, message).1 == MACH_MSG_SUCCESS,
        received(sent(n, message).0, receiver, limit) matches Received::Message(after, m) && m
            == message && after.ports == n.ports,
{
    let s = n.get(remote_port(message))->0;
    let port = s.port as int;
    assert(n.ports[port].push(message).drop_first() =~= n.ports[port]);
    let (mid, _) = sent(n, message);
    assert(mid.ports[port] =~= n.ports[port].push(message));
    assert(mid.ports.update(port, n.ports[port]) =~= n.ports);
}

/// Messages come out of a port in the order in which they went in: the oldest
/// stays the first, whatever is sent after it.
pub proof fn law_messages_stay_in_order(n: Namespace, message: Seq<u8>, port: int)
    requires
        n.wf(),
        0 <= port < n.ports.len(),
        n.ports[port].len() > 0,
    ensures
        sent(n, message).0.ports[port].len() > 0,
        sent(n, message).0.ports[port][0] == n.ports[port][0],
        n.ports[port].is_prefix_of(sent(n, message).0.ports[port]),
{
    let name = remote_port(message);
    match n.get(name) {
        Some(e) if can_send(e) => {
            assert(n.ports[port] =~= n.ports[port].push(message).take(n.ports[port].len() as int));
        },
        _ => {},
    }
}

/// A right to send once is gone after the first use.
pub proof fn law_send_once(n: Namespace, message: Seq<u8>)
    requires
        n.get(remote_port(message)) matches Some(e) && e.kind == RightKind::SendOnce,
    ensures
        sent(n, message).1 == MACH_MSG_SUCCESS,
        sent(n, message).0.get(remote_port(message)) is None,
{
}

} // verus!
