//! What sending and receiving by a trap does to memory, ports and names.

use crate::bytes;
use crate::kernel::arch::machine::MachineView;
use crate::kernel::arch::syscall::call_laws;
use crate::kernel::ipc::mach_port;
use crate::kernel::ipc::mach_port::{NameEntry, Namespace};
use crate::kernel::ipc::rights::RightKind;
use crate::kernel::syscall::context::SystemView;
use crate::kernel::syscall::mach;
use crate::mem;
use crate::mem::{Memory, Stop};
use vstd::prelude::*;

verus! {

/// Whether a trap number is one of those that pass messages.
pub open spec fn passes_messages(nr: u64) -> bool {
    nr == 0xffff_ffff_ffff_ffe1 || nr == 0xffff_ffff_ffff_ffe0
}

/// Whether the call asks for sending.
pub open spec fn asks_send(args: Seq<u64>) -> bool {
    (args[1] as u32) & 1u32 != 0
}

/// Whether the call asks for receiving.
pub open spec fn asks_receive(args: Seq<u64>) -> bool {
    (args[1] as u32) & 2u32 != 0
}

/// The message that the call points to.
pub open spec fn outgoing(s: SystemView, args: Seq<u64>) -> Seq<u8> {
    s.m.mem.slice(args[0] as int, (args[2] as u32) as int)
}

/// The name in the third word of a message: the port that it is for.
pub open spec fn destination(message: Seq<u8>) -> u32 {
    bytes::le32(message, 8) as u32
}

/// Whether a name stands for a right of a kind.
pub open spec fn has_right(entries: Map<u32, NameEntry>, name: u32, kind: RightKind) -> bool {
    entries.contains_key(name) && entries[name].kind == kind
}

/// Whether the message that the call points to can be sent: it has a header, lies
/// in memory, and its destination is a right to send.
pub open spec fn sendable(s: SystemView, args: Seq<u64>) -> bool {
    let to = destination(outgoing(s, args));
    &&& args[2] as u32 >= 24
    &&& s.m.mem.covers(args[0] as int, (args[2] as u32) as int)
    &&& has_right(s.n.entries, to, RightKind::Send) || has_right(
        s.n.entries,
        to,
        RightKind::SendOnce,
    )
}

/// Whether `after` is `before` with the message that the call points to behind
/// those in the port that it is for, and nothing else changed; a right to send
/// once is gone.
pub open spec fn is_delivered(
    s: SystemView,
    args: Seq<u64>,
    before: Namespace,
    after: Namespace,
) -> bool {
    let message = outgoing(s, args);
    let to = destination(message);
    let port = before.entries[to].port as int;
    &&& after.ports.len() == before.ports.len()
    &&& after.ports[port].len() == before.ports[port].len() + 1
    &&& after.ports[port].last() == message
    &&& after.ports[port].drop_last() == before.ports[port]
    &&& forall|k: int|
        0 <= k < before.ports.len() && k != port ==> #[trigger] after.ports[k] == before.ports[k]
    &&& after.next_name == before.next_name
    &&& forall|name: u32| name != to ==> #[trigger] after.get(name) == before.get(name)
    &&& after.get(to) == if before.entries[to].kind == RightKind::SendOnce {
        None
    } else {
        before.get(to)
    }
}

/// Whether receiving from the name in the fifth argument took `before` to
/// `after`, memory along with it, and ended with `code`.
///
/// The oldest message of the port leaves it and stands in memory, if the name is
/// the right to receive, there is a message, and it is no longer than the fourth
/// argument says. Otherwise nothing changes.
pub open spec fn is_received(
    args: Seq<u64>,
    before: Namespace,
    before_mem: Memory,
    after: Namespace,
    after_mem: Memory,
    code: Result<u64, Stop>,
) -> bool {
    let name = args[4] as u32;
    let limit = args[3] as u32;
    let addr = args[0];
    let port = before.entries[name].port as int;
    let right = has_right(before.entries, name, RightKind::Receive);
    let some = right && before.ports[port].len() > 0;
    let first = before.ports[port][0];
    &&& !some ==> {
        &&& code == Ok::<u64, Stop>(0x1000_4003)
        &&& after == before
        &&& after_mem == before_mem
    }
    &&& some && first.len() > limit ==> {
        &&& code == Ok::<u64, Stop>(0x1000_4004)
        &&& after == before
        &&& after_mem == before_mem
    }
    &&& some && first.len() <= limit ==> {
        &&& after.entries == before.entries
        &&& after.next_name == before.next_name
        &&& after.ports.len() == before.ports.len()
        &&& before.ports[port] == seq![first] + after.ports[port]
        &&& forall|k: int|
            0 <= k < before.ports.len() && k != port ==> #[trigger] after.ports[k]
                == before.ports[k]
        &&& before_mem.covers(addr as int, first.len() as int) ==> {
            &&& code == Ok::<u64, Stop>(0)
            &&& after_mem.slice(addr as int, first.len() as int) == first
            &&& mem::changed_at(before_mem, after_mem, addr as int, first)
        }
        &&& !before_mem.covers(addr as int, first.len() as int) ==> {
            &&& code == Err::<u64, Stop>(Stop::Fault(addr))
            &&& after_mem == before_mem
        }
    }
}

/// Whether two machines differ in their memory at most.
pub open spec fn only_memory(m: MachineView, n: MachineView) -> bool {
    n == MachineView { mem: n.mem, ..m }
}

/// The steps of a trap that both sends and receives: the namespace between them.
proof fn lemma_sent(s: SystemView, args: Seq<u64>)
    requires
        s.n.wf(),
        sendable(s, args),
    ensures
        ({
            let o = crate::kernel::ipc::mach_msg::send_outcome(
                s.n,
                s.m.mem,
                args[0],
                args[2] as u32,
            );
            &&& o.1 == Ok::<u32, Stop>(0)
            &&& is_delivered(s, args, s.n, o.0)
        }),
{
    let o = crate::kernel::ipc::mach_msg::send_outcome(s.n, s.m.mem, args[0], args[2] as u32);
    let message = outgoing(s, args);
    let to = destination(message);
    let port = s.n.entries[to].port as int;
    assert(o.0.ports[port] == s.n.ports[port].push(message));
    assert(o.0.ports[port].drop_last() =~= s.n.ports[port]);
}

proof fn lemma_received(s: SystemView, args: Seq<u64>, n: Namespace)
    requires
        n.wf(),
    ensures
        ({
            let o = crate::kernel::ipc::mach_msg::recv_outcome(
                n,
                s.m.mem,
                args[4] as u32,
                args[0],
                args[3] as u32,
            );
            is_received(
                args,
                n,
                s.m.mem,
                o.0,
                o.1,
                match o.2 {
                    Ok(c) => Ok(c as u64),
                    Err(e) => Err(e),
                },
            )
        }),
{
    let name = args[4] as u32;
    let limit = args[3] as u32;
    let addr = args[0];
    if has_right(n.entries, name, RightKind::Receive) {
        let port = n.entries[name].port as int;
        if n.ports[port].len() > 0 && n.ports[port][0].len() <= limit {
            let first = n.ports[port][0];
            assert(n.ports[port] =~= seq![first] + n.ports[port].drop_first());
            if s.m.mem.covers(addr as int, first.len() as int) {
                mem::law_written_bytes_are_read(s.m.mem, addr as int, first);
            }
        }
    }
}

proof fn lemma_sent_wf(s: SystemView, args: Seq<u64>, n: Namespace)
    requires
        s.n.wf(),
        is_delivered(s, args, s.n, n),
    ensures
        n.wf(),
{
    let to = destination(outgoing(s, args));
    assert forall|name: u32| #[trigger] n.entries.contains_key(name) implies n.entries[name].port
        < n.ports.len() by {
        assert(n.get(name) is Some);
        if name != to {
            assert(n.get(name) == s.n.get(name));
        }
        assert(s.n.entries.contains_key(name));
    }
}

/// A trap that asks for both sends first and then receives: what can be received
/// is what the ports hold once the message is delivered, the message itself if
/// it went to an empty port that the caller receives from.
pub proof fn law_send_and_receive(s: SystemView, nr: u64, args: Seq<u64>, ticks: u64)
    requires
        s.n.wf(),
        passes_messages(nr),
        asks_send(args),
        asks_receive(args),
        sendable(s, args),
    ensures
        ({
            let (after, code) = mach::trap(s, nr, args, ticks);
            &&& only_memory(s.m, after.m)
            &&& exists|mid: Namespace|
                is_delivered(s, args, s.n, mid) && #[trigger] is_received(
                    args,
                    mid,
                    s.m.mem,
                    after.n,
                    after.m.mem,
                    code,
                )
        }),
{
    lemma_sent(s, args);
    let mid = crate::kernel::ipc::mach_msg::send_outcome(
        s.n,
        s.m.mem,
        args[0],
        args[2] as u32,
    ).0;
    lemma_sent_wf(s, args, mid);
    lemma_received(s, args, mid);
    let (after, code) = mach::trap(s, nr, args, ticks);
    assert(is_received(args, mid, s.m.mem, after.n, after.m.mem, code));
}

/// A message that a trap sends to a port and receives from it in one go, past
/// those that were there: the oldest one is received, and the new one is the
/// last in the port, unless there was no other.
pub proof fn law_send_and_receive_from_same_port(
    s: SystemView,
    nr: u64,
    args: Seq<u64>,
    ticks: u64,
    first: Seq<u8>,
)
    requires
        s.n.wf(),
        passes_messages(nr),
        asks_send(args),
        asks_receive(args),
        sendable(s, args),
        has_right(s.n.entries, args[4] as u32, RightKind::Receive),
        s.n.entries[args[4] as u32].port == s.n.entries[destination(outgoing(s, args))].port,
        first == (s.n.ports[s.n.entries[args[4] as u32].port as int] + seq![
            outgoing(s, args),
        ])[0],
        first.len() <= args[3] as u32,
        s.m.mem.covers(args[0] as int, first.len() as int),
    ensures
        ({
            let (after, code) = mach::trap(s, nr, args, ticks);
            let port = s.n.entries[args[4] as u32].port as int;
            &&& code == Ok::<u64, Stop>(0)
            &&& after.m.mem.slice(args[0] as int, first.len() as int) == first
            &&& seq![first] + after.n.ports[port] == s.n.ports[port] + seq![outgoing(s, args)]
        }),
{
    law_send_and_receive(s, nr, args, ticks);
    let (after, code) = mach::trap(s, nr, args, ticks);
    let mid = choose|mid: Namespace|
        is_delivered(s, args, s.n, mid) && #[trigger] is_received(
            args,
            mid,
            s.m.mem,
            after.n,
            after.m.mem,
            code,
        );
    let name = args[4] as u32;
    let port = s.n.entries[name].port as int;
    let to = destination(outgoing(s, args));
    assert(s.n.entries[to].kind != RightKind::Receive);
    assert(mid.get(name) == s.n.get(name));
    assert(mid.ports[port] =~= s.n.ports[port] + seq![outgoing(s, args)]);
}

/// A trap that asks for sending alone.
pub proof fn law_send_only(s: SystemView, nr: u64, args: Seq<u64>, ticks: u64)
    requires
        s.n.wf(),
        passes_messages(nr),
        asks_send(args),
        !asks_receive(args),
        sendable(s, args),
    ensures
        ({
            let (after, code) = mach::trap(s, nr, args, ticks);
            &&& code == Ok::<u64, Stop>(0)
            &&& after.m == s.m
            &&& is_delivered(s, args, s.n, after.n)
        }),
{
    lemma_sent(s, args);
}

/// A trap that asks for receiving alone.
pub proof fn law_receive_only(s: SystemView, nr: u64, args: Seq<u64>, ticks: u64)
    requires
        s.n.wf(),
        passes_messages(nr),
        !asks_send(args),
        asks_receive(args),
    ensures
        ({
            let (after, code) = mach::trap(s, nr, args, ticks);
            &&& only_memory(s.m, after.m)
            &&& is_received(args, s.n, s.m.mem, after.n, after.m.mem, code)
        }),
{
    lemma_received(s, args, s.n);
}

/// A trap whose message cannot be sent changes nothing, and nothing is received:
/// it says so if the message has no header or its destination is no right to
/// send, and faults if the message does not lie in memory.
pub proof fn law_failed_send(s: SystemView, nr: u64, args: Seq<u64>, ticks: u64)
    requires
        passes_messages(nr),
        asks_send(args),
        !sendable(s, args),
        args[2] as u32 >= 24 && s.m.mem.covers(args[0] as int, (args[2] as u32) as int)
            ==> destination(outgoing(s, args)) != 0,
    ensures
        mach::trap(s, nr, args, ticks).0 == s,
        mach::trap(s, nr, args, ticks).1 == if args[2] as u32 >= 24 && !s.m.mem.covers(
            args[0] as int,
            (args[2] as u32) as int,
        ) {
            Err::<u64, Stop>(Stop::Fault(args[0]))
        } else {
            Ok::<u64, Stop>(0x1000_0003)
        },
{
}

/// A message for no port is dropped, and receiving goes on as if none had been
/// sent.
pub proof fn law_dropped_message(s: SystemView, nr: u64, args: Seq<u64>, ticks: u64)
    requires
        s.n.wf(),
        passes_messages(nr),
        asks_send(args),
        args[2] as u32 >= 24,
        s.m.mem.covers(args[0] as int, (args[2] as u32) as int),
        destination(outgoing(s, args)) == 0,
        !sendable(s, args),
    ensures
        ({
            let (after, code) = mach::trap(s, nr, args, ticks);
            &&& only_memory(s.m, after.m)
            &&& asks_receive(args) ==> is_received(
                args,
                s.n,
                s.m.mem,
                after.n,
                after.m.mem,
                code,
            )
            &&& !asks_receive(args) ==> after == s && code == Ok::<u64, Stop>(0)
        }),
{
    lemma_received(s, args, s.n);
}

/// Allocating a port gives its right to receive a name that stood for nothing,
/// and writes that name where the third argument says; the port is new and
/// empty, and no other name or port changes.
pub proof fn law_port_allocated(s: SystemView, args: Seq<u64>, ticks: u64, other: u32)
    requires
        s.n.has_room(),
        s.n.ports.len() < usize::MAX,
        args[2] != 0,
        s.m.mem.covers(args[2] as int, 4),
    ensures
        ({
            let (after, code) = mach::trap(s, 0xffff_ffff_ffff_fff0, args, ticks);
            let name = bytes::le32(after.m.mem.slice(args[2] as int, 4), 0) as u32;
            &&& code == Ok::<u64, Stop>(0)
            &&& only_memory(s.m, after.m)
            &&& name >= 5
            &&& s.n.get(name) is None
            &&& after.n.get(name) == Some(
                NameEntry { kind: RightKind::Receive, port: s.n.ports.len() as usize },
            )
            &&& other != name ==> after.n.get(other) == s.n.get(other)
            &&& after.n.ports.len() == s.n.ports.len() + 1
            &&& after.n.ports.last().len() == 0
            &&& after.n.ports.drop_last() == s.n.ports
            &&& forall|x: int|
                !(args[2] <= x < args[2] + 4) ==> #[trigger] after.m.mem.get8(x) == s.m.mem.get8(x)
        }),
{
    let fresh = s.n.opened().fresh_name();
    assert(s.n.opened().has_room()) by {
        let n = choose|n: u32| n >= 5 && !#[trigger] s.n.entries.contains_key(n);
        assert(!s.n.opened().entries.contains_key(n));
    }
    mach_port::law_named_right_is_found(
        s.n.opened(),
        s.n.ports.len() as usize,
        RightKind::Receive,
        other,
    );
    assert(fresh == s.n.fresh_name());
    bytes::lemma_le32_roundtrip(fresh);
    mem::law_written_bytes_are_read(s.m.mem, args[2] as int, bytes::le32_bytes(fresh));
    assert(s.n.opened().ports.drop_last() =~= s.n.ports);
}

/// A reply port is allocated in the same way, and its name is the result.
pub proof fn law_reply_port(s: SystemView, args: Seq<u64>, ticks: u64, other: u32)
    requires
        s.n.has_room(),
        s.n.ports.len() < usize::MAX,
    ensures
        ({
            let (after, code) = mach::trap(s, 0xffff_ffff_ffff_ffe6, args, ticks);
            &&& code is Ok
            &&& 5 <= code->Ok_0 <= u32::MAX
            &&& after.m == s.m
            &&& s.n.get(code->Ok_0 as u32) is None
            &&& after.n.get(code->Ok_0 as u32) == Some(
                NameEntry { kind: RightKind::Receive, port: s.n.ports.len() as usize },
            )
            &&& other != code->Ok_0 ==> after.n.get(other) == s.n.get(other)
            &&& after.n.ports.len() == s.n.ports.len() + 1
            &&& after.n.ports.last().len() == 0
            &&& after.n.ports.drop_last() == s.n.ports
        }),
{
    assert(s.n.opened().has_room()) by {
        let n = choose|n: u32| n >= 5 && !#[trigger] s.n.entries.contains_key(n);
        assert(!s.n.opened().entries.contains_key(n));
    }
    mach_port::law_named_right_is_found(
        s.n.opened(),
        s.n.ports.len() as usize,
        RightKind::Receive,
        other,
    );
    assert(s.n.opened().ports.drop_last() =~= s.n.ports);
}

/// One more right to send to the port that the second argument stands for gets a
/// name that stood for nothing, and that name is the result; without such a port
/// the result is 0 and nothing changes.
pub proof fn law_send_right_inserted(s: SystemView, args: Seq<u64>, ticks: u64, other: u32)
    requires
        s.n.has_room(),
    ensures
        ({
            let (after, code) = mach::trap(s, 0xffff_ffff_ffff_ffe9, args, ticks);
            let name = args[1] as u32;
            &&& code is Ok
            &&& after.m == s.m
            &&& after.n.ports == s.n.ports
            &&& s.n.get(name) is None ==> code->Ok_0 == 0 && after == s
            &&& s.n.get(name) is Some ==> {
                &&& 5 <= code->Ok_0 <= u32::MAX
                &&& s.n.get(code->Ok_0 as u32) is None
                &&& after.n.get(code->Ok_0 as u32) == Some(
                    NameEntry { kind: RightKind::Send, port: s.n.entries[name].port },
                )
                &&& other != code->Ok_0 ==> after.n.get(other) == s.n.get(other)
            }
        }),
{
    let name = args[1] as u32;
    if s.n.get(name) is Some {
        mach_port::law_named_right_is_found(s.n, s.n.entries[name].port, RightKind::Send, other);
    }
}

/// A name that the second argument gives up stands for nothing, and no other name
/// or port changes.
pub proof fn law_name_given_up(s: SystemView, args: Seq<u64>, ticks: u64, other: u32)
    ensures
        ({
            let (after, code) = mach::trap(s, 0xffff_ffff_ffff_ffee, args, ticks);
            let name = args[1] as u32;
            &&& code == Ok::<u64, Stop>(0)
            &&& after.m == s.m
            &&& after.n.ports == s.n.ports
            &&& after.n.get(name) is None
            &&& other != name ==> after.n.get(other) == s.n.get(other)
        }),
{
}

/// Allocating memory by a trap takes the next whole pages, zeroes them and writes
/// their address where the second argument says; without room it says so. Ports
/// and names stay as they are.
pub proof fn law_memory_allocated(s: SystemView, nr: u64, args: Seq<u64>, ticks: u64, size: int)
    requires
        nr == 0xffff_ffff_ffff_fff6 || nr == 0xffff_ffff_ffff_fff1,
        args[2] <= 0x8000_0000,
        call_laws::next_free(s.m) <= 0xbf00_0000,
        call_laws::is_page_up(args[2] as int, size),
        args[1] != 0,
        s.m.mem.covers(args[1] as int, 8),
        args[1] + 8 <= call_laws::next_free(s.m) || call_laws::next_free(s.m) + size <= args[1],
        call_laws::next_free(s.m) + size <= 0xbf00_0000 ==> s.m.mem.covers(
            call_laws::next_free(s.m),
            size,
        ),
    ensures
        ({
            let (after, code) = mach::trap(s, nr, args, ticks);
            let start = call_laws::next_free(s.m);
            &&& after.n == s.n
            &&& start + size > 0xbf00_0000 ==> code == Ok::<u64, Stop>(3) && after.m.mem == s.m.mem
                && after.m.mmap_base == s.m.mmap_base
            &&& start + size <= 0xbf00_0000 ==> {
                &&& code == Ok::<u64, Stop>(0)
                &&& after.m.mmap_base == start + size
                &&& after.m.mem.get64(args[1] as int) == Some(start)
                &&& forall|x: int|
                    !(args[1] <= x < args[1] + 8) ==> #[trigger] after.m.mem.get8(x) == if start
                        <= x < start + size {
                        Some(0int)
                    } else {
                        s.m.mem.get8(x)
                    }
            }
        }),
{
    call_laws::law_page_up(args[2] as int);
    assert(size == crate::align::page_up(args[2] as int));
    call_laws::lemma_vm_taken(s.m, args[1], args[2], size, "xnu-rs: vm_allocate size=0x"@);
    call_laws::lemma_vm_taken(s.m, args[1], args[2], size, "xnu-rs: vm_map size=0x"@);
}

/// The time is the counter, and one tick of it is one nanosecond.
pub proof fn law_time(s: SystemView, args: Seq<u64>, ticks: u64)
    requires
        args[0] != 0,
        s.m.mem.covers(args[0] as int, 8),
    ensures
        mach::trap(s, 0xffff_ffff_ffff_fffd, args, ticks) == (s, Ok::<u64, Stop>(ticks)),
        ({
            let (after, code) = mach::trap(s, 0xffff_ffff_ffff_fffc, args, ticks);
            &&& code == Ok::<u64, Stop>(0)
            &&& after.n == s.n
            &&& only_memory(s.m, after.m)
            &&& mem::changed_at(
                s.m.mem,
                after.m.mem,
                args[0] as int,
                seq![1u8, 0, 0, 0, 1, 0, 0, 0],
            )
        }),
{
    let t = crate::kernel::arch::syscall::mach::timebase();
    assert(t =~= seq![1u8, 0, 0, 0, 1, 0, 0, 0]);
    mem::law_written_bytes_are_read(s.m.mem, args[0] as int, t);
}

} // verus!
