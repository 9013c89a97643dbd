//! Ports and the names that a task has for them.

use crate::kernel::ipc::rights::RightKind;
use std::collections::{BTreeMap, VecDeque};
use vstd::prelude::*;

verus! {

/// The names that are kept for ports of the kernel end before this one.
pub const FIRST_NAME: u32 = 5;

/// How many names there are from the first on.
pub const NAME_COUNT: u32 = 0xffff_fffb;

/// A port: messages in the order in which they came.
pub struct Port {
    messages: VecDeque<Vec<u8>>,
}

/// The messages of a port.
pub open spec fn messages_of(v: Seq<Vec<u8>>) -> Seq<Seq<u8>> {
    Seq::new(v.len(), |i: int| v[i]@)
}

impl View for Port {
    type V = Seq<Seq<u8>>;

    closed spec fn view(&self) -> Seq<Seq<u8>> {
        messages_of(self.messages@)
    }
}

impl Port {
    /// A port without messages.
    pub fn new() -> (r: Self)
        ensures
            r@ == Seq::<Seq<u8>>::empty(),
    {
        let r = Port { messages: VecDeque::new() };
        assert(r@ =~= Seq::<Seq<u8>>::empty());
        r
    }

    /// Adds a message behind the others.
    pub fn push(&mut self, message: Vec<u8>)
        ensures
            final(self)@ == old(self)@.push(message@),
    {
        self.messages.push_back(message);
        assert(self@ =~= old(self)@.push(message@));
    }

    /// How long the first message is.
    pub fn first_len(&self) -> (r: Option<usize>)
        ensures
            match r {
                Some(n) => self@.len() > 0 && n == self@[0].len(),
                None => self@.len() == 0,
            },
    {
        if self.messages.len() == 0 {
            None
        } else {
            Some(self.messages[0].len())
        }
    }

    /// Takes the first message.
    pub fn pop(&mut self) -> (r: Option<Vec<u8>>)
        ensures
            match r {
                Some(m) => {
                    &&& old(self)@.len() > 0
                    &&& m@ == old(self)@[0]
                    &&& final(self)@ == old(self)@.drop_first()
                },
                None => old(self)@.len() == 0 && final(self)@ == old(self)@,
            },
    {
        let r = self.messages.pop_front();
        if r.is_some() {
            assert(self@ =~= old(self)@.drop_first());
        }
        r
    }
}

/// What a task has a name for.
#[derive(Clone, Copy, PartialEq, Eq, Debug, Structural)]
pub struct NameEntry {
    /// The right.
    pub kind: RightKind,
    /// The number of the port.
    pub port: usize,
}

/// The ports, and the names that a task has for rights on them.
pub struct PortNamespace {
    entries: BTreeMap<u32, NameEntry>,
    next_name: u32,
    ports: Vec<Port>,
}

/// What a `PortNamespace` holds.
#[verifier::ext_equal]
pub struct Namespace {
    /// The rights, by name.
    pub entries: Map<u32, NameEntry>,
    /// The name at which the search for a free one starts.
    pub next_name: u32,
    /// The messages in each port.
    pub ports: Seq<Seq<Seq<u8>>>,
}

/// The messages in each of some ports.
pub open spec fn queues(v: Seq<Port>) -> Seq<Seq<Seq<u8>>> {
    Seq::new(v.len(), |i: int| v[i]@)
}

impl View for PortNamespace {
    type V = Namespace;

    closed spec fn view(&self) -> Namespace {
        Namespace {
            entries: self.entries@,
            next_name: self.next_name,
            ports: queues(self.ports@),
        }
    }
}

/// The name after `name`: names below the first are passed over.
pub open spec fn name_after(name: u32) -> u32 {
    if name == u32::MAX || name + 1 < FIRST_NAME {
        FIRST_NAME
    } else {
        (name + 1) as u32
    }
}

/// The first of `left` names from `name` on that stands for nothing; the one
/// behind them if all of them are taken.
pub open spec fn free_from(entries: Map<u32, NameEntry>, name: u32, left: nat) -> u32
    decreases left,
{
    if left == 0 || !entries.contains_key(name) {
        name
    } else {
        free_from(entries, name_after(name), (left - 1) as nat)
    }
}

impl Namespace {
    /// Whether some name that may be given out stands for nothing.
    pub open spec fn has_room(self) -> bool {
        exists|n: u32| n >= FIRST_NAME && !#[trigger] self.entries.contains_key(n)
    }

    /// The name that the next right gets: the first free one from the next name
    /// on, around the end. With every name taken it is the next name, and the
    /// right that had it is lost.
    pub open spec fn fresh_name(self) -> u32 {
        let start = if self.next_name < FIRST_NAME {
            FIRST_NAME
        } else {
            self.next_name
        };
        free_from(self.entries, start, NAME_COUNT as nat)
    }

    /// Whether every right is one on a port that there is.
    pub open spec fn wf(self) -> bool {
        forall|n: u32| #[trigger]
            self.entries.contains_key(n) ==> self.entries[n].port < self.ports.len()
    }

    /// With a right under a given name.
    pub open spec fn at(self, name: u32, port: usize, kind: RightKind) -> Namespace {
        Namespace {
            entries: self.entries.insert(name, NameEntry { kind, port }),
            ..self
        }
    }

    /// With a right under a fresh name.
    pub open spec fn named(self, port: usize, kind: RightKind) -> Namespace {
        Namespace {
            next_name: name_after(self.fresh_name()),
            ..self.at(self.fresh_name(), port, kind)
        }
    }

    /// With one more port.
    pub open spec fn opened(self) -> Namespace {
        Namespace { ports: self.ports.push(Seq::empty()), ..self }
    }

    /// Without a name.
    pub open spec fn without(self, name: u32) -> Namespace {
        Namespace { entries: self.entries.remove(name), ..self }
    }

    /// With other messages in a port.
    pub open spec fn with_queue(self, port: int, queue: Seq<Seq<u8>>) -> Namespace {
        Namespace { ports: self.ports.update(port, queue), ..self }
    }

    /// What a name stands for.
    pub open spec fn get(self, name: u32) -> Option<NameEntry> {
        if self.entries.contains_key(name) {
            Some(self.entries[name])
        } else {
            None
        }
    }

    /// Whether a name stands for the right to receive from a port.
    pub open spec fn receives(self, name: u32, port: int) -> bool {
        &&& self.entries.contains_key(name)
        &&& self.entries[name].kind == RightKind::Receive
        &&& self.entries[name].port == port
    }

    /// Whether no port has two names that stand for the right to receive.
    pub open spec fn one_receiver(self) -> bool {
        forall|a: u32, b: u32, port: int|
            #![trigger self.receives(a, port), self.receives(b, port)]
            self.receives(a, port) && self.receives(b, port) ==> a == b
    }
}

/// The name after `name`.
fn following(name: u32) -> (r: u32)
    ensures
        r == name_after(name),
{
    if name == u32::MAX || name + 1 < FIRST_NAME {
        FIRST_NAME
    } else {
        name + 1
    }
}

/// The name `k` steps after `name`.
spec fn name_at(name: u32, k: int) -> int {
    FIRST_NAME + (name - FIRST_NAME + k) % (NAME_COUNT as int)
}

/// The search passes every name: what it gives is free if any name among those
/// that it passes is.
proof fn lemma_free_from(entries: Map<u32, NameEntry>, name: u32, left: nat, k: int)
    requires
        name >= FIRST_NAME,
    ensures
        free_from(entries, name, left) >= FIRST_NAME,
        0 <= k < left && !entries.contains_key(name_at(name, k) as u32) ==> !entries.contains_key(
            free_from(entries, name, left),
        ),
    decreases left,
{
    assert(name_at(name, 0) == name);
    if left > 0 && entries.contains_key(name) {
        lemma_free_from(entries, name_after(name), (left - 1) as nat, k - 1);
        if k > 0 {
            let x = name - FIRST_NAME;
            if name == u32::MAX {
                assert((x + k) % (NAME_COUNT as int) == (k - 1) % (NAME_COUNT as int)) by {
                    vstd::arithmetic::div_mod::lemma_mod_add_multiples_vanish(
                        k - 1,
                        NAME_COUNT as int,
                    );
                }
            }
            assert(name_at(name_after(name), k - 1) == name_at(name, k));
        }
    }
}

/// What `fresh_name` is, said without the search.
proof fn lemma_fresh_name(n: Namespace)
    ensures
        n.fresh_name() >= FIRST_NAME,
        n.has_room() ==> !n.entries.contains_key(n.fresh_name()),
{
    let start = if n.next_name < FIRST_NAME {
        FIRST_NAME
    } else {
        n.next_name
    };
    lemma_free_from(n.entries, start, NAME_COUNT as nat, 0);
    if n.has_room() {
        let free = choose|f: u32| f >= FIRST_NAME && !#[trigger] n.entries.contains_key(f);
        let k = if free >= start {
            free - start
        } else {
            free - start + NAME_COUNT
        };
        if free < start {
            vstd::arithmetic::div_mod::lemma_mod_add_multiples_vanish(
                free - FIRST_NAME,
                NAME_COUNT as int,
            );
        }
        assert(name_at(start, k) == free);
        lemma_free_from(n.entries, start, NAME_COUNT as nat, k);
    }
}

/// Fewer rights than names leave a name free.
pub proof fn lemma_room(n: Namespace)
    requires
        n.entries.dom().finite(),
        n.entries.len() < NAME_COUNT,
    ensures
        n.has_room(),
{
    if !n.has_room() {
        let all = <u32 as vstd::set_lib::FiniteRange>::range_set(FIRST_NAME, u32::MAX);
        vstd::set_lib::range_set_properties::<u32>(FIRST_NAME, u32::MAX);
        let every = all.insert(u32::MAX);
        assert forall|x: u32| every.contains(x) implies n.entries.dom().contains(x) by {
            assert(n.entries.contains_key(x));
        }
        vstd::set_lib::lemma_len_subset(every, n.entries.dom());
    }
}

impl PortNamespace {
    /// A namespace without names.
    pub fn new() -> (r: Self)
        ensures
            r@ == (Namespace {
                entries: Map::empty(),
                next_name: FIRST_NAME,
                ports: Seq::empty(),
            }),
    {
        let r = PortNamespace {
            entries: BTreeMap::new(),
            next_name: FIRST_NAME,
            ports: Vec::new(),
        };
        assert(r@.ports =~= Seq::empty());
        r
    }

    /// Opens a port: its number.
    pub fn open_port(&mut self) -> (r: usize)
        ensures
            final(self)@ == old(self)@.opened(),
            r == old(self)@.ports.len(),
    {
        let id: usize = self.ports.len();
        self.ports.push(Port::new());
        assert(self@.ports =~= old(self)@.ports.push(Seq::empty()));
        id
    }

    /// Gives a right on a port a fresh name.
    pub fn insert(&mut self, port: usize, kind: RightKind) -> (r: u32)
        ensures
            r == old(self)@.fresh_name(),
            r >= FIRST_NAME,
            old(self)@.entries.len() < NAME_COUNT ==> old(self)@.has_room(),
            old(self)@.has_room() ==> !old(self)@.entries.contains_key(r),
            final(self)@ == old(self)@.named(port, kind),
    {
        proof {
            lemma_fresh_name(self@);
            self.lemma_room();
        }
        let mut name: u32 = if self.next_name < FIRST_NAME {
            FIRST_NAME
        } else {
            self.next_name
        };
        let mut left: u32 = NAME_COUNT;
        while left > 0 && self.lookup(name).is_some()
            invariant
                self@ == old(self)@,
                left <= NAME_COUNT,
                free_from(self@.entries, name, left as nat) == self@.fresh_name(),
            decreases left,
        {
            name = following(name);
            left -= 1;
        }
        self.insert_at(name, port, kind);
        self.next_name = following(name);
        name
    }

    /// A namespace with fewer rights than names has a free name.
    proof fn lemma_room(self)
        ensures
            self@.entries.len() < NAME_COUNT ==> self@.has_room(),
    {
        broadcast use vstd::std_specs::btree::group_btree_axioms;

        assert(self.entries@.dom().finite());
        if self@.entries.len() < NAME_COUNT {
            lemma_room(self@);
        }
    }

    /// Gives a right on a port a given name.
    pub fn insert_at(&mut self, name: u32, port: usize, kind: RightKind)
        ensures
            final(self)@ == old(self)@.at(name, port, kind),
    {
        broadcast use vstd::laws_cmp::group_laws_cmp;

        self.entries.insert(name, NameEntry { kind, port });
    }

    /// What a name stands for.
    pub fn lookup(&self, name: u32) -> (r: Option<NameEntry>)
        ensures
            r == self@.get(name),
    {
        broadcast use vstd::laws_cmp::group_laws_cmp;
        broadcast use vstd::std_specs::btree::group_btree_axioms;

        match self.entries.get(&name) {
            Some(e) => Some(*e),
            None => None,
        }
    }

    /// Gives a name up. True if it stood for something.
    pub fn deallocate(&mut self, name: u32) -> (r: bool)
        ensures
            r == old(self)@.entries.contains_key(name),
            final(self)@ == old(self)@.without(name),
    {
        broadcast use vstd::laws_cmp::group_laws_cmp;
        broadcast use vstd::std_specs::btree::group_btree_axioms;

        let gone = self.entries.remove(&name);
        assert(self@.entries =~= old(self)@.entries.remove(name));
        gone.is_some()
    }

    /// Opens a port and gives the rights to receive and to send a fresh name
    /// each.
    pub fn new_port_pair(&mut self) -> (r: (u32, u32))
        ensures
            r.0 == old(self)@.fresh_name(),
            r.1 == old(self)@.named(
                old(self)@.ports.len() as usize,
                RightKind::Receive,
            ).fresh_name(),
            final(self)@ == ({
                let port = old(self)@.ports.len() as usize;
                old(self)@.opened().named(port, RightKind::Receive).named(port, RightKind::Send)
            }),
    {
        let port: usize = self.open_port();
        let recv_name: u32 = self.insert(port, RightKind::Receive);
        let send_name: u32 = self.insert(port, RightKind::Send);
        (recv_name, send_name)
    }

    /// Adds a message to a port.
    pub fn enqueue(&mut self, port: usize, message: Vec<u8>)
        requires
            port < old(self)@.ports.len(),
        ensures
            final(self)@ == old(self)@.with_queue(
                port as int,
                old(self)@.ports[port as int].push(message@),
            ),
    {
        let p = &mut self.ports[port];
        p.push(message);
        assert(self@.ports =~= old(self)@.ports.update(
            port as int,
            old(self)@.ports[port as int].push(message@),
        ));
    }

    /// How long the first message in a port is.
    pub fn first_len(&self, port: usize) -> (r: Option<usize>)
        requires
            port < self@.ports.len(),
        ensures
            match r {
                Some(n) => self@.ports[port as int].len() > 0 && n
                    == self@.ports[port as int][0].len(),
                None => self@.ports[port as int].len() == 0,
            },
    {
        self.ports[port].first_len()
    }

    /// Takes the first message out of a port.
    pub fn dequeue(&mut self, port: usize) -> (r: Vec<u8>)
        requires
            port < old(self)@.ports.len(),
            old(self)@.ports[port as int].len() > 0,
        ensures
            r@ == old(self)@.ports[port as int][0],
            final(self)@ == old(self)@.with_queue(
                port as int,
                old(self)@.ports[port as int].drop_first(),
            ),
    {
        let p = &mut self.ports[port];
        let r = match p.pop() {
            Some(m) => m,
            None => Vec::new(),
        };
        assert(self@.ports =~= old(self)@.ports.update(
            port as int,
            old(self)@.ports[port as int].drop_first(),
        ));
        r
    }
}

/// The name that a right is given stood for nothing (as long as one did), can be
/// looked up, is not one of those that are kept for the kernel, and all other
/// names stand for what they stood for.
pub proof fn law_named_right_is_found(n: Namespace, port: usize, kind: RightKind, other: u32)
    ensures
        n.has_room() ==> n.get(n.fresh_name()) is None,
        n.entries.dom().finite() && n.entries.len() < NAME_COUNT ==> n.has_room(),
        n.named(port, kind).get(n.fresh_name()) == Some(NameEntry { kind, port }),
        n.fresh_name() >= FIRST_NAME,
        n.named(port, kind).next_name >= FIRST_NAME,
        n.named(port, kind).next_name != n.fresh_name(),
        other != n.fresh_name() ==> n.named(port, kind).get(other) == n.get(other),
{
    lemma_fresh_name(n);
    if n.entries.dom().finite() && n.entries.len() < NAME_COUNT {
        lemma_room(n);
    }
}

/// Two rights that are named one after the other get different names.
pub proof fn law_names_differ(
    n: Namespace,
    port1: usize,
    kind1: RightKind,
    port2: usize,
    kind2: RightKind,
)
    requires
        n.named(port1, kind1).has_room(),
    ensures
        n.named(port1, kind1).fresh_name() != n.fresh_name(),
        n.named(port1, kind1).named(port2, kind2).get(n.fresh_name()) == Some(
            NameEntry { kind: kind1, port: port1 },
        ),
{
    lemma_fresh_name(n.named(port1, kind1));
}

/// A name that is given up stands for nothing, and all others stand for what
/// they stood for.
pub proof fn law_deallocated_name_is_gone(n: Namespace, name: u32, other: u32)
    ensures
        n.without(name).get(name) is None,
        other != name ==> n.without(name).get(other) == n.get(other),
{
}

/// A right to receive on a new port, a right to send, and giving up a name all
/// leave each port with at most one right to receive.
pub proof fn law_one_receiver(n: Namespace, port: usize, kind: RightKind, name: u32)
    requires
        n.wf(),
        n.one_receiver(),
        kind != RightKind::Receive,
        n.ports.len() <= usize::MAX,
    ensures
        n.opened().named(n.ports.len() as usize, RightKind::Receive).one_receiver(),
        n.named(port, kind).one_receiver(),
        n.without(name).one_receiver(),
{
    let fresh = n.ports.len() as usize;
    let a1 = n.opened().named(fresh, RightKind::Receive);
    assert(n.opened().fresh_name() == n.fresh_name());
    assert forall|a: u32, b: u32, p: int|
        #![trigger a1.receives(a, p), a1.receives(b, p)]
        a1.receives(a, p) && a1.receives(b, p) implies a == b by {
        if a != n.fresh_name() {
            assert(n.entries.contains_key(a));
            assert(n.receives(a, p));
        }
        if b != n.fresh_name() {
            assert(n.entries.contains_key(b));
            assert(n.receives(b, p));
        }
    }
    let a2 = n.named(port, kind);
    assert forall|a: u32, b: u32, p: int|
        #![trigger a2.receives(a, p), a2.receives(b, p)]
        a2.receives(a, p) && a2.receives(b, p) implies a == b by {
        assert(n.receives(a, p) && n.receives(b, p));
    }
    let a3 = n.without(name);
    assert forall|a: u32, b: u32, p: int|
        #![trigger a3.receives(a, p), a3.receives(b, p)]
        a3.receives(a, p) && a3.receives(b, p) implies a == b by {
        assert(n.receives(a, p) && n.receives(b, p));
    }
}

} // verus!
