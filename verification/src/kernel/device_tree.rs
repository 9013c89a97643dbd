//! Reading the device tree that the boot loader hands over.

use crate::boot::adt;
use crate::boot::device_tree;
use crate::boot::device_tree::Tree;
use crate::bytes;
use crate::kernel::arch::uart;
use crate::kernel::arch::uart::Console;
use crate::text;
use vstd::prelude::*;
use vstd::utf8::*;

verus! {

/// Bytes of the name field of a property.
pub const PROPERTY_NAME_LEN: usize = 32;

/// What a property in the tree says, and where it ends.
#[verifier::ext_equal]
pub struct PropertyView {
    pub name: Seq<char>,
    pub value: Seq<u8>,
    pub end: int,
}

/// The little-endian number at `off`, if it lies inside.
pub open spec fn word(b: Seq<u8>, off: int) -> Option<int> {
    if 0 <= off && off + 4 <= b.len() {
        Some(bytes::le32(b, off))
    } else {
        None
    }
}

/// The property at `off`: its name is text, and its value and the padding lie
/// inside.
pub open spec fn property_at(b: Seq<u8>, off: int) -> Option<PropertyView> {
    match word(b, off + 32) {
        None => None,
        Some(len) => {
            let name = bytes::until_nul(b.subrange(off, off + 32));
            let stop = off + 36 + len;
            let end = (stop + 3) / 4 * 4;
            if 0 <= off && valid_utf8(name) && stop <= b.len() && stop + 3 <= usize::MAX && end
                <= b.len() {
                Some(
                    PropertyView { name: decode_utf8(name), value: b.subrange(off + 36, stop), end },
                )
            } else {
                None
            }
        },
    }
}

/// Where `n` properties from `off` on end.
pub open spec fn properties_from(b: Seq<u8>, off: int, n: int) -> Option<int>
    decreases n,
{
    if n <= 0 {
        Some(off)
    } else {
        match property_at(b, off) {
            None => None,
            Some(p) => properties_from(b, p.end, n - 1),
        }
    }
}

/// Where the properties of the node at the start of `b` end.
pub open spec fn properties_stop(b: Seq<u8>) -> Option<int> {
    match word(b, 0) {
        None => None,
        Some(n) => properties_from(b, 8, n),
    }
}

/// Where `n` nodes from `off` on end.
pub open spec fn nodes_from(b: Seq<u8>, off: int, n: int) -> Option<int>
    decreases b.len(), 0int, n,
{
    if n <= 0 {
        Some(off)
    } else if off < 8 || off > b.len() {
        None
    } else {
        match node_len(b.skip(off)) {
            None => None,
            Some(l) => nodes_from(b, off + l, n - 1),
        }
    }
}

/// How long the node at the start of `b` is, with all that is below it.
pub open spec fn node_len(b: Seq<u8>) -> Option<int>
    decreases b.len(), 1int, 0int,
{
    match (properties_stop(b), word(b, 4)) {
        (Some(off), Some(n)) => nodes_from(b, off, n),
        _ => None,
    }
}

/// Where child `i` of the node at the start of `b` starts.
pub open spec fn child_offset(b: Seq<u8>, i: int) -> Option<int> {
    match (properties_stop(b), word(b, 4)) {
        (Some(off), Some(n)) => if 0 <= i < n {
            match nodes_from(b, off, i) {
                None => None,
                Some(at) => if 8 <= at <= b.len() && node_len(b.skip(at)) is Some {
                    Some(at)
                } else {
                    None
                },
            }
        } else {
            None
        },
        _ => None,
    }
}

proof fn lemma_properties_bound(b: Seq<u8>, off: int, n: int)
    requires
        8 <= off,
    ensures
        properties_from(b, off, n) matches Some(e) ==> 8 <= e && off <= e && (n > 0 ==> e
            <= b.len()),
    decreases n,
{
    if n > 0 {
        if let Some(p) = property_at(b, off) {
            lemma_properties_bound(b, p.end, n - 1);
        }
    }
}

proof fn lemma_nodes_bound(b: Seq<u8>, off: int, n: int)
    requires
        8 <= off <= b.len(),
    ensures
        nodes_from(b, off, n) matches Some(e) ==> off <= e <= b.len(),
    decreases b.len(), 0int, n,
{
    if n > 0 {
        lemma_node_bound(b.skip(off));
        if let Some(l) = node_len(b.skip(off)) {
            lemma_nodes_bound(b, off + l, n - 1);
        }
    }
}

/// A node lies inside the bytes that it is read from.
proof fn lemma_node_bound(b: Seq<u8>)
    ensures
        node_len(b) matches Some(l) ==> 8 <= l <= b.len(),
    decreases b.len(), 1int, 0int,
{
    if let (Some(off), Some(n)) = (properties_stop(b), word(b, 4)) {
        lemma_properties_bound(b, 8, word(b, 0)->0);
        lemma_nodes_bound(b, off, n);
    }
}

/// A node of the tree, with all that follows it.
#[derive(Clone, Copy)]
pub struct Node<'a> {
    pub bytes: &'a [u8],
}

/// A device tree.
pub struct AppleDeviceTree<'a> {
    pub bytes: &'a [u8],
}

/// A property of a node.
pub struct Property<'a> {
    pub name: &'a str,
    pub value: &'a [u8],
    pub end: usize,
}

impl<'a> View for Property<'a> {
    type V = PropertyView;

    open spec fn view(&self) -> PropertyView {
        PropertyView { name: self.name@, value: self.value@, end: self.end as int }
    }
}

/// Reads the little-endian number at `offset`.
pub fn read_le_u32(b: &[u8], offset: usize) -> (r: Result<u32, ()>)
    ensures
        match r {
            Ok(v) => word(b@, offset as int) == Some(v as int),
            Err(_) => word(b@, offset as int) is None,
        },
{
    assert(b@.len() == b.len());
    if offset > b.len() || b.len() - offset < 4 {
        return Err(());
    }
    Ok(bytes::read_le32(b, offset))
}

/// Rounds up to a multiple of four; none if that overflows.
pub fn align_up_4(value: usize) -> (r: Option<usize>)
    ensures
        match r {
            Some(v) => v == (value + 3) / 4 * 4,
            None => value + 3 > usize::MAX,
        },
{
    match value.checked_add(3) {
        Some(x) => Some(x / 4 * 4),
        None => None,
    }
}

impl<'a> Property<'a> {
    /// Reads the property at `offset`.
    pub fn parse(bytes: &'a [u8], offset: usize) -> (r: Result<Property<'a>, ()>)
        ensures
            match r {
                Ok(p) => property_at(bytes@, offset as int) == Some(p@),
                Err(_) => property_at(bytes@, offset as int) is None,
            },
    {
        assert(bytes@.len() == bytes.len());
        if offset > bytes.len() || bytes.len() - offset < 36 {
            return Err(());
        }
        let field: &[u8] = &bytes[offset..offset + PROPERTY_NAME_LEN];
        let name_len: usize = crate::bytes::find_nul(field);
        let name_bytes: &[u8] = &field[0..name_len];
        assert(name_bytes@ =~= crate::bytes::until_nul(
            bytes@.subrange(offset as int, offset + 32),
        ));
        let name: &'a str = match text::from_utf8(&bytes[offset..offset + name_len]) {
            Some(s) => {
                proof {
                    assert(bytes@.subrange(offset as int, offset + name_len) =~= name_bytes@);
                    encode_utf8_decode_utf8(s@);
                }
                s
            },
            None => {
                proof {
                    assert(bytes@.subrange(offset as int, offset + name_len) =~= name_bytes@);
                }
                return Err(());
            },
        };
        let len: u32 = crate::bytes::read_le32(bytes, offset + 32);
        let start: usize = offset + 36;
        if len as u64 > (bytes.len() - start) as u64 {
            return Err(());
        }
        let stop: usize = start + len as usize;
        match align_up_4(stop) {
            None => Err(()),
            Some(end) => if end > bytes.len() {
                Err(())
            } else {
                Ok(Property { name, value: &bytes[start..stop], end })
            },
        }
    }
}

impl<'a> AppleDeviceTree<'a> {
    /// A device tree; an error if it is too short for a node.
    pub fn new(bytes: &'a [u8]) -> (r: Result<AppleDeviceTree<'a>, ()>)
        ensures
            match r {
                Ok(t) => bytes@.len() >= 8 && t.bytes@ == bytes@,
                Err(_) => bytes@.len() < 8,
            },
    {
        if bytes.len() < 8 {
            return Err(());
        }
        Ok(AppleDeviceTree { bytes })
    }

    /// The root node.
    pub fn root(&self) -> (r: Node<'a>)
        ensures
            r.bytes@ == self.bytes@,
    {
        Node { bytes: self.bytes }
    }
}

impl<'a> Node<'a> {
    /// How many properties the node has.
    pub fn property_count(&self) -> (r: Result<u32, ()>)
        ensures
            match r {
                Ok(n) => word(self.bytes@, 0) == Some(n as int),
                Err(_) => word(self.bytes@, 0) is None,
            },
    {
        read_le_u32(self.bytes, 0)
    }

    /// How many children the node has.
    pub fn child_count(&self) -> (r: Result<u32, ()>)
        ensures
            match r {
                Ok(n) => word(self.bytes@, 4) == Some(n as int),
                Err(_) => word(self.bytes@, 4) is None,
            },
    {
        read_le_u32(self.bytes, 4)
    }

    /// Where the properties end.
    pub fn properties_end(&self) -> (r: Result<usize, ()>)
        ensures
            match r {
                Ok(e) => properties_stop(self.bytes@) == Some(e as int),
                Err(_) => properties_stop(self.bytes@) is None,
            },
    {
        let n: u32 = match self.property_count() {
            Ok(n) => n,
            Err(e) => {
                return Err(e);
            },
        };
        let mut offset: usize = 8;
        let mut i: u32 = 0;
        while i < n
            invariant
                i <= n,
                properties_from(self.bytes@, 8, n as int) == properties_from(
                    self.bytes@,
                    offset as int,
                    n - i,
                ),
                properties_stop(self.bytes@) == properties_from(self.bytes@, 8, n as int),
            decreases n - i,
        {
            match Property::parse(self.bytes, offset) {
                Ok(p) => {
                    offset = p.end;
                },
                Err(e) => {
                    return Err(e);
                },
            }
            i = i + 1;
        }
        Ok(offset)
    }

    /// Where `n` nodes from `start` on end.
    fn skip_nodes(&self, start: usize, n: u32) -> (r: Result<usize, ()>)
        requires
            8 <= start <= self.bytes@.len(),
        ensures
            match r {
                Ok(e) => nodes_from(self.bytes@, start as int, n as int) == Some(e as int),
                Err(_) => nodes_from(self.bytes@, start as int, n as int) is None,
            },
        decreases self.bytes@.len(), 0int,
    {
        assert(self.bytes@.len() == self.bytes.len());
        let mut offset: usize = start;
        let mut i: u32 = 0;
        while i < n
            invariant
                i <= n,
                8 <= offset <= self.bytes@.len(),
                self.bytes@.len() == self.bytes.len(),
                nodes_from(self.bytes@, start as int, n as int) == nodes_from(
                    self.bytes@,
                    offset as int,
                    n - i,
                ),
            decreases n - i,
        {
            let child = Node { bytes: &self.bytes[offset..self.bytes.len()] };
            assert(child.bytes@ =~= self.bytes@.skip(offset as int));
            proof {
                lemma_node_bound(child.bytes@);
            }
            match child.total_len() {
                Ok(l) => {
                    offset = offset + l;
                },
                Err(e) => {
                    return Err(e);
                },
            }
            i = i + 1;
        }
        Ok(offset)
    }

    /// How long the node is, with all that is below it.
    pub fn total_len(&self) -> (r: Result<usize, ()>)
        ensures
            match r {
                Ok(l) => node_len(self.bytes@) == Some(l as int),
                Err(_) => node_len(self.bytes@) is None,
            },
        decreases self.bytes@.len(), 1int,
    {
        let offset: usize = match self.properties_end() {
            Ok(o) => o,
            Err(e) => {
                return Err(e);
            },
        };
        let n: u32 = match self.child_count() {
            Ok(n) => n,
            Err(e) => {
                return Err(e);
            },
        };
        proof {
            lemma_properties_bound(self.bytes@, 8, word(self.bytes@, 0)->0);
        }
        self.skip_nodes(offset, n)
    }

    /// The child with index `wanted`.
    pub fn child_at(&self, wanted: u32) -> (r: Result<Node<'a>, ()>)
        ensures
            match r {
                Ok(c) => child_offset(self.bytes@, wanted as int) matches Some(at) && c.bytes@
                    == self.bytes@.skip(at),
                Err(_) => child_offset(self.bytes@, wanted as int) is None,
            },
    {
        let offset: usize = match self.properties_end() {
            Ok(o) => o,
            Err(e) => {
                return Err(e);
            },
        };
        let n: u32 = match self.child_count() {
            Ok(n) => n,
            Err(e) => {
                return Err(e);
            },
        };
        if wanted >= n {
            return Err(());
        }
        proof {
            lemma_properties_bound(self.bytes@, 8, word(self.bytes@, 0)->0);
            lemma_nodes_bound(self.bytes@, offset as int, wanted as int);
        }
        let at: usize = match self.skip_nodes(offset, wanted) {
            Ok(a) => a,
            Err(e) => {
                return Err(e);
            },
        };
        assert(self.bytes@.len() == self.bytes.len());
        let child = Node { bytes: &self.bytes[at..self.bytes.len()] };
        assert(child.bytes@ =~= self.bytes@.skip(at as int));
        match child.total_len() {
            Ok(_) => Ok(child),
            Err(e) => Err(e),
        }
    }
}

// ── Printing ───────────────────────────────────────────────────────────────

/// `log` with the indent of a level behind it.
pub open spec fn indented(log: Seq<u8>, depth: int) -> Seq<u8>
    decreases depth,
{
    if depth <= 0 {
        log
    } else {
        uart::put_str(indented(log, depth - 1), "  "@)
    }
}

/// Whether bytes can be printed: some, all printable ASCII or zero.
pub open spec fn printable(b: Seq<u8>) -> bool {
    b.len() > 0 && forall|i: int| 0 <= i < b.len() ==> 0x20 <= #[trigger] b[i] <= 0x7e || b[i] == 0
}

/// `log` with the ASCII characters of `b` behind it, without zero bytes.
pub open spec fn put_ascii(log: Seq<u8>, b: Seq<u8>) -> Seq<u8>
    decreases b.len(),
{
    if b.len() == 0 {
        log
    } else {
        let before = put_ascii(log, b.drop_last());
        if b.last() != 0 && b.last() < 0x80 {
            before.push(b.last())
        } else {
            before
        }
    }
}

/// `log` with the line of a property behind it.
pub open spec fn put_property(log: Seq<u8>, p: PropertyView, depth: int) -> Seq<u8> {
    let a = uart::put_hex(
        uart::put_str(uart::put_str(indented(log, depth), p.name), " len="@),
        p.value.len() as u64,
    );
    let b = if printable(p.value) {
        uart::put_str(put_ascii(uart::put_str(a, " value=\""@), p.value), "\""@)
    } else {
        a
    };
    uart::put_str(b, "\n"@)
}

/// Prints `n` properties from `off` on; the flag tells whether all were there.
pub open spec fn properties_dumped(log: Seq<u8>, b: Seq<u8>, off: int, n: int, depth: int) -> (
    Seq<u8>,
    bool,
)
    decreases n,
{
    if n <= 0 {
        (log, true)
    } else {
        match property_at(b, off) {
            None => (log, false),
            Some(p) => properties_dumped(put_property(log, p, depth), b, p.end, n - 1, depth),
        }
    }
}

/// Prints the node at the start of `b`; the flag tells whether it was well
/// formed.
pub open spec fn node_dumped(log: Seq<u8>, b: Seq<u8>, depth: int) -> (Seq<u8>, bool)
    decreases b.len(), 1int, 0int,
{
    let a = uart::put_str(indented(log, depth), "node props="@);
    match word(b, 0) {
        None => (a, false),
        Some(np) => {
            let c = uart::put_str(uart::put_hex(a, np as u64), " children="@);
            match word(b, 4) {
                None => (c, false),
                Some(nc) => {
                    let d = uart::put_str(uart::put_hex(c, nc as u64), "\n"@);
                    let (e, ok) = properties_dumped(d, b, 8, np, depth + 1);
                    if ok {
                        children_dumped(e, b, 0, nc, depth)
                    } else {
                        (e, false)
                    }
                },
            }
        },
    }
}

/// Prints the children from `i` to `n` of the node at the start of `b`.
pub open spec fn children_dumped(log: Seq<u8>, b: Seq<u8>, i: int, n: int, depth: int) -> (
    Seq<u8>,
    bool,
)
    decreases b.len(), 0int, n - i,
{
    if i >= n {
        (log, true)
    } else {
        match child_offset(b, i) {
            None => (log, false),
            Some(at) => {
                let (l, ok) = node_dumped(log, b.skip(at), depth + 1);
                if ok {
                    children_dumped(l, b, i + 1, n, depth)
                } else {
                    (l, false)
                }
            },
        }
    }
}

/// The whole printout of a tree.
pub open spec fn dumped(log: Seq<u8>, b: Seq<u8>) -> Seq<u8> {
    if b.len() < 8 {
        uart::put_str(log, "xnu-rs: malformed Apple device tree\n"@)
    } else {
        let (l, ok) = node_dumped(uart::put_str(log, "xnu-rs: Apple device tree\n"@), b, 0);
        if ok {
            l
        } else {
            uart::put_str(l, "xnu-rs: Apple device tree dump truncated/malformed\n"@)
        }
    }
}

fn write_indent(console: &mut Console, depth: usize)
    ensures
        final(console)@ == indented(old(console)@, depth as int),
{
    let mut i: usize = 0;
    while i < depth
        invariant
            i <= depth,
            console@ == indented(old(console)@, i as int),
        decreases depth - i,
    {
        uart::write_str(console, "  ");
        i = i + 1;
    }
}

fn is_printable(b: &[u8]) -> (r: bool)
    ensures
        r == printable(b@),
{
    let mut i: usize = 0;
    while i < b.len()
        invariant
            i <= b@.len(),
            forall|k: int| 0 <= k < i ==> 0x20 <= #[trigger] b@[k] <= 0x7e || b@[k] == 0,
        decreases b@.len() - i,
    {
        if !((b[i] >= 0x20 && b[i] <= 0x7e) || b[i] == 0) {
            return false;
        }
        i = i + 1;
    }
    b.len() > 0
}

fn write_ascii(console: &mut Console, b: &[u8])
    ensures
        final(console)@ == put_ascii(old(console)@, b@),
{
    let mut i: usize = 0;
    while i < b.len()
        invariant
            i <= b@.len(),
            console@ == put_ascii(old(console)@, b@.take(i as int)),
        decreases b@.len() - i,
    {
        assert(b@.take(i + 1).drop_last() =~= b@.take(i as int));
        if b[i] != 0 && b[i] < 0x80 {
            uart::write_byte(console, b[i]);
        }
        i = i + 1;
    }
    assert(b@.take(i as int) =~= b@);
}

fn write_property(console: &mut Console, p: &Property, depth: usize)
    ensures
        final(console)@ == put_property(old(console)@, p@, depth as int),
{
    write_indent(console, depth);
    uart::write_str(console, p.name);
    uart::write_str(console, " len=");
    assert(p.value@.len() == p.value.len());
    uart::write_hex_u64(console, p.value.len() as u64);
    if is_printable(p.value) {
        uart::write_str(console, " value=\"");
        write_ascii(console, p.value);
        uart::write_str(console, "\"");
    }
    uart::write_str(console, "\n");
}

/// Prints the properties of a node.
fn dump_properties(console: &mut Console, node: &Node, n: u32, depth: usize) -> (r: Result<(), ()>)
    ensures
        properties_dumped(old(console)@, node.bytes@, 8, n as int, depth as int) == (
            final(console)@,
            r is Ok,
        ),
{
    let mut offset: usize = 8;
    let mut i: u32 = 0;
    while i < n
        invariant
            i <= n,
            properties_dumped(old(console)@, node.bytes@, 8, n as int, depth as int)
                == properties_dumped(
                console@,
                node.bytes@,
                offset as int,
                n - i,
                depth as int,
            ),
        decreases n - i,
    {
        match Property::parse(node.bytes, offset) {
            Ok(p) => {
                write_property(console, &p, depth);
                offset = p.end;
            },
            Err(e) => {
                return Err(e);
            },
        }
        i = i + 1;
    }
    Ok(())
}

/// Prints a node and all that is below it.
fn dump_node(console: &mut Console, node: Node, depth: usize) -> (r: Result<(), ()>)
    requires
        depth + node.bytes@.len() < usize::MAX,
    ensures
        node_dumped(old(console)@, node.bytes@, depth as int) == (final(console)@, r is Ok),
    decreases node.bytes@.len(),
{
    write_indent(console, depth);
    uart::write_str(console, "node props=");
    let np: u32 = match node.property_count() {
        Ok(n) => n,
        Err(e) => {
            return Err(e);
        },
    };
    uart::write_hex_u64(console, np as u64);
    uart::write_str(console, " children=");
    let nc: u32 = match node.child_count() {
        Ok(n) => n,
        Err(e) => {
            return Err(e);
        },
    };
    uart::write_hex_u64(console, nc as u64);
    uart::write_str(console, "\n");
    match dump_properties(console, &node, np, depth + 1) {
        Ok(()) => {},
        Err(e) => {
            return Err(e);
        },
    }
    let ghost start = console@;
    let mut i: u32 = 0;
    while i < nc
        invariant
            i <= nc,
            node.bytes@.len() >= 8,
            depth + node.bytes@.len() < usize::MAX,
            node_dumped(old(console)@, node.bytes@, depth as int) == children_dumped(
                start,
                node.bytes@,
                0,
                nc as int,
                depth as int,
            ),
            children_dumped(start, node.bytes@, 0, nc as int, depth as int) == children_dumped(
                console@,
                node.bytes@,
                i as int,
                nc as int,
                depth as int,
            ),
        decreases nc - i,
    {
        let child: Node = match node.child_at(i) {
            Ok(c) => c,
            Err(e) => {
                return Err(e);
            },
        };
        match dump_node(console, child, depth + 1) {
            Ok(()) => {},
            Err(e) => {
                return Err(e);
            },
        }
        i = i + 1;
    }
    Ok(())
}

/// Prints a device tree.
pub fn dump(console: &mut Console, bytes: &[u8])
    requires
        bytes@.len() < usize::MAX,
    ensures
        final(console)@ == dumped(old(console)@, bytes@),
{
    match AppleDeviceTree::new(bytes) {
        Ok(tree) => {
            uart::write_str(console, "xnu-rs: Apple device tree\n");
            match dump_node(console, tree.root(), 0) {
                Ok(()) => {},
                Err(_) => {
                    uart::write_str(
                        console,
                        "xnu-rs: Apple device tree dump truncated/malformed\n",
                    );
                },
            }
        },
        Err(_) => {
            uart::write_str(console, "xnu-rs: malformed Apple device tree\n");
        },
    }
}

// ── What the boot loader writes ────────────────────────────────────────────

/// Where property `i` of a written node starts.
pub open spec fn prop_start(t: Tree, i: int) -> int {
    8 + adt::props_bytes(t.props, i).len() as int
}

/// Where child `i` of a written node starts.
pub open spec fn child_start(t: Tree, i: int) -> int {
    prop_start(t, t.props.len() as int) + adt::kids_bytes(t, i).len()
}

/// Whether no name in the tree has a zero byte in it.
pub open spec fn plain_names(t: Tree) -> bool
    decreases t,
{
    &&& forall|i: int|
        0 <= i < t.props.len() ==> !encode_utf8((#[trigger] t.props[i]).0).contains(0u8)
    &&& forall|i: int| 0 <= i < t.children.len() ==> plain_names(#[trigger] t.children[i])
}

/// Whether reading `b` gives `t`: the same properties, and the same children.
pub open spec fn describes(b: Seq<u8>, t: Tree) -> bool
    decreases t,
{
    &&& word(b, 0) == Some(t.props.len() as int)
    &&& word(b, 4) == Some(t.children.len() as int)
    &&& forall|i: int|
        0 <= i < t.props.len() ==> property_at(b, #[trigger] prop_start(t, i)) == Some(
            PropertyView {
                name: t.props[i].0,
                value: t.props[i].1,
                end: prop_start(t, i + 1),
            },
        )
    &&& forall|i: int|
        0 <= i < t.children.len() ==> child_offset(b, i) == Some(#[trigger] child_start(t, i))
            && describes(b.skip(child_start(t, i)), t.children[i])
}

/// A written property reads back.
proof fn lemma_property_reads(b: Seq<u8>, off: int, p: device_tree::Prop)
    requires
        0 <= off,
        off % 4 == 0,
        adt::prop_fits(p),
        !encode_utf8(p.0).contains(0u8),
        b.len() + 3 <= usize::MAX,
        off + adt::prop_bytes(p).len() <= b.len(),
        b.subrange(off, off + adt::prop_bytes(p).len()) == adt::prop_bytes(p),
    ensures
        property_at(b, off) == Some(
            PropertyView { name: p.0, value: p.1, end: off + adt::prop_bytes(p).len() },
        ),
        (off + adt::prop_bytes(p).len()) % 4 == 0,
{
    let w = adt::prop_bytes(p);
    let nb = encode_utf8(p.0);
    let len = p.1.len();
    assert forall|k: int| 0 <= k < w.len() implies b[off + k] == #[trigger] w[k] by {
        assert(b.subrange(off, off + w.len())[k] == b[off + k]);
    }
    let lb = bytes::le32_bytes(len as u32);
    assert forall|k: int| 0 <= k < 4 implies b[off + 32 + k] == #[trigger] lb[0 + k] by {
        assert(b[off + (32 + k)] == w[32 + k]);
    }
    bytes::lemma_le32_roundtrip(len as u32);
    bytes::lemma_le_window(b, off + 32, lb, 0, 4);
    let field = b.subrange(off, off + 32);
    assert forall|k: int| 0 <= k < 32 implies field[k] == w[k] by {
        assert(b[off + k] == w[k]);
    }
    assert forall|k: int| 0 <= k < nb.len() implies field[k] != 0 by {
        if nb[k] == 0 {
            assert(nb.contains(nb[k]));
        }
    }
    bytes::lemma_nul_end_unique(field, nb.len() as int);
    assert(bytes::until_nul(field) =~= nb);
    encode_utf8_valid_utf8(p.0);
    encode_utf8_decode_utf8(p.0);
    assert(b.subrange(off + 36, off + 36 + len) =~= p.1) by {
        assert forall|k: int| 0 <= k < len implies b[off + 36 + k] == p.1[k] by {
            assert(b[off + (36 + k)] == w[36 + k]);
        }
    }
}

/// Written properties are whole words, and the first of them come first.
proof fn lemma_props_split(ps: Seq<device_tree::Prop>, i: int, n: int)
    requires
        0 <= i <= n <= ps.len(),
    ensures
        adt::props_bytes(ps, i).len() % 4 == 0,
        adt::props_bytes(ps, i).len() <= adt::props_bytes(ps, n).len(),
        adt::props_bytes(ps, n).take(adt::props_bytes(ps, i).len() as int) == adt::props_bytes(
            ps,
            i,
        ),
    decreases n,
{
    let whole = adt::props_bytes(ps, n);
    if i < n {
        lemma_props_split(ps, i, n - 1);
        let before = adt::props_bytes(ps, n - 1);
        assert(whole.take(adt::props_bytes(ps, i).len() as int) =~= before.take(
            adt::props_bytes(ps, i).len() as int,
        ));
    } else {
        assert(whole.take(whole.len() as int) =~= whole);
        if n > 0 {
            lemma_props_split(ps, n - 1, n - 1);
        }
    }
}

/// The first children come first.
proof fn lemma_kids_split(t: Tree, i: int, n: int)
    requires
        0 <= i <= n <= t.children.len(),
    ensures
        adt::kids_bytes(t, i).len() <= adt::kids_bytes(t, n).len(),
        adt::kids_bytes(t, n).take(adt::kids_bytes(t, i).len() as int) == adt::kids_bytes(t, i),
    decreases n,
{
    let whole = adt::kids_bytes(t, n);
    if i < n {
        lemma_kids_split(t, i, n - 1);
        let before = adt::kids_bytes(t, n - 1);
        assert(whole.take(adt::kids_bytes(t, i).len() as int) =~= before.take(
            adt::kids_bytes(t, i).len() as int,
        ));
    } else {
        assert(whole.take(whole.len() as int) =~= whole);
    }
}

/// What is written of a property stands at its place.
proof fn lemma_prop_placed(b: Seq<u8>, t: Tree, i: int)
    requires
        0 <= i < t.props.len(),
        prop_start(t, t.props.len() as int) <= b.len(),
        b.subrange(8, prop_start(t, t.props.len() as int)) == adt::props_bytes(
            t.props,
            t.props.len() as int,
        ),
    ensures
        ({
            let off = prop_start(t, i);
            let w = adt::prop_bytes(t.props[i]);
            &&& off >= 8
            &&& off % 4 == 0
            &&& prop_start(t, i + 1) == off + w.len()
            &&& off + w.len() <= b.len()
            &&& b.subrange(off, off + w.len()) == w
        }),
{
    let n = t.props.len() as int;
    lemma_props_split(t.props, i, n);
    lemma_props_split(t.props, i + 1, n);
    let all = adt::props_bytes(t.props, n);
    let upto = adt::props_bytes(t.props, i + 1);
    let before = adt::props_bytes(t.props, i);
    let w = adt::prop_bytes(t.props[i]);
    assert(upto == before + w);
    let off = prop_start(t, i);
    assert forall|k: int| 0 <= k < w.len() implies b[off + k] == w[k] by {
        let at = before.len() + k;
        assert(b.subrange(8, prop_start(t, n))[at] == b[8 + at]);
        assert(all.take(upto.len() as int)[at] == all[at]);
        assert(upto[at] == w[k]);
    }
    assert(b.subrange(off, off + w.len()) =~= w);
}

/// The properties of a written node read back, one after the other.
proof fn lemma_properties_read(b: Seq<u8>, t: Tree, i: int)
    requires
        0 <= i <= t.props.len(),
        b.len() + 3 <= usize::MAX,
        prop_start(t, t.props.len() as int) <= b.len(),
        b.subrange(8, prop_start(t, t.props.len() as int)) == adt::props_bytes(
            t.props,
            t.props.len() as int,
        ),
        forall|k: int| 0 <= k < t.props.len() ==> adt::prop_fits(#[trigger] t.props[k]),
        forall|k: int|
            0 <= k < t.props.len() ==> !encode_utf8((#[trigger] t.props[k]).0).contains(0u8),
    ensures
        properties_from(b, prop_start(t, i), t.props.len() - i) == Some(
            prop_start(t, t.props.len() as int),
        ),
        forall|k: int|
            i <= k < t.props.len() ==> property_at(b, #[trigger] prop_start(t, k)) == Some(
                PropertyView {
                    name: t.props[k].0,
                    value: t.props[k].1,
                    end: prop_start(t, k + 1),
                },
            ),
    decreases t.props.len() - i,
{
    let n = t.props.len() as int;
    if i < n {
        lemma_properties_read(b, t, i + 1);
        lemma_prop_placed(b, t, i);
        assert(adt::prop_fits(t.props[i]));
        lemma_property_reads(b, prop_start(t, i), t.props[i]);
    }
}

/// The children of a written node follow each other.
proof fn lemma_nodes_read(b: Seq<u8>, t: Tree, j: int, i: int)
    requires
        0 <= j <= i <= t.children.len(),
        forall|k: int|
            0 <= k < t.children.len() ==> 8 <= #[trigger] child_start(t, k) <= b.len() && node_len(
                b.skip(child_start(t, k)),
            ) == Some(adt::adt_bytes(t.children[k]).len() as int),
    ensures
        nodes_from(b, child_start(t, j), i - j) == Some(child_start(t, i)),
    decreases i - j,
{
    if j < i {
        lemma_nodes_read(b, t, j + 1, i);
        assert(8 <= child_start(t, j));
        assert(child_start(t, j + 1) == child_start(t, j) + adt::adt_bytes(
            t.children[j],
        ).len());
    }
}

/// What is written of a child stands at its place.
proof fn lemma_child_bytes(b: Seq<u8>, t: Tree, rest: Seq<u8>, i: int) -> (tail: Seq<u8>)
    requires
        0 <= i < t.children.len(),
        b == adt::adt_bytes(t) + rest,
    ensures
        8 <= child_start(t, i) <= b.len(),
        b.skip(child_start(t, i)) == adt::adt_bytes(t.children[i]) + tail,
{
    let n = t.children.len() as int;
    lemma_kids_split(t, i, n);
    lemma_kids_split(t, i + 1, n);
    let all = adt::kids_bytes(t, n);
    let upto = adt::kids_bytes(t, i + 1);
    let before = adt::kids_bytes(t, i);
    let c = adt::adt_bytes(t.children[i]);
    assert(upto == before + c);
    let at = child_start(t, i);
    let base = prop_start(t, t.props.len() as int);
    let tail = b.skip(at + c.len());
    assert(adt::adt_bytes(t).len() == base + all.len());
    assert forall|k: int| 0 <= k < c.len() implies b[at + k] == c[k] by {
        let w = before.len() + k;
        assert(all.take(upto.len() as int)[w] == all[w]);
        assert(upto[w] == c[k]);
        assert(b[base + w] == all[w]);
    }
    assert(b.skip(at) =~= c + tail);
    tail
}

/// The kernel reads what the boot loader wrote: a written tree, whatever
/// follows it, is read with the same properties and children, and takes as many
/// bytes as were written.
#[verifier::spinoff_prover]
#[verifier::rlimit(40)]
pub proof fn law_tree_reads_back(t: Tree, rest: Seq<u8>)
    requires
        adt::writable(t),
        plain_names(t),
        adt::adt_bytes(t).len() + rest.len() + 3 <= usize::MAX,
    ensures
        describes(adt::adt_bytes(t) + rest, t),
        node_len(adt::adt_bytes(t) + rest) == Some(adt::adt_bytes(t).len() as int),
    decreases t,
{
    let b = adt::adt_bytes(t) + rest;
    let np = t.props.len() as int;
    let nc = t.children.len() as int;
    let pc = bytes::le32_bytes(np as u32);
    let cc = bytes::le32_bytes(nc as u32);
    bytes::lemma_le32_roundtrip(np as u32);
    bytes::lemma_le32_roundtrip(nc as u32);
    bytes::lemma_le_window(b, 0, pc, 0, 4);
    bytes::lemma_le_window(b, 4, cc, 0, 4);
    lemma_props_split(t.props, 0, np);
    let base = prop_start(t, np);
    assert(b.subrange(8, base) =~= adt::props_bytes(t.props, np));
    lemma_properties_read(b, t, 0);
    assert forall|i: int| 0 <= i < nc implies 8 <= #[trigger] child_start(t, i) <= b.len()
        && node_len(b.skip(child_start(t, i))) == Some(adt::adt_bytes(t.children[i]).len() as int)
        && describes(b.skip(child_start(t, i)), t.children[i]) by {
        let tail = lemma_child_bytes(b, t, rest, i);
        assert(adt::writable(t.children[i]));
        assert(plain_names(t.children[i]));
        law_tree_reads_back(t.children[i], tail);
    }
    lemma_nodes_read(b, t, 0, nc);
    assert(child_start(t, 0) == base);
    assert forall|i: int| 0 <= i < nc implies child_offset(b, i) == Some(
        #[trigger] child_start(t, i),
    ) by {
        lemma_nodes_read(b, t, 0, i);
    }
}

} // verus!
