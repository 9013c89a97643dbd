//! The printout of a device tree shows the whole of it.

use crate::boot::adt;
use crate::boot::device_tree::{Prop, Tree};
use crate::kernel::arch::uart;
use crate::kernel::device_tree;
use crate::kernel::device_tree::PropertyView;
use vstd::prelude::*;
use vstd::utf8::*;

verus! {

/// Two spaces for each level.
pub open spec fn indent(depth: int) -> Seq<u8>
    decreases depth,
{
    if depth <= 0 {
        Seq::empty()
    } else {
        encode_utf8("  "@) + indent(depth - 1)
    }
}

/// A number as it is printed.
pub open spec fn number(n: int) -> Seq<u8> {
    uart::put_hex(Seq::empty(), n as u64)
}

/// Whether a value is text: some bytes, each a printable character or zero.
pub open spec fn is_text(b: Seq<u8>) -> bool {
    &&& b.len() > 0
    &&& forall|i: int| 0 <= i < b.len() ==> #[trigger] b[i] == 0 || 0x20 <= b[i] <= 0x7e
}

/// The bytes that are not zero.
pub open spec fn without_zeros(b: Seq<u8>) -> Seq<u8>
    decreases b.len(),
{
    if b.len() == 0 {
        Seq::empty()
    } else if b.last() == 0 {
        without_zeros(b.drop_last())
    } else {
        without_zeros(b.drop_last()).push(b.last())
    }
}

/// The line of a property: its name, its length, and its value if that is text.
pub open spec fn property_line(p: Prop, depth: int) -> Seq<u8> {
    indent(depth) + encode_utf8(p.0) + encode_utf8(" len="@) + number(p.1.len() as int) + (
    if is_text(p.1) {
        encode_utf8(" value=\""@) + without_zeros(p.1) + encode_utf8("\""@)
    } else {
        Seq::empty()
    }) + encode_utf8("\n"@)
}

/// The lines of properties.
pub open spec fn property_lines(ps: Seq<Prop>, depth: int) -> Seq<u8>
    decreases ps.len(),
{
    if ps.len() == 0 {
        Seq::empty()
    } else {
        property_line(ps[0], depth) + property_lines(ps.drop_first(), depth)
    }
}

/// The lines of a node: how many properties and children it has, then the
/// properties and the children, one level deeper.
pub open spec fn node_lines(t: Tree, depth: int) -> Seq<u8>
    decreases t,
{
    indent(depth) + encode_utf8("node props="@) + number(t.props.len() as int) + encode_utf8(
        " children="@,
    ) + number(t.children.len() as int) + encode_utf8("\n"@) + property_lines(t.props, depth + 1)
        + nodes_lines(t.children, depth + 1)
}

/// The lines of nodes.
pub open spec fn nodes_lines(ts: Seq<Tree>, depth: int) -> Seq<u8>
    decreases ts,
{
    if ts.len() == 0 {
        Seq::empty()
    } else {
        node_lines(ts[0], depth) + nodes_lines(ts.drop_first(), depth)
    }
}

proof fn lemma_indent(log: Seq<u8>, depth: int)
    ensures
        device_tree::indented(log, depth) == log + indent(depth),
    decreases depth,
{
    if depth > 0 {
        lemma_indent(log, depth - 1);
        lemma_indent_end(depth - 1);
        assert(device_tree::indented(log, depth) =~= log + indent(depth));
    } else {
        assert(log + indent(depth) =~= log);
    }
}

proof fn lemma_indent_end(depth: int)
    ensures
        indent(depth) + encode_utf8("  "@) == encode_utf8("  "@) + indent(depth),
    decreases depth,
{
    let s = encode_utf8("  "@);
    if depth > 0 {
        lemma_indent_end(depth - 1);
        assert(indent(depth) + s =~= s + (indent(depth - 1) + s));
        assert(s + (s + indent(depth - 1)) =~= s + indent(depth));
    } else {
        assert(indent(depth) + s =~= s + indent(depth));
    }
}

proof fn lemma_ascii(log: Seq<u8>, b: Seq<u8>)
    requires
        forall|i: int| 0 <= i < b.len() ==> #[trigger] b[i] < 0x80,
    ensures
        device_tree::put_ascii(log, b) == log + without_zeros(b),
    decreases b.len(),
{
    if b.len() > 0 {
        let d = b.drop_last();
        assert forall|i: int| 0 <= i < d.len() implies #[trigger] d[i] < 0x80 by {
            assert(d[i] == b[i]);
        }
        lemma_ascii(log, d);
        assert(b[b.len() - 1] < 0x80);
        assert(device_tree::put_ascii(log, b) =~= log + without_zeros(b));
    } else {
        assert(log + without_zeros(b) =~= log);
    }
}

proof fn lemma_property(log: Seq<u8>, p: Prop, end: int, depth: int)
    ensures
        device_tree::put_property(
            log,
            PropertyView { name: p.0, value: p.1, end },
            depth,
        ) == log + property_line(p, depth),
{
    lemma_indent(log, depth);
    let a = uart::put_hex(
        uart::put_str(uart::put_str(device_tree::indented(log, depth), p.0), " len="@),
        p.1.len() as u64,
    );
    let head = indent(depth) + encode_utf8(p.0) + encode_utf8(" len="@) + number(
        p.1.len() as int,
    );
    assert(a =~= log + head);
    assert(device_tree::printable(p.1) == is_text(p.1)) by {
        if is_text(p.1) {
            assert forall|i: int| 0 <= i < p.1.len() implies 0x20 <= #[trigger] p.1[i] <= 0x7e
                || p.1[i] == 0 by {}
        }
    }
    let w = device_tree::put_property(log, PropertyView { name: p.0, value: p.1, end }, depth);
    if is_text(p.1) {
        let q = uart::put_str(a, " value=\""@);
        assert forall|i: int| 0 <= i < p.1.len() implies #[trigger] p.1[i] < 0x80 by {}
        lemma_ascii(q, p.1);
        assert(w =~= log + property_line(p, depth));
    } else {
        assert(w =~= log + property_line(p, depth));
    }
}

proof fn lemma_properties(log: Seq<u8>, b: Seq<u8>, t: Tree, i: int, depth: int)
    requires
        device_tree::describes(b, t),
        0 <= i <= t.props.len(),
    ensures
        device_tree::properties_dumped(
            log,
            b,
            device_tree::prop_start(t, i),
            t.props.len() - i,
            depth,
        ) == (log + property_lines(t.props.skip(i), depth), true),
    decreases t.props.len() - i,
{
    let s = t.props.skip(i);
    if i < t.props.len() {
        assert(s[0] == t.props[i]);
        assert(s.drop_first() =~= t.props.skip(i + 1));
        lemma_property(log, t.props[i], device_tree::prop_start(t, i + 1), depth);
        let l = log + property_line(t.props[i], depth);
        lemma_properties(l, b, t, i + 1, depth);
        assert(l + property_lines(t.props.skip(i + 1), depth) =~= log + property_lines(s, depth));
    } else {
        assert(log + property_lines(s, depth) =~= log);
    }
}

proof fn lemma_children(log: Seq<u8>, b: Seq<u8>, t: Tree, i: int, depth: int)
    requires
        device_tree::describes(b, t),
        0 <= i <= t.children.len(),
    ensures
        device_tree::children_dumped(log, b, i, t.children.len() as int, depth) == (
            log + nodes_lines(t.children.skip(i), depth + 1),
            true,
        ),
    decreases t, 0int, t.children.len() - i,
{
    let s = t.children.skip(i);
    if i < t.children.len() {
        let at = device_tree::child_start(t, i);
        assert(device_tree::child_offset(b, i) == Some(at));
        assert(s[0] == t.children[i]);
        assert(s.drop_first() =~= t.children.skip(i + 1));
        lemma_node(log, b.skip(at), t.children[i], depth + 1);
        let l = log + node_lines(t.children[i], depth + 1);
        lemma_children(l, b, t, i + 1, depth);
        assert(l + nodes_lines(t.children.skip(i + 1), depth + 1) =~= log + nodes_lines(
            s,
            depth + 1,
        ));
    } else {
        assert(log + nodes_lines(s, depth + 1) =~= log);
    }
}

proof fn lemma_hex(log: Seq<u8>, n: int)
    requires
        0 <= n <= u64::MAX,
    ensures
        uart::put_hex(log, n as u64) == log + number(n),
{
    assert(uart::put_hex(log, n as u64) =~= log + number(n));
}

/// What is added one after the other is added in one go.
proof fn lemma_in_one_go(
    log: Seq<u8>,
    a: Seq<u8>,
    b: Seq<u8>,
    c: Seq<u8>,
    d: Seq<u8>,
    e: Seq<u8>,
    f: Seq<u8>,
    g: Seq<u8>,
    h: Seq<u8>,
)
    ensures
        log + a + b + c + d + e + f + g + h == log + (a + b + c + d + e + f + g + h),
{
    assert(log + a + b + c + d + e + f + g + h =~= log + (a + b + c + d + e + f + g + h));
}

/// The first line of a node.
spec fn headed(log: Seq<u8>, np: int, nc: int, depth: int) -> Seq<u8> {
    let a = uart::put_str(device_tree::indented(log, depth), "node props="@);
    let c = uart::put_str(uart::put_hex(a, np as u64), " children="@);
    uart::put_str(uart::put_hex(c, nc as u64), "\n"@)
}

proof fn lemma_headed(log: Seq<u8>, np: int, nc: int, depth: int)
    requires
        0 <= np <= u64::MAX,
        0 <= nc <= u64::MAX,
    ensures
        headed(log, np, nc, depth) == log + indent(depth) + encode_utf8("node props="@) + number(np)
            + encode_utf8(" children="@) + number(nc) + encode_utf8("\n"@),
{
    lemma_indent(log, depth);
    let a = uart::put_str(device_tree::indented(log, depth), "node props="@);
    lemma_hex(a, np);
    let c = uart::put_str(uart::put_hex(a, np as u64), " children="@);
    lemma_hex(c, nc);
}

proof fn lemma_node(log: Seq<u8>, b: Seq<u8>, t: Tree, depth: int)
    requires
        device_tree::describes(b, t),
    ensures
        device_tree::node_dumped(log, b, depth) == (log + node_lines(t, depth), true),
    decreases t, 1int, 0int,
{
    let np = t.props.len() as int;
    let nc = t.children.len() as int;
    assert(device_tree::word(b, 0) == Some(np) && device_tree::word(b, 4) == Some(nc));
    lemma_headed(log, np, nc, depth);
    let d = headed(log, np, nc, depth);
    assert(device_tree::prop_start(t, 0) == 8) by {
        assert(adt::props_bytes(t.props, 0).len() == 0);
    }
    lemma_properties(d, b, t, 0, depth + 1);
    assert(t.props.skip(0) =~= t.props);
    let e = d + property_lines(t.props, depth + 1);
    lemma_children(e, b, t, 0, depth);
    assert(t.children.skip(0) =~= t.children);
    lemma_in_one_go(
        log,
        indent(depth),
        encode_utf8("node props="@),
        number(np),
        encode_utf8(" children="@),
        number(nc),
        encode_utf8("\n"@),
        property_lines(t.props, depth + 1),
        nodes_lines(t.children, depth + 1),
    );
    lemma_node_step(log, b, t, depth);
}

/// A node is dumped by its first line, its properties and its children.
proof fn lemma_node_step(log: Seq<u8>, b: Seq<u8>, t: Tree, depth: int)
    requires
        device_tree::word(b, 0) == Some(t.props.len() as int),
        device_tree::word(b, 4) == Some(t.children.len() as int),
    ensures
        device_tree::node_dumped(log, b, depth) == ({
            let d = headed(log, t.props.len() as int, t.children.len() as int, depth);
            let (e, ok) = device_tree::properties_dumped(
                d,
                b,
                8,
                t.props.len() as int,
                depth + 1,
            );
            if ok {
                device_tree::children_dumped(e, b, 0, t.children.len() as int, depth)
            } else {
                (e, false)
            }
        }),
{
}

/// The printout of a tree that the boot loader wrote has a line for every node
/// and every property, however deep, each indented by its level and in order.
pub proof fn law_whole_tree_is_printed(log: Seq<u8>, t: Tree, rest: Seq<u8>)
    requires
        adt::writable(t),
        device_tree::plain_names(t),
        adt::adt_bytes(t).len() + rest.len() + 3 <= usize::MAX,
    ensures
        device_tree::dumped(log, adt::adt_bytes(t) + rest) == log + encode_utf8(
            "xnu-rs: Apple device tree\n"@,
        ) + node_lines(t, 0),
{
    let b = adt::adt_bytes(t) + rest;
    device_tree::law_tree_reads_back(t, rest);
    assert(device_tree::word(b, 4) is Some);
    lemma_node(uart::put_str(log, "xnu-rs: Apple device tree\n"@), b, t, 0);
}

} // verus!
