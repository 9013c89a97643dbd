//! Flattened device trees are read back as they were written.
//!
//! What a flattened device tree looks like is said here by writing one: the
//! tokens of each node in order, big-endian, padded to multiples of four.

use crate::boot::device_tree;
use crate::boot::device_tree::{Prop, Tree};
use crate::bytes;
use vstd::prelude::*;
use vstd::utf8::*;

verus! {

/// What may stand in a node.
pub enum Item {
    /// A property: its name, its value, and how far from the start of the block
    /// of strings its name is.
    Prop(Seq<char>, Seq<u8>, int),
    /// A child.
    Node(Source),
    /// Nothing.
    Nop,
}

/// A node before it is written.
pub struct Source {
    /// The name that the node itself has.
    pub name: Seq<char>,
    /// What stands in it, in order.
    pub items: Seq<Item>,
}

/// Four big-endian bytes.
#[verifier::opaque]
pub open spec fn be(n: int) -> Seq<u8> {
    seq![
        (n / 0x100_0000 % 0x100) as u8,
        (n / 0x1_0000 % 0x100) as u8,
        (n / 0x100 % 0x100) as u8,
        (n % 0x100) as u8,
    ]
}

/// As many zero bytes as `n` bytes lack to a multiple of four.
#[verifier::opaque]
pub open spec fn padding(n: int) -> Seq<u8> {
    Seq::new(((4 - n % 4) % 4) as nat, |i: int| 0u8)
}

/// What stands in a node, written.
pub open spec fn items_written(items: Seq<Item>) -> Seq<u8>
    decreases items,
{
    if items.len() == 0 {
        Seq::empty()
    } else {
        (match items[0] {
            Item::Prop(name, value, offset) => be(3) + be(value.len() as int) + be(offset) + value
                + padding(value.len() as int),
            Item::Node(child) => node_opened(child) + be(2),
            Item::Nop => be(4),
        }) + items_written(items.drop_first())
    }
}

/// A node, written, but for the token that ends it.
pub open spec fn node_opened(node: Source) -> Seq<u8>
    decreases node,
{
    let name = encode_utf8(node.name);
    be(1) + name + seq![0u8] + padding(name.len() as int + 1) + items_written(node.items)
}

/// The properties among what stands in a node.
pub open spec fn props_among(items: Seq<Item>) -> Seq<Prop>
    decreases items.len(),
{
    if items.len() == 0 {
        Seq::empty()
    } else {
        (match items[0] {
            Item::Prop(name, value, _) => seq![(name, value)],
            _ => Seq::empty(),
        }) + props_among(items.drop_first())
    }
}

/// The children among what stands in a node.
pub open spec fn children_among(items: Seq<Item>) -> Seq<Tree>
    decreases items,
{
    if items.len() == 0 {
        Seq::empty()
    } else {
        (match items[0] {
            Item::Node(child) => seq![told(child)],
            _ => Seq::empty(),
        }) + children_among(items.drop_first())
    }
}

/// What a node says once it is read: its properties and its children. One
/// without a property of the name `name` has one in front that holds its own
/// name; that of a node without a name holds a slash.
pub open spec fn told(node: Source) -> Tree
    decreases node,
{
    let props = props_among(node.items);
    Tree {
        props: if exists|i: int| 0 <= i < props.len() && (#[trigger] props[i]).0 == "name"@ {
            props
        } else if node.name.len() == 0 {
            seq![("name"@, seq![0x2fu8])] + props
        } else {
            seq![("name"@, encode_utf8(node.name))] + props
        },
        children: children_among(node.items),
    }
}

/// Whether a text can stand in front of a zero byte.
pub open spec fn no_zero(text: Seq<char>) -> bool {
    forall|i: int| 0 <= i < encode_utf8(text).len() ==> #[trigger] encode_utf8(text)[i] != 0
}

/// Whether a text and a zero byte stand at `at`.
pub open spec fn text_held(b: Seq<u8>, at: int, text: Seq<char>) -> bool {
    let t = encode_utf8(text) + seq![0u8];
    &&& no_zero(text)
    &&& 0 <= at
    &&& at + t.len() <= b.len()
    &&& b.subrange(at, at + t.len()) == t
}

/// Whether what stands in a node can be written, and the names of all its
/// properties stand where they should.
pub open spec fn items_ok(b: Seq<u8>, strings: int, items: Seq<Item>) -> bool
    decreases items,
{
    if items.len() == 0 {
        true
    } else {
        &&& match items[0] {
            Item::Prop(name, value, offset) => {
                &&& value.len() < 0x1_0000_0000
                &&& 0 <= offset < 0x1_0000_0000
                &&& encode_utf8(name).len() < 32
                &&& text_held(b, strings + offset, name)
            },
            Item::Node(child) => node_ok(b, strings, child),
            Item::Nop => true,
        }
        &&& items_ok(b, strings, items.drop_first())
    }
}

/// Whether a node can be written.
pub open spec fn node_ok(b: Seq<u8>, strings: int, node: Source) -> bool
    decreases node,
{
    no_zero(node.name) && items_ok(b, strings, node.items)
}

proof fn lemma_be(n: int)
    requires
        0 <= n < 0x1_0000_0000,
    ensures
        be(n).len() == 4,
        bytes::be32(be(n), 0) == n,
{
    reveal(be);
}

proof fn lemma_padding(n: int)
    requires
        0 <= n,
    ensures
        padding(n).len() == (4 - n % 4) % 4,
{
    reveal(padding);
}

/// A number that was written at `at` is read there.
proof fn lemma_token(b: Seq<u8>, at: int, n: int)
    requires
        0 <= n < 0x1_0000_0000,
        0 <= at,
        at + 4 <= b.len(),
        b.subrange(at, at + 4) == be(n),
    ensures
        device_tree::token(b, at) == Some(n),
{
    lemma_be(n);
    let s = b.subrange(at, at + 4);
    assert(s[0] == b[at] && s[1] == b[at + 1] && s[2] == b[at + 2] && s[3] == b[at + 3]);
}

proof fn lemma_string_end(b: Seq<u8>, pos: int, end: int)
    requires
        0 <= pos <= end < b.len(),
        b[end] == 0,
        forall|i: int| pos <= i < end ==> b[i] != 0,
    ensures
        device_tree::string_end(b, pos) == Some(end),
    decreases end - pos,
{
    if pos < end {
        lemma_string_end(b, pos + 1, end);
    }
}

proof fn lemma_string(b: Seq<u8>, at: int, text: Seq<char>)
    requires
        text_held(b, at, text),
    ensures
        device_tree::string_at(b, at) == Some((text, at + encode_utf8(text).len())),
{
    let e = encode_utf8(text);
    let end = at + e.len();
    let t = e + seq![0u8];
    let s = b.subrange(at, at + t.len());
    assert(s[e.len() as int] == t[e.len() as int]);
    assert forall|i: int| at <= i < end implies b[i] != 0 by {
        assert(s[i - at] == t[i - at]);
        assert(t[i - at] == e[i - at]);
    }
    lemma_string_end(b, at, end);
    assert(b.subrange(at, end) =~= e) by {
        assert forall|i: int| 0 <= i < e.len() implies b.subrange(at, end)[i] == e[i] by {
            assert(s[i] == t[i]);
        }
    }
    encode_utf8_valid_utf8(text);
    encode_utf8_decode_utf8(text);
}

/// A part of what stands at `at` stands there too.
proof fn lemma_part(b: Seq<u8>, at: int, x: Seq<u8>, y: Seq<u8>, z: Seq<u8>)
    requires
        0 <= at,
        at + x.len() + y.len() + z.len() <= b.len(),
        b.subrange(at, at + x.len() + y.len() + z.len()) == x + y + z,
    ensures
        b.subrange(at + x.len(), at + x.len() + y.len()) == y,
        b.subrange(at, at + x.len()) == x,
{
    let w = b.subrange(at, at + x.len() + y.len() + z.len());
    assert(w.subrange(x.len() as int, (x.len() + y.len()) as int) =~= y);
    assert(w.subrange(0, x.len() as int) =~= x);
    assert(b.subrange(at + x.len(), at + x.len() + y.len()) =~= w.subrange(
        x.len() as int,
        (x.len() + y.len()) as int,
    ));
    assert(b.subrange(at, at + x.len()) =~= w.subrange(0, x.len() as int));
}

/// A property is read where it was written.
proof fn lemma_prop(
    b: Seq<u8>,
    strings: int,
    pos: int,
    name: Seq<char>,
    value: Seq<u8>,
    offset: int,
)
    requires
        0 <= pos,
        pos % 4 == 0,
        b.len() + 3 <= usize::MAX,
        value.len() < 0x1_0000_0000,
        0 <= offset < 0x1_0000_0000,
        encode_utf8(name).len() < 32,
        text_held(b, strings + offset, name),
        ({
            let w = be(3) + be(value.len() as int) + be(offset) + value + padding(
                value.len() as int,
            );
            &&& pos + w.len() <= b.len()
            &&& b.subrange(pos, pos + w.len()) == w
        }),
    ensures
        device_tree::token(b, pos) == Some(3int),
        device_tree::prop_at(b, strings, pos) == Some(
            (
                (name, value),
                pos + (be(3) + be(value.len() as int) + be(offset) + value + padding(
                    value.len() as int,
                )).len(),
            ),
        ),
{
    let n = value.len() as int;
    let none = Seq::<u8>::empty();
    let p = padding(n);
    lemma_be(3);
    lemma_be(n);
    lemma_be(offset);
    lemma_padding(n);
    let w = be(3) + be(n) + be(offset) + value + p;
    assert(w =~= none + be(3) + (be(n) + be(offset) + value + p));
    lemma_part(b, pos, none, be(3), be(n) + be(offset) + value + p);
    assert(w =~= be(3) + be(n) + (be(offset) + value + p));
    lemma_part(b, pos, be(3), be(n), be(offset) + value + p);
    assert(w =~= (be(3) + be(n)) + be(offset) + (value + p));
    lemma_part(b, pos, be(3) + be(n), be(offset), value + p);
    assert(w =~= (be(3) + be(n) + be(offset)) + value + p);
    lemma_part(b, pos, be(3) + be(n) + be(offset), value, p);
    lemma_token(b, pos, 3);
    lemma_token(b, pos + 4, n);
    lemma_token(b, pos + 8, offset);
    lemma_string(b, strings + offset, name);
    assert(device_tree::align4(pos + 12 + n) == Some(pos + 12 + n + p.len()));
}

/// What was written is a whole number of tokens.
proof fn lemma_written_len(items: Seq<Item>)
    ensures
        items_written(items).len() % 4 == 0,
    decreases items,
{
    if items.len() > 0 {
        lemma_written_len(items.drop_first());
        lemma_be(2);
        lemma_be(3);
        lemma_be(4);
        match items[0] {
            Item::Prop(name, value, offset) => {
                assert(be(value.len() as int).len() == 4 && be(offset).len() == 4) by {
                    reveal(be);
                }
                lemma_padding(value.len() as int);
            },
            Item::Node(child) => {
                lemma_opened_len(child);
            },
            Item::Nop => {},
        }
    }
}

proof fn lemma_opened_len(node: Source)
    ensures
        node_opened(node).len() % 4 == 0,
        node_opened(node).len() >= 8,
    decreases node,
{
    lemma_be(1);
    lemma_padding(encode_utf8(node.name).len() as int + 1);
    lemma_written_len(node.items);
}

/// One item, written.
spec fn item_written(item: Item) -> Seq<u8> {
    match item {
        Item::Prop(name, value, offset) => be(3) + be(value.len() as int) + be(offset) + value
            + padding(value.len() as int),
        Item::Node(child) => node_opened(child) + be(2),
        Item::Nop => be(4),
    }
}

/// What a node says with one more item read.
spec fn with_item(n: Tree, item: Item) -> Tree {
    match item {
        Item::Prop(name, value, _) => Tree {
            props: n.props.push((name, value)),
            children: n.children,
        },
        Item::Node(child) => Tree { props: n.props, children: n.children.push(told(child)) },
        Item::Nop => n,
    }
}

proof fn lemma_with_item(n: Tree, items: Seq<Item>)
    requires
        items.len() > 0,
    ensures
        n.props + props_among(items) == with_item(n, items[0]).props + props_among(
            items.drop_first(),
        ),
        n.children + children_among(items) == with_item(n, items[0]).children + children_among(
            items.drop_first(),
        ),
        items_written(items) == item_written(items[0]) + items_written(items.drop_first()),
{
    assert(n.props + props_among(items) =~= with_item(n, items[0]).props + props_among(
        items.drop_first(),
    ));
    assert(n.children + children_among(items) =~= with_item(n, items[0]).children + children_among(
        items.drop_first(),
    ));
}

/// One item is read where it was written.
proof fn lemma_item(b: Seq<u8>, strings: int, pos: int, items: Seq<Item>, n: Tree)
    requires
        0 <= pos,
        pos % 4 == 0,
        b.len() + 3 <= usize::MAX,
        items.len() > 0,
        items_ok(b, strings, items),
        pos + item_written(items[0]).len() <= b.len(),
        b.subrange(pos, pos + item_written(items[0]).len()) == item_written(items[0]),
    ensures
        device_tree::body_at(b, strings, pos, n) == device_tree::body_at(
            b,
            strings,
            pos + item_written(items[0]).len(),
            with_item(n, items[0]),
        ),
    decreases items, 0int,
{
    match items[0] {
        Item::Prop(name, value, offset) => {
            lemma_prop(b, strings, pos, name, value, offset);
        },
        Item::Node(child) => {
            lemma_be(2);
            lemma_node(b, strings, pos, child, 2);
        },
        Item::Nop => {
            lemma_be(4);
            lemma_token(b, pos, 4);
        },
    }
}

/// Reading goes on behind what was written, with all of it read.
#[verifier::spinoff_prover]
#[verifier::rlimit(40)]
proof fn lemma_items(b: Seq<u8>, strings: int, pos: int, items: Seq<Item>, n: Tree)
    requires
        0 <= pos,
        pos % 4 == 0,
        b.len() + 3 <= usize::MAX,
        items_ok(b, strings, items),
        pos + items_written(items).len() <= b.len(),
        b.subrange(pos, pos + items_written(items).len()) == items_written(items),
    ensures
        device_tree::body_at(b, strings, pos, n) == device_tree::body_at(
            b,
            strings,
            pos + items_written(items).len(),
            Tree {
                props: n.props + props_among(items),
                children: n.children + children_among(items),
            },
        ),
    decreases items, 1int,
{
    let none = Seq::<u8>::empty();
    if items.len() == 0 {
        assert(n.props + props_among(items) =~= n.props);
        assert(n.children + children_among(items) =~= n.children);
    } else {
        let rest = items.drop_first();
        let h = item_written(items[0]);
        let wr = items_written(rest);
        lemma_with_item(n, items);
        lemma_written_len(rest);
        lemma_written_len(items);
        assert(items_written(items) =~= h + wr + none);
        lemma_part(b, pos, h, wr, none);
        lemma_item(b, strings, pos, items, n);
        lemma_items(b, strings, pos + h.len(), rest, with_item(n, items[0]));
    }
}

/// A node is read where it was written.
proof fn lemma_node(b: Seq<u8>, strings: int, pos: int, node: Source, last: int)
    requires
        0 <= pos,
        pos % 4 == 0,
        b.len() + 3 <= usize::MAX,
        node_ok(b, strings, node),
        last == 2 || last == 9,
        pos + node_opened(node).len() + 4 <= b.len(),
        b.subrange(pos, pos + node_opened(node).len() + 4) == node_opened(node) + be(last),
    ensures
        device_tree::token(b, pos) == Some(1int),
        device_tree::node_at(b, strings, pos) == Some(
            (
                told(node),
                pos + node_opened(node).len() + if last == 2 {
                    4int
                } else {
                    0
                },
            ),
        ),
    decreases node, 2int,
{
    let wi = items_written(node.items);
    let at = pos + node_opened(node).len() - wi.len();
    lemma_node_parts(b, pos, node, last);
    lemma_written_len(node.items);
    lemma_opened_len(node);
    lemma_string(b, pos + 4, node.name);
    let empty = Tree { props: Seq::empty(), children: Seq::empty() };
    lemma_items(b, strings, at, node.items, empty);
    let m = Tree {
        props: empty.props + props_among(node.items),
        children: empty.children + children_among(node.items),
    };
    assert(m.props =~= props_among(node.items));
    assert(m.children =~= children_among(node.items));
    lemma_named(node, m);
    assert(device_tree::body_at(b, strings, at + wi.len(), m) == Some(
        (
            m,
            at + wi.len() + if last == 2 {
                4int
            } else {
                0
            },
        ),
    ));
}

/// Where the parts of a node are.
proof fn lemma_node_parts(b: Seq<u8>, pos: int, node: Source, last: int)
    requires
        0 <= pos,
        pos % 4 == 0,
        b.len() + 3 <= usize::MAX,
        no_zero(node.name),
        last == 2 || last == 9,
        pos + node_opened(node).len() + 4 <= b.len(),
        b.subrange(pos, pos + node_opened(node).len() + 4) == node_opened(node) + be(last),
    ensures
        ({
            let wi = items_written(node.items);
            let at = pos + node_opened(node).len() - wi.len();
            &&& device_tree::token(b, pos) == Some(1int)
            &&& text_held(b, pos + 4, node.name)
            &&& device_tree::align4(pos + 4 + encode_utf8(node.name).len() + 1) == Some(at)
            &&& b.subrange(at, at + wi.len()) == wi
            &&& device_tree::token(b, at + wi.len()) == Some(last)
        }),
{
    let name = encode_utf8(node.name);
    let t = name + seq![0u8];
    let p = padding(name.len() as int + 1);
    let wi = items_written(node.items);
    lemma_be(1);
    lemma_be(last);
    lemma_padding(name.len() as int + 1);
    assert(node_opened(node) + be(last) =~= be(1) + t + p + wi + be(last));
    lemma_five(b, pos, be(1), t, p, wi, be(last));
    lemma_token(b, pos, 1);
    lemma_token(b, pos + 4 + t.len() + p.len() + wi.len(), last);
}

/// Where five parts are.
proof fn lemma_five(
    b: Seq<u8>,
    pos: int,
    k: Seq<u8>,
    l: Seq<u8>,
    m: Seq<u8>,
    n: Seq<u8>,
    o: Seq<u8>,
)
    requires
        0 <= pos,
        pos + k.len() + l.len() + m.len() + n.len() + o.len() <= b.len(),
        b.subrange(pos, pos + k.len() + l.len() + m.len() + n.len() + o.len()) == k + l + m + n
            + o,
    ensures
        b.subrange(pos, pos + k.len()) == k,
        b.subrange(pos + k.len(), pos + k.len() + l.len()) == l,
        ({
            let at = pos + k.len() + l.len() + m.len();
            &&& b.subrange(at, at + n.len()) == n
            &&& b.subrange(at + n.len(), at + n.len() + o.len()) == o
        }),
{
    let w = b.subrange(pos, pos + k.len() + l.len() + m.len() + n.len() + o.len());
    let v = k + l + m + n + o;
    let at = pos + k.len() + l.len() + m.len();
    assert(w == v);
    assert forall|i: int| 0 <= i < v.len() implies b[pos + i] == #[trigger] v[i] by {
        assert(w[i] == b[pos + i]);
    }
    assert(b.subrange(pos, pos + k.len()) =~= k) by {
        assert forall|i: int| 0 <= i < k.len() implies b[pos + i] == k[i] by {
            assert(v[i] == k[i]);
        }
    }
    assert(b.subrange(pos + k.len(), pos + k.len() + l.len()) =~= l) by {
        assert forall|i: int| 0 <= i < l.len() implies b[pos + k.len() + i] == l[i] by {
            assert(v[k.len() + i] == l[i]);
        }
    }
    assert(b.subrange(at, at + n.len()) =~= n) by {
        assert forall|i: int| 0 <= i < n.len() implies b[at + i] == n[i] by {
            assert(v[at - pos + i] == n[i]);
        }
    }
    assert(b.subrange(at + n.len(), at + n.len() + o.len()) =~= o) by {
        assert forall|i: int| 0 <= i < o.len() implies b[at + n.len() + i] == o[i] by {
            assert(v[at - pos + n.len() + i] == o[i]);
        }
    }
}

/// The name property that a node gets.
proof fn lemma_named(node: Source, m: Tree)
    requires
        m.props == props_among(node.items),
        m.children == children_among(node.items),
    ensures
        device_tree::named(m, node.name) == told(node),
{
    let props = m.props;
    if !(exists|i: int| 0 <= i < props.len() && (#[trigger] props[i]).0 == "name"@) {
        reveal_strlit("/");
        is_ascii_chars_encode_utf8("/"@);
        assert(encode_utf8("/"@) =~= seq![0x2fu8]);
        assert(props.insert(0, ("name"@, seq![0x2fu8])) =~= seq![("name"@, seq![0x2fu8])] + props);
        assert(props.insert(0, ("name"@, encode_utf8(node.name))) =~= seq![
            ("name"@, encode_utf8(node.name)),
        ] + props);
    }
}

/// A flattened device tree is read back as it was written: whatever properties
/// and children its nodes have, in whatever order and however deep, the tree
/// that comes out has all of them, in that order. A node without a name property
/// gets one. The root may end with the token that ends the whole tree.
pub proof fn law_flattened_tree_reads_back(
    b: Seq<u8>,
    total: int,
    start: int,
    strings: int,
    root: Source,
    last: int,
)
    requires
        b.len() >= 16,
        bytes::be32(b, 0) == 0xd00d_feed,
        bytes::be32(b, 4) == total,
        bytes::be32(b, 8) == start,
        bytes::be32(b, 12) == strings,
        total <= b.len(),
        total + 3 <= usize::MAX,
        strings < total,
        start % 4 == 0,
        last == 2 || last == 9,
        node_ok(b.take(total), strings, root),
        start + node_opened(root).len() + 4 <= total,
        b.subrange(start, start + node_opened(root).len() + 4) == node_opened(root) + be(last),
    ensures
        device_tree::fdt_tree(b) == Some(told(root)),
{
    let c = b.take(total);
    lemma_opened_len(root);
    let e = start + node_opened(root).len() + 4;
    assert(0 <= start);
    assert(c.subrange(start, e) =~= b.subrange(start, e));
    lemma_node(c, strings, start, root, last);
}

// ── Writing a whole tree ───────────────────────────────────────────────────

/// The names of properties, each in front of a zero byte.
pub open spec fn prop_names(props: Seq<Prop>) -> Seq<u8>
    decreases props.len(),
{
    if props.len() == 0 {
        Seq::empty()
    } else {
        encode_utf8(props[0].0) + seq![0u8] + prop_names(props.drop_first())
    }
}

/// The names of all properties of a tree.
pub open spec fn tree_names(t: Tree) -> Seq<u8>
    decreases t,
{
    prop_names(t.props) + trees_names(t.children)
}

/// The names of all properties of some trees.
pub open spec fn trees_names(ts: Seq<Tree>) -> Seq<u8>
    decreases ts,
{
    if ts.len() == 0 {
        Seq::empty()
    } else {
        tree_names(ts[0]) + trees_names(ts.drop_first())
    }
}

/// Properties, with their names from `offset` on in the block of strings.
pub open spec fn props_listed(props: Seq<Prop>, offset: int) -> Seq<Item>
    decreases props.len(),
{
    if props.len() == 0 {
        Seq::empty()
    } else {
        seq![Item::Prop(props[0].0, props[0].1, offset)] + props_listed(
            props.drop_first(),
            offset + encode_utf8(props[0].0).len() + 1,
        )
    }
}

/// A tree, with its names from `offset` on in the block of strings.
pub open spec fn tree_listed(t: Tree, offset: int) -> Source
    decreases t,
{
    Source {
        name: Seq::empty(),
        items: props_listed(t.props, offset) + trees_listed(
            t.children,
            offset + prop_names(t.props).len(),
        ),
    }
}

/// Trees, with their names from `offset` on in the block of strings.
pub open spec fn trees_listed(ts: Seq<Tree>, offset: int) -> Seq<Item>
    decreases ts,
{
    if ts.len() == 0 {
        Seq::empty()
    } else {
        seq![Item::Node(tree_listed(ts[0], offset))] + trees_listed(
            ts.drop_first(),
            offset + tree_names(ts[0]).len(),
        )
    }
}

/// Whether properties can be written.
pub open spec fn props_fit(props: Seq<Prop>) -> bool {
    forall|i: int|
        0 <= i < props.len() ==> {
            &&& no_zero((#[trigger] props[i]).0)
            &&& encode_utf8(props[i].0).len() < 32
            &&& props[i].1.len() < 0x1_0000_0000
        }
}

/// Whether a tree can be written: each node has a name property.
pub open spec fn tree_fits(t: Tree) -> bool
    decreases t,
{
    &&& props_fit(t.props)
    &&& exists|i: int| 0 <= i < t.props.len() && (#[trigger] t.props[i]).0 == "name"@
    &&& trees_fit(t.children)
}

/// Whether trees can be written.
pub open spec fn trees_fit(ts: Seq<Tree>) -> bool
    decreases ts,
{
    ts.len() == 0 || tree_fits(ts[0]) && trees_fit(ts.drop_first())
}

/// The tokens of a tree.
pub open spec fn structure(t: Tree) -> Seq<u8> {
    node_opened(tree_listed(t, 0)) + be(2) + be(9)
}

/// A tree as a flattened device tree: a header, room for reservations, the
/// tokens and the names.
pub open spec fn flattened(t: Tree) -> Seq<u8> {
    let s = structure(t);
    let n = tree_names(t);
    be(0xd00d_feed) + be(56 + s.len() as int + n.len() as int) + be(56) + be(56 + s.len() as int) + Seq::new(
        40,
        |i: int| 0u8,
    ) + s + n
}

/// What was listed is in order if its names stand where they should.
proof fn lemma_props_listed(b: Seq<u8>, strings: int, props: Seq<Prop>, offset: int)
    requires
        props_fit(props),
        0 <= strings,
        0 <= offset,
        strings + offset + prop_names(props).len() <= b.len(),
        b.len() < 0x1_0000_0000,
        b.subrange(strings + offset, strings + offset + prop_names(props).len()) == prop_names(
            props,
        ),
    ensures
        items_ok(b, strings, props_listed(props, offset)),
        props_among(props_listed(props, offset)) == props,
        children_among(props_listed(props, offset)) == Seq::<Tree>::empty(),
    decreases props.len(),
{
    let l = props_listed(props, offset);
    if props.len() > 0 {
        let rest = props.drop_first();
        let t = encode_utf8(props[0].0) + seq![0u8];
        let none = Seq::<u8>::empty();
        assert(prop_names(props) =~= t + prop_names(rest) + none);
        lemma_part(b, strings + offset, t, prop_names(rest), none);
        assert forall|i: int| 0 <= i < rest.len() implies no_zero((#[trigger] rest[i]).0)
            && encode_utf8(rest[i].0).len() < 32 && rest[i].1.len() < 0x1_0000_0000 by {
            assert(rest[i] == props[i + 1]);
        }
        assert(props[0] == props[0]);
        lemma_props_listed(b, strings, rest, offset + t.len());
        assert(l.drop_first() =~= props_listed(rest, offset + t.len()));
        assert(l[0] == Item::Prop(props[0].0, props[0].1, offset));
        assert(props_among(l) =~= props);
        assert(children_among(l) =~= Seq::<Tree>::empty());
    } else {
        assert(props_among(l) =~= props);
    }
}

proof fn lemma_tree_listed(b: Seq<u8>, strings: int, t: Tree, offset: int)
    requires
        tree_fits(t),
        0 <= strings,
        0 <= offset,
        strings + offset + tree_names(t).len() <= b.len(),
        b.len() < 0x1_0000_0000,
        b.subrange(strings + offset, strings + offset + tree_names(t).len()) == tree_names(t),
    ensures
        node_ok(b, strings, tree_listed(t, offset)),
        told(tree_listed(t, offset)) == t,
    decreases t,
{
    let none = Seq::<u8>::empty();
    let pn = prop_names(t.props);
    let tn = trees_names(t.children);
    assert(tree_names(t) =~= pn + tn + none);
    lemma_part(b, strings + offset, pn, tn, none);
    lemma_props_listed(b, strings, t.props, offset);
    lemma_trees_listed(b, strings, t.children, offset + pn.len());
    let a = props_listed(t.props, offset);
    let c = trees_listed(t.children, offset + pn.len());
    lemma_items_concat(b, strings, a, c);
    let node = tree_listed(t, offset);
    assert(props_among(node.items) =~= t.props);
    assert(children_among(node.items) =~= t.children);
    assert(encode_utf8(node.name).len() == 0);
    assert(told(node).props == t.props);
}

proof fn lemma_trees_listed(b: Seq<u8>, strings: int, ts: Seq<Tree>, offset: int)
    requires
        trees_fit(ts),
        0 <= strings,
        0 <= offset,
        strings + offset + trees_names(ts).len() <= b.len(),
        b.len() < 0x1_0000_0000,
        b.subrange(strings + offset, strings + offset + trees_names(ts).len()) == trees_names(ts),
    ensures
        items_ok(b, strings, trees_listed(ts, offset)),
        props_among(trees_listed(ts, offset)) == Seq::<Prop>::empty(),
        children_among(trees_listed(ts, offset)) == ts,
    decreases ts,
{
    let l = trees_listed(ts, offset);
    if ts.len() > 0 {
        let rest = ts.drop_first();
        let none = Seq::<u8>::empty();
        let n = tree_names(ts[0]);
        assert(trees_names(ts) =~= n + trees_names(rest) + none);
        lemma_part(b, strings + offset, n, trees_names(rest), none);
        lemma_tree_listed(b, strings, ts[0], offset);
        lemma_trees_listed(b, strings, rest, offset + n.len());
        assert(l.drop_first() =~= trees_listed(rest, offset + n.len()));
        assert(l[0] == Item::Node(tree_listed(ts[0], offset)));
        assert(props_among(l) =~= Seq::<Prop>::empty());
        assert(children_among(l) =~= ts);
    } else {
        assert(children_among(l) =~= ts);
    }
}

proof fn lemma_items_concat(b: Seq<u8>, strings: int, x: Seq<Item>, y: Seq<Item>)
    requires
        items_ok(b, strings, x),
        items_ok(b, strings, y),
    ensures
        items_ok(b, strings, x + y),
        props_among(x + y) == props_among(x) + props_among(y),
        children_among(x + y) == children_among(x) + children_among(y),
    decreases x.len(),
{
    if x.len() == 0 {
        assert(x + y =~= y);
        assert(props_among(x) + props_among(y) =~= props_among(y));
        assert(children_among(x) + children_among(y) =~= children_among(y));
    } else {
        lemma_items_concat(b, strings, x.drop_first(), y);
        assert((x + y).drop_first() =~= x.drop_first() + y);
        assert((x + y)[0] == x[0]);
        assert(props_among(x + y) =~= props_among(x) + props_among(y));
        assert(children_among(x + y) =~= children_among(x) + children_among(y));
    }
}

/// Any tree whose nodes all have a name is what comes out when it is written as
/// a flattened device tree and read.
pub proof fn law_written_tree_reads_back(t: Tree)
    requires
        tree_fits(t),
        flattened(t).len() < 0x1_0000_0000,
        flattened(t).len() + 3 <= usize::MAX,
    ensures
        device_tree::fdt_tree(flattened(t)) == Some(t),
{
    let b = flattened(t);
    let s = structure(t);
    let n = tree_names(t);
    let none = Seq::<u8>::empty();
    let room = Seq::new(40, |i: int| 0u8);
    let strings = 56 + s.len() as int;
    let total = strings + n.len() as int;
    lemma_be(0xd00d_feed);
    lemma_be(56);
    lemma_be(2);
    lemma_be(9);
    assert(be(total).len() == 4 && be(strings).len() == 4) by {
        reveal(be);
    }
    lemma_header(be(0xd00d_feed), be(total), be(56), be(strings), room, s, n, b);
    lemma_token(b, 0, 0xd00d_feed);
    lemma_token(b, 4, total);
    lemma_token(b, 8, 56);
    lemma_token(b, 12, strings);
    assert(b.take(total) =~= b);
    lemma_tree_listed(b, strings, t, 0);
    let root = tree_listed(t, 0);
    let o = node_opened(root);
    let two = be(2);
    let nine = be(9);
    assert(s =~= (o + two) + nine + none);
    lemma_part(b, 56, o + two, nine, none);
    assert(n.len() > 0) by {
        assert(tree_names(t) == prop_names(t.props) + trees_names(t.children));
        assert(t.props.len() > 0);
    }
    law_flattened_tree_reads_back(b, total, 56, strings, root, 2);
}

/// Where the parts of a flattened device tree are.
proof fn lemma_header(
    k: Seq<u8>,
    l: Seq<u8>,
    m: Seq<u8>,
    o: Seq<u8>,
    room: Seq<u8>,
    s: Seq<u8>,
    n: Seq<u8>,
    b: Seq<u8>,
)
    requires
        k.len() == 4,
        l.len() == 4,
        m.len() == 4,
        o.len() == 4,
        room.len() == 40,
        b == k + l + m + o + room + s + n,
    ensures
        b.len() == 56 + s.len() + n.len(),
        b.subrange(0, 4) == k,
        b.subrange(4, 8) == l,
        b.subrange(8, 12) == m,
        b.subrange(12, 16) == o,
        b.subrange(56, 56 + s.len() as int) == s,
        b.subrange(56 + s.len() as int, 56 + s.len() + n.len() as int) == n,
{
    assert(b.subrange(0, 4) =~= k);
    assert(b.subrange(4, 8) =~= l);
    assert(b.subrange(8, 12) =~= m);
    assert(b.subrange(12, 16) =~= o);
    assert(b.subrange(56, 56 + s.len() as int) =~= s);
    assert(b.subrange(56 + s.len() as int, 56 + s.len() + n.len() as int) =~= n);
}

/// The header of a flattened device tree says what it is and how long it is.
pub proof fn law_header_says_length(t: Tree)
    requires
        flattened(t).len() < 0x1_0000_0000,
    ensures
        device_tree::token(flattened(t), 0) == Some(0xd00d_feedint),
        device_tree::token(flattened(t), 4) == Some(flattened(t).len() as int),
        flattened(t).len() >= 56,
{
    let b = flattened(t);
    let s = structure(t);
    let n = tree_names(t);
    let room = Seq::new(40, |i: int| 0u8);
    let strings = 56 + s.len() as int;
    let total = strings + n.len() as int;
    lemma_be(0xd00d_feed);
    lemma_be(56);
    assert(be(total).len() == 4 && be(strings).len() == 4) by {
        reveal(be);
    }
    lemma_header(be(0xd00d_feed), be(total), be(56), be(strings), room, s, n, b);
    lemma_token(b, 0, 0xd00d_feed);
    lemma_token(b, 4, total);
}

} // verus!
