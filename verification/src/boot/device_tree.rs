//! Device trees in memory, and how one is read from a flattened device tree.

use crate::bytes;
use crate::text;
use vstd::prelude::*;
use vstd::utf8::*;

verus! {

/// The number at the start of a flattened device tree.
pub const FDT_MAGIC: u32 = 0xd00d_feed;

pub const FDT_BEGIN_NODE: u32 = 1;

pub const FDT_END_NODE: u32 = 2;

pub const FDT_PROP: u32 = 3;

pub const FDT_NOP: u32 = 4;

pub const FDT_END: u32 = 9;

/// Bytes of the name field of a property.
pub const NAME_LEN: usize = 32;

/// The tree is malformed or cannot be written.
#[derive(Clone, Copy, Debug, PartialEq, Eq, Structural)]
pub struct LoadError;

/// A property of a node.
pub struct AdtProp {
    /// Its name.
    pub name: String,
    /// Its value.
    pub value: Vec<u8>,
}

/// A node of a device tree.
pub struct AdtNode {
    /// Its properties, in order.
    pub props: Vec<AdtProp>,
    /// Its children, in order.
    pub children: Vec<AdtNode>,
}

/// What a property says: its name and its value.
pub type Prop = (Seq<char>, Seq<u8>);

/// What a node says.
#[verifier::ext_equal]
pub struct Tree {
    pub props: Seq<Prop>,
    pub children: Seq<Tree>,
}

/// What a node says.
pub open spec fn tree(n: AdtNode) -> Tree
    decreases n,
{
    Tree {
        props: prop_views(n.props@),
        children: Seq::new(
            n.children@.len(),
            |i: int|
                if 0 <= i < n.children@.len() {
                    tree(n.children@[i])
                } else {
                    arbitrary()
                },
        ),
    }
}

/// What properties say.
pub open spec fn prop_views(v: Seq<AdtProp>) -> Seq<Prop> {
    Seq::new(v.len(), |i: int| (v[i].name@, v[i].value@))
}

/// What nodes say.
pub open spec fn trees(v: Seq<AdtNode>) -> Seq<Tree> {
    Seq::new(v.len(), |i: int| tree(v[i]))
}

// ── Reading a flattened device tree ────────────────────────────────────────

/// The big-endian number at `pos`, if it lies inside.
pub open spec fn token(b: Seq<u8>, pos: int) -> Option<int> {
    if 0 <= pos && pos + 4 <= b.len() {
        Some(bytes::be32(b, pos))
    } else {
        None
    }
}

/// Where the string that starts at `pos` ends.
pub open spec fn string_end(b: Seq<u8>, pos: int) -> Option<int>
    decreases b.len() - pos,
{
    if pos < 0 || pos >= b.len() {
        None
    } else if b[pos] == 0 {
        Some(pos)
    } else {
        string_end(b, pos + 1)
    }
}

/// The text at `pos` up to a zero byte, and where that byte is.
pub open spec fn string_at(b: Seq<u8>, pos: int) -> Option<(Seq<char>, int)> {
    match string_end(b, pos) {
        None => None,
        Some(e) => if valid_utf8(b.subrange(pos, e)) {
            Some((decode_utf8(b.subrange(pos, e)), e))
        } else {
            None
        },
    }
}

/// A position rounded up to a multiple of four; none if that overflows.
pub open spec fn align4(pos: int) -> Option<int> {
    if pos + 3 > usize::MAX {
        None
    } else {
        Some((pos + 3) / 4 * 4)
    }
}

/// Whether a property can have this name.
pub open spec fn short_name(name: Seq<char>) -> bool {
    encode_utf8(name).len() < NAME_LEN
}

/// The property whose token is at `pos`, and where it ends.
pub open spec fn prop_at(b: Seq<u8>, strings: int, pos: int) -> Option<(Prop, int)> {
    match (token(b, pos + 4), token(b, pos + 8)) {
        (Some(len), Some(nameoff)) => match string_at(b, strings + nameoff) {
            Some((name, _)) => if pos + 12 + len <= b.len() && short_name(name) {
                match align4(pos + 12 + len) {
                    Some(end) => Some(((name, b.subrange(pos + 12, pos + 12 + len)), end)),
                    None => None,
                }
            } else {
                None
            },
            None => None,
        },
        _ => None,
    }
}

/// Whether reading went from `pos` on to `end`.
pub open spec fn moved(b: Seq<u8>, pos: int, end: int) -> bool {
    pos < end <= b.len() + 3
}

/// The rest of a node from `pos` on, of which `n` was read before, and where it
/// ends: properties and child nodes up to the end token, which is left in place
/// if it is the end of the whole tree.
pub open spec fn body_at(b: Seq<u8>, strings: int, pos: int, n: Tree) -> Option<(Tree, int)>
    decreases b.len() + 3 - pos, 1int,
{
    match token(b, pos) {
        None => None,
        Some(t) => if t == FDT_PROP {
            match prop_at(b, strings, pos) {
                Some((p, end)) => if moved(b, pos, end) {
                    body_at(
                        b,
                        strings,
                        end,
                        Tree { props: n.props.push(p), children: n.children },
                    )
                } else {
                    None
                },
                None => None,
            }
        } else if t == FDT_BEGIN_NODE {
            match node_at(b, strings, pos) {
                Some((c, end)) => if moved(b, pos, end) {
                    body_at(
                        b,
                        strings,
                        end,
                        Tree { props: n.props, children: n.children.push(c) },
                    )
                } else {
                    None
                },
                None => None,
            }
        } else if t == FDT_END_NODE {
            Some((n, pos + 4))
        } else if t == FDT_NOP {
            body_at(b, strings, pos + 4, n)
        } else if t == FDT_END {
            Some((n, pos))
        } else {
            None
        },
    }
}

/// Whether one of the properties is the node's name.
pub open spec fn has_name(props: Seq<Prop>) -> bool {
    exists|i: int| 0 <= i < props.len() && (#[trigger] props[i]).0 == "name"@
}

/// A node that has a name property: the node's own name, `/` if that is empty,
/// unless it has one already.
pub open spec fn named(n: Tree, name: Seq<char>) -> Tree {
    if has_name(n.props) {
        n
    } else {
        let value = if name.len() == 0 {
            encode_utf8("/"@)
        } else {
            encode_utf8(name)
        };
        Tree { props: n.props.insert(0, ("name"@, value)), children: n.children }
    }
}

/// The node at `pos`, and where it ends.
pub open spec fn node_at(b: Seq<u8>, strings: int, pos: int) -> Option<(Tree, int)>
    decreases b.len() + 3 - pos, 0int,
{
    if token(b, pos) != Some(FDT_BEGIN_NODE as int) {
        None
    } else {
        match string_at(b, pos + 4) {
            None => None,
            Some((name, e)) => match align4(e + 1) {
                None => None,
                Some(p) => if moved(b, pos, p) {
                    match body_at(b, strings, p, Tree { props: Seq::empty(), children: Seq::empty() }) {
                        None => None,
                        Some((n, end)) => Some((named(n, name), end)),
                    }
                } else {
                    None
                },
            },
        }
    }
}

/// The tree that a flattened device tree holds.
pub open spec fn fdt_tree(b: Seq<u8>) -> Option<Tree> {
    match (token(b, 0), token(b, 4), token(b, 8), token(b, 12)) {
        (Some(magic), Some(total), Some(start), Some(strings)) => if magic != FDT_MAGIC || total
            > b.len() || start >= total || strings >= total {
            None
        } else {
            match node_at(b.take(total), strings, start) {
                Some((n, _)) => Some(n),
                None => None,
            }
        },
        _ => None,
    }
}

proof fn lemma_string_end(b: Seq<u8>, pos: int)
    ensures
        string_end(b, pos) matches Some(e) ==> 0 <= pos <= e < b.len(),
    decreases b.len() - pos,
{
    if 0 <= pos < b.len() && b[pos] != 0 {
        lemma_string_end(b, pos + 1);
    }
}

/// Reading always goes forward, by whole tokens.
proof fn lemma_body_moves(b: Seq<u8>, strings: int, pos: int, n: Tree)
    requires
        0 <= pos,
    ensures
        body_at(b, strings, pos, n) matches Some((_, end)) ==> pos <= end <= b.len(),
    decreases b.len() + 3 - pos, 1int,
{
    match token(b, pos) {
        None => {},
        Some(t) => {
            if t == FDT_PROP {
                if let Some((p, end)) = prop_at(b, strings, pos) {
                    if moved(b, pos, end) {
                        lemma_body_moves(
                            b,
                            strings,
                            end,
                            Tree { props: n.props.push(p), children: n.children },
                        );
                    }
                }
            } else if t == FDT_BEGIN_NODE {
                if let Some((c, end)) = node_at(b, strings, pos) {
                    if moved(b, pos, end) {
                        lemma_body_moves(
                            b,
                            strings,
                            end,
                            Tree { props: n.props, children: n.children.push(c) },
                        );
                    }
                }
            } else if t == FDT_NOP {
                lemma_body_moves(b, strings, pos + 4, n);
            }
        },
    }
}

/// A node ends behind its start.
proof fn lemma_node_moves(b: Seq<u8>, strings: int, pos: int)
    requires
        0 <= pos,
    ensures
        node_at(b, strings, pos) matches Some((_, end)) ==> moved(b, pos, end),
{
    if token(b, pos) == Some(FDT_BEGIN_NODE as int) {
        if let Some((name, e)) = string_at(b, pos + 4) {
            lemma_string_end(b, pos + 4);
            if let Some(p) = align4(e + 1) {
                lemma_body_moves(
                    b,
                    strings,
                    p,
                    Tree { props: Seq::empty(), children: Seq::empty() },
                );
            }
        }
    }
}

impl AdtProp {
    /// A property; an error if its name does not fit in the name field.
    pub fn new_owned(name: String, value: Vec<u8>) -> (r: Result<AdtProp, LoadError>)
        ensures
            match r {
                Ok(p) => short_name(name@) && p.name@ == name@ && p.value@ == value@,
                Err(_) => !short_name(name@),
            },
    {
        if name.as_str().as_bytes().len() >= NAME_LEN {
            return Err(LoadError);
        }
        Ok(AdtProp { name, value })
    }

    /// A property; an error if its name does not fit in the name field.
    pub fn new(name: &str, value: &[u8]) -> (r: Result<AdtProp, LoadError>)
        ensures
            match r {
                Ok(p) => short_name(name@) && p.name@ == name@ && p.value@ == value@,
                Err(_) => !short_name(name@),
            },
    {
        let mut v: Vec<u8> = Vec::new();
        bytes::push_bytes(&mut v, value);
        assert(v@ =~= value@);
        AdtProp::new_owned(name.to_owned(), v)
    }
}

/// A reader of flattened device trees.
pub struct FdtParser<'a> {
    bytes: &'a [u8],
    strings_offset: usize,
    pos: usize,
}

/// Reads the big-endian number at `pos`.
pub fn read_be_u32(b: &[u8], pos: usize) -> (r: Option<u32>)
    ensures
        match r {
            Some(v) => token(b@, pos as int) == Some(v as int),
            None => token(b@, pos as int) is None,
        },
{
    assert(b@.len() == b.len());
    if pos > b.len() || b.len() - pos < 4 {
        return None;
    }
    Some(bytes::read_be32(b, pos))
}

impl<'a> FdtParser<'a> {
    /// What the reader still has to read, as a node.
    pub closed spec fn rest(self) -> Option<Tree> {
        match node_at(self.bytes@, self.strings_offset as int, self.pos as int) {
            Some((n, _)) => Some(n),
            None => None,
        }
    }

    /// A reader at the start of the root node.
    pub fn new(bytes: &'a [u8]) -> (r: Result<FdtParser<'a>, LoadError>)
        ensures
            match r {
                Ok(p) => p.rest() == fdt_tree(bytes@),
                Err(_) => fdt_tree(bytes@) is None,
            },
    {
        let (magic, total, start, strings) = match (
            read_be_u32(bytes, 0),
            read_be_u32(bytes, 4),
            read_be_u32(bytes, 8),
            read_be_u32(bytes, 12),
        ) {
            (Some(m), Some(t), Some(s), Some(n)) => (m, t, s, n),
            _ => {
                return Err(LoadError);
            },
        };
        if magic != FDT_MAGIC {
            return Err(LoadError);
        }
        assert(bytes@.len() == bytes.len());
        let total: usize = total as usize;
        let start: usize = start as usize;
        let strings: usize = strings as usize;
        if total > bytes.len() || start >= total || strings >= total {
            return Err(LoadError);
        }
        let body: &'a [u8] = &bytes[0..total];
        assert(body@ =~= bytes@.take(total as int));
        Ok(FdtParser { bytes: body, strings_offset: strings, pos: start })
    }

    /// Reads the root node.
    pub fn parse(self) -> (r: Result<AdtNode, LoadError>)
        ensures
            match r {
                Ok(n) => self.rest() == Some(tree(n)),
                Err(_) => self.rest() is None,
            },
    {
        match self.parse_node(self.pos) {
            Ok((n, _)) => Ok(n),
            Err(e) => Err(e),
        }
    }

    /// Reads the text at `start`.
    fn text_at(&self, start: usize) -> (r: Result<(String, usize), LoadError>)
        ensures
            match r {
                Ok((s, e)) => string_at(self.bytes@, start as int) == Some((s@, e as int)) && start
                    <= e < self.bytes@.len(),
                Err(_) => string_at(self.bytes@, start as int) is None,
            },
    {
        assert(self.bytes@.len() == self.bytes.len());
        let mut e: usize = start;
        while e < self.bytes.len() && self.bytes[e] != 0
            invariant
                start <= e,
                start <= self.bytes@.len() ==> e <= self.bytes@.len(),
                self.bytes@.len() == self.bytes.len(),
                string_end(self.bytes@, start as int) == string_end(self.bytes@, e as int),
            decreases self.bytes@.len() - e,
        {
            e = e + 1;
        }
        if e >= self.bytes.len() {
            return Err(LoadError);
        }
        match text::from_utf8(&self.bytes[start..e]) {
            None => Err(LoadError),
            Some(s) => {
                proof {
                    encode_utf8_decode_utf8(s@);
                }
                Ok((s.to_owned(), e))
            },
        }
    }

    /// Rounds a position up to a multiple of four.
    fn aligned(&self, pos: usize) -> (r: Result<usize, LoadError>)
        ensures
            match r {
                Ok(p) => align4(pos as int) == Some(p as int),
                Err(_) => align4(pos as int) is None,
            },
    {
        match pos.checked_add(3) {
            None => Err(LoadError),
            Some(x) => Ok(x / 4 * 4),
        }
    }

    /// Reads the property whose token is at `pos`.
    fn parse_prop(&self, pos: usize) -> (r: Result<(AdtProp, usize), LoadError>)
        requires
            token(self.bytes@, pos as int) is Some,
        ensures
            match r {
                Ok((p, end)) => prop_at(self.bytes@, self.strings_offset as int, pos as int)
                    == Some(((p.name@, p.value@), end as int)),
                Err(_) => prop_at(self.bytes@, self.strings_offset as int, pos as int) is None,
            },
    {
        assert(self.bytes@.len() == self.bytes.len());
        let len: u32 = match read_be_u32(self.bytes, pos + 4) {
            Some(v) => v,
            None => {
                return Err(LoadError);
            },
        };
        if self.bytes.len() - (pos + 4) < 4 {
            return Err(LoadError);
        }
        let nameoff: u32 = match read_be_u32(self.bytes, pos + 8) {
            Some(v) => v,
            None => {
                return Err(LoadError);
            },
        };
        let at: usize = match self.strings_offset.checked_add(nameoff as usize) {
            Some(a) => a,
            None => {
                assert(string_end(self.bytes@, self.strings_offset + nameoff) is None);
                return Err(LoadError);
            },
        };
        let (name, _) = match self.text_at(at) {
            Ok(t) => t,
            Err(e) => {
                return Err(e);
            },
        };
        let from: usize = pos + 12;
        if len as u64 > (self.bytes.len() - from) as u64 {
            return Err(LoadError);
        }
        let to: usize = from + len as usize;
        let mut value: Vec<u8> = Vec::new();
        bytes::push_bytes(&mut value, &self.bytes[from..to]);
        assert(value@ =~= self.bytes@.subrange(from as int, to as int));
        let prop: AdtProp = match AdtProp::new_owned(name, value) {
            Ok(p) => p,
            Err(e) => {
                return Err(e);
            },
        };
        match self.aligned(to) {
            Ok(end) => Ok((prop, end)),
            Err(e) => Err(e),
        }
    }

    /// Reads the node at `pos`.
    fn parse_node(&self, pos: usize) -> (r: Result<(AdtNode, usize), LoadError>)
        ensures
            match r {
                Ok((n, end)) => node_at(self.bytes@, self.strings_offset as int, pos as int)
                    == Some((tree(n), end as int)),
                Err(_) => node_at(self.bytes@, self.strings_offset as int, pos as int) is None,
            },
        decreases self.bytes@.len() + 3 - pos, 0int,
    {
        assert(self.bytes@.len() == self.bytes.len());
        match read_be_u32(self.bytes, pos) {
            Some(t) => {
                if t != FDT_BEGIN_NODE {
                    return Err(LoadError);
                }
            },
            None => {
                return Err(LoadError);
            },
        }
        let (name, e) = match self.text_at(pos + 4) {
            Ok(x) => x,
            Err(err) => {
                return Err(err);
            },
        };
        let p: usize = match self.aligned(e + 1) {
            Ok(x) => x,
            Err(err) => {
                return Err(err);
            },
        };
        let (mut props, children, end) = match self.parse_body(p) {
            Ok(x) => x,
            Err(err) => {
                return Err(err);
            },
        };
        let ghost read = Tree { props: prop_views(props@), children: trees(children@) };
        if !find_name(&props) {
            let value: &[u8] = if name.as_str().is_empty() {
                "/".as_bytes()
            } else {
                name.as_str().as_bytes()
            };
            proof {
                reveal_strlit("name");
                is_ascii_chars_encode_utf8("name"@);
                assert(short_name("name"@));
            }
            let prop: AdtProp = match AdtProp::new("name", value) {
                Ok(x) => x,
                Err(err) => {
                    return Err(err);
                },
            };
            let ghost before = props@;
            props.insert(0, prop);
            assert(prop_views(props@) =~= prop_views(before).insert(
                0,
                (prop.name@, prop.value@),
            ));
        }
        let n = AdtNode { props, children };
        proof {
            assert(tree(n).props =~= named(read, name@).props);
            assert(tree(n).children =~= trees(children@));
        }
        Ok((n, end))
    }

    /// Reads the rest of a node from `start` on.
    fn parse_body(&self, start: usize) -> (r: Result<
        (Vec<AdtProp>, Vec<AdtNode>, usize),
        LoadError,
    >)
        ensures
            match r {
                Ok((props, children, end)) => body_at(
                    self.bytes@,
                    self.strings_offset as int,
                    start as int,
                    Tree { props: Seq::empty(), children: Seq::empty() },
                ) == Some(
                    (Tree { props: prop_views(props@), children: trees(children@) }, end as int),
                ),
                Err(_) => body_at(
                    self.bytes@,
                    self.strings_offset as int,
                    start as int,
                    Tree { props: Seq::empty(), children: Seq::empty() },
                ) is None,
            },
        decreases self.bytes@.len() + 3 - start, 1int,
    {
        let ghost goal = body_at(
            self.bytes@,
            self.strings_offset as int,
            start as int,
            Tree { props: Seq::empty(), children: Seq::empty() },
        );
        let mut props: Vec<AdtProp> = Vec::new();
        let mut children: Vec<AdtNode> = Vec::new();
        let mut pos: usize = start;
        proof {
            assert(prop_views(props@) =~= Seq::<Prop>::empty());
            assert(trees(children@) =~= Seq::<Tree>::empty());
        }
        loop
            invariant
                start <= pos,
                self.bytes@.len() == self.bytes.len(),
                goal == body_at(
                    self.bytes@,
                    self.strings_offset as int,
                    start as int,
                    Tree { props: Seq::empty(), children: Seq::empty() },
                ),
                goal == body_at(
                    self.bytes@,
                    self.strings_offset as int,
                    pos as int,
                    Tree { props: prop_views(props@), children: trees(children@) },
                ),
            decreases self.bytes@.len() + 3 - pos,
        {
            let t: u32 = match read_be_u32(self.bytes, pos) {
                Some(t) => t,
                None => {
                    return Err(LoadError);
                },
            };
            let ghost old_props = props@;
            let ghost old_children = children@;
            if t == FDT_PROP {
                match self.parse_prop(pos) {
                    Ok((p, end)) => {
                        props.push(p);
                        assert(prop_views(props@) =~= prop_views(old_props).push(
                            (p.name@, p.value@),
                        ));
                        pos = end;
                    },
                    Err(e) => {
                        return Err(e);
                    },
                }
            } else if t == FDT_BEGIN_NODE {
                proof {
                    lemma_node_moves(self.bytes@, self.strings_offset as int, pos as int);
                }
                match self.parse_node(pos) {
                    Ok((n, end)) => {
                        children.push(n);
                        assert(trees(children@) =~= trees(old_children).push(tree(n)));
                        pos = end;
                    },
                    Err(e) => {
                        return Err(e);
                    },
                }
            } else if t == FDT_END_NODE {
                return Ok((props, children, pos + 4));
            } else if t == FDT_NOP {
                pos = pos + 4;
            } else if t == FDT_END {
                return Ok((props, children, pos));
            } else {
                return Err(LoadError);
            }
        }
    }
}

/// Whether one of the properties is the node's name.
fn find_name(props: &Vec<AdtProp>) -> (r: bool)
    ensures
        r == has_name(prop_views(props@)),
{
    let ghost all = prop_views(props@);
    let mut i: usize = 0;
    while i < props.len()
        invariant
            i <= props@.len(),
            all == prop_views(props@),
            forall|k: int| 0 <= k < i ==> (#[trigger] all[k]).0 != "name"@,
        decreases props@.len() - i,
    {
        assert(all[i as int].0 == props@[i as int].name@);
        if text::str_eq(props[i].name.as_str(), "name") {
            return true;
        }
        i = i + 1;
    }
    false
}

} // verus!
