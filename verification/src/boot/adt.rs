//! Writing the device tree that the kernel reads.
//!
//! A node is the number of its properties and of its children, 32 bits each,
//! then the properties, then the children. A property is its name in 32 bytes,
//! its length in 32 bits, and its value padded to a multiple of four bytes. All
//! numbers are little endian.

use crate::boot::device_tree;
use crate::boot::device_tree::{AdtNode, AdtProp, FdtParser, LoadError, Prop, Tree, FDT_MAGIC, NAME_LEN};
use crate::bytes;
use vstd::prelude::*;
use vstd::utf8::*;

verus! {

/// A name field.
pub open spec fn name_field(name: Seq<char>) -> Seq<u8> {
    let b = encode_utf8(name);
    Seq::new(
        NAME_LEN as nat,
        |i: int|
            if i < b.len() {
                b[i]
            } else {
                0u8
            },
    )
}

/// How many bytes are missing to a multiple of four.
pub open spec fn pad4(n: int) -> int {
    (4 - n % 4) % 4
}

/// The bytes of a property.
pub open spec fn prop_bytes(p: Prop) -> Seq<u8> {
    name_field(p.0) + bytes::le32_bytes(p.1.len() as u32) + p.1 + bytes::zeros(
        pad4(p.1.len() as int) as nat,
    )
}

/// The bytes of the first `n` properties.
pub open spec fn props_bytes(ps: Seq<Prop>, n: int) -> Seq<u8>
    decreases n,
{
    if n <= 0 {
        Seq::empty()
    } else {
        props_bytes(ps, n - 1) + prop_bytes(ps[n - 1])
    }
}

/// The bytes of a node.
pub open spec fn adt_bytes(t: Tree) -> Seq<u8>
    decreases t, 1int, 0int,
{
    bytes::le32_bytes(t.props.len() as u32) + bytes::le32_bytes(t.children.len() as u32)
        + props_bytes(t.props, t.props.len() as int) + kids_bytes(t, t.children.len() as int)
}

/// The bytes of the first `n` children.
pub open spec fn kids_bytes(t: Tree, n: int) -> Seq<u8>
    decreases t, 0int, n,
{
    if 0 < n <= t.children.len() {
        kids_bytes(t, n - 1) + adt_bytes(t.children[n - 1])
    } else {
        Seq::empty()
    }
}

/// Whether a property can be written.
pub open spec fn prop_fits(p: Prop) -> bool {
    device_tree::short_name(p.0) && p.1.len() <= u32::MAX
}

/// Whether a node can be written: all counts and lengths fit in their fields.
pub open spec fn writable(t: Tree) -> bool
    decreases t,
{
    &&& t.props.len() <= u32::MAX
    &&& t.children.len() <= u32::MAX
    &&& forall|i: int| 0 <= i < t.props.len() ==> prop_fits(#[trigger] t.props[i])
    &&& forall|i: int| 0 <= i < t.children.len() ==> writable(#[trigger] t.children[i])
}

/// Appends a property.
fn write_adt_prop(prop: &AdtProp, out: &mut Vec<u8>) -> (r: Result<(), LoadError>)
    requires
        old(out)@.len() % 4 == 0,
    ensures
        match r {
            Ok(()) => prop_fits((prop.name@, prop.value@)) && final(out)@ == old(out)@ + prop_bytes(
                (prop.name@, prop.value@),
            ) && final(out)@.len() % 4 == 0,
            Err(_) => !prop_fits((prop.name@, prop.value@)),
        },
{
    let src: &[u8] = prop.name.as_str().as_bytes();
    if src.len() >= NAME_LEN {
        return Err(LoadError);
    }
    assert(prop.value@.len() == prop.value.len());
    if prop.value.len() as u64 > u32::MAX as u64 {
        return Err(LoadError);
    }
    let ghost before = out@;
    let ghost p: Prop = (prop.name@, prop.value@);
    bytes::push_bytes(out, src);
    bytes::push_zeros(out, NAME_LEN - src.len());
    assert(out@ =~= before + name_field(p.0));
    bytes::push_le32(out, prop.value.len() as u32);
    bytes::push_bytes(out, &prop.value);
    bytes::push_zeros(out, (4 - prop.value.len() % 4) % 4);
    assert(out@ =~= before + prop_bytes(p));
    Ok(())
}

/// Appends a node.
pub fn write_adt_node(node: &AdtNode, out: &mut Vec<u8>) -> (r: Result<(), LoadError>)
    requires
        old(out)@.len() % 4 == 0,
    ensures
        match r {
            Ok(()) => writable(device_tree::tree(*node)) && final(out)@ == old(out)@ + adt_bytes(
                device_tree::tree(*node),
            ) && final(out)@.len() % 4 == 0,
            Err(_) => !writable(device_tree::tree(*node)),
        },
    decreases node,
{
    let ghost t = device_tree::tree(*node);
    let ghost before = out@;
    assert(node.props@.len() == node.props.len());
    assert(node.children@.len() == node.children.len());
    if node.props.len() as u64 > u32::MAX as u64 || node.children.len() as u64 > u32::MAX as u64 {
        return Err(LoadError);
    }
    bytes::push_le32(out, node.props.len() as u32);
    bytes::push_le32(out, node.children.len() as u32);
    let ghost counts = bytes::le32_bytes(t.props.len() as u32) + bytes::le32_bytes(
        t.children.len() as u32,
    );
    assert(out@ =~= before + counts + props_bytes(t.props, 0));
    let mut i: usize = 0;
    while i < node.props.len()
        invariant
            i <= node.props@.len(),
            t == device_tree::tree(*node),
            out@ == before + counts + props_bytes(t.props, i as int),
            out@.len() % 4 == 0,
            forall|k: int| 0 <= k < i ==> prop_fits(#[trigger] t.props[k]),
        decreases node.props@.len() - i,
    {
        let ghost mid = out@;
        assert(t.props[i as int] == (node.props@[i as int].name@, node.props@[i as int].value@));
        match write_adt_prop(&node.props[i], out) {
            Ok(()) => {},
            Err(e) => {
                assert(!prop_fits(t.props[i as int]));
                return Err(e);
            },
        }
        assert(out@ =~= before + counts + props_bytes(t.props, i + 1));
        i = i + 1;
    }
    let ghost lead = before + counts + props_bytes(t.props, t.props.len() as int);
    assert(out@ =~= lead + kids_bytes(t, 0));
    let mut j: usize = 0;
    while j < node.children.len()
        invariant
            j <= node.children@.len(),
            t == device_tree::tree(*node),
            out@ == lead + kids_bytes(t, j as int),
            out@.len() % 4 == 0,
            forall|k: int| 0 <= k < j ==> writable(#[trigger] t.children[k]),
        decreases node.children@.len() - j,
    {
        proof {
            assert(decreases_to!(node => node.children@));
            assert(t.children[j as int] == device_tree::tree(node.children@[j as int]));
        }
        match write_adt_node(&node.children[j], out) {
            Ok(()) => {},
            Err(e) => {
                assert(!writable(t.children[j as int]));
                return Err(e);
            },
        }
        assert(out@ =~= lead + kids_bytes(t, j + 1));
        j = j + 1;
    }
    assert(out@ =~= before + adt_bytes(t));
    Ok(())
}

/// The memory of the virtual machine: one gigabyte at one gigabyte.
pub open spec fn memory_reg() -> Seq<u8> {
    bytes::be64_bytes(0x4000_0000) + bytes::be64_bytes(0x4000_0000)
}

/// The memory of the virtual machine.
pub fn qemu_virt_memory_reg() -> (r: Vec<u8>)
    ensures
        r@ == memory_reg(),
{
    let mut reg: Vec<u8> = Vec::new();
    bytes::push_be64(&mut reg, 0x4000_0000);
    bytes::push_be64(&mut reg, 0x4000_0000);
    assert(reg@ =~= memory_reg());
    reg
}

/// The tree that is used when the firmware has none.
pub open spec fn builtin_tree() -> Tree {
    Tree {
        props: seq![
            ("name"@, encode_utf8("/"@)),
            ("compatible"@, encode_utf8("linux,dummy-virt"@)),
            ("model"@, encode_utf8("xnu-rs qemu virt"@)),
            ("#address-cells"@, bytes::be32_bytes(2)),
            ("#size-cells"@, bytes::be32_bytes(2)),
        ],
        children: seq![
            Tree {
                props: seq![
                    ("name"@, encode_utf8("chosen"@)),
                    ("bootargs"@, encode_utf8("rd=*devfs"@)),
                ],
                children: Seq::empty(),
            },
            Tree {
                props: seq![
                    ("name"@, encode_utf8("memory"@)),
                    ("device_type"@, encode_utf8("memory"@)),
                    ("reg"@, memory_reg()),
                ],
                children: Seq::empty(),
            },
        ],
    }
}

/// A property with the given name and value.
fn prop(name: &str, value: &[u8]) -> (r: AdtProp)
    ensures
        r.name@ == name@,
        r.value@ == value@,
{
    let mut v: Vec<u8> = Vec::new();
    bytes::push_bytes(&mut v, value);
    assert(v@ =~= value@);
    AdtProp { name: name.to_owned(), value: v }
}

/// Makes the tree that is used when the firmware has none.
fn make_builtin() -> (r: AdtNode)
    ensures
        device_tree::tree(r) == builtin_tree(),
{
    let mut two: Vec<u8> = Vec::new();
    bytes::push_be32(&mut two, 2);
    assert(two@ =~= bytes::be32_bytes(2));
    let reg: Vec<u8> = qemu_virt_memory_reg();
    let mut props: Vec<AdtProp> = Vec::new();
    props.push(prop("name", "/".as_bytes()));
    props.push(prop("compatible", "linux,dummy-virt".as_bytes()));
    props.push(prop("model", "xnu-rs qemu virt".as_bytes()));
    props.push(prop("#address-cells", &two));
    props.push(prop("#size-cells", &two));
    let mut chosen: Vec<AdtProp> = Vec::new();
    chosen.push(prop("name", "chosen".as_bytes()));
    chosen.push(prop("bootargs", "rd=*devfs".as_bytes()));
    let mut memory: Vec<AdtProp> = Vec::new();
    memory.push(prop("name", "memory".as_bytes()));
    memory.push(prop("device_type", "memory".as_bytes()));
    memory.push(prop("reg", &reg));
    let a = AdtNode { props: chosen, children: Vec::new() };
    let b = AdtNode { props: memory, children: Vec::new() };
    proof {
        let t = builtin_tree();
        assert(device_tree::tree(a).props =~= t.children[0].props);
        assert(device_tree::tree(a).children =~= t.children[0].children);
        assert(device_tree::tree(b).props =~= t.children[1].props);
        assert(device_tree::tree(b).children =~= t.children[1].children);
    }
    let mut children: Vec<AdtNode> = Vec::new();
    children.push(a);
    children.push(b);
    let r = AdtNode { props, children };
    proof {
        assert(device_tree::tree(r).props =~= builtin_tree().props);
        assert(device_tree::tree(r).children =~= builtin_tree().children);
    }
    r
}

/// The length that the header of a flattened device tree announces; none if the
/// magic number is another one or the length is shorter than a header.
pub open spec fn announced_len(header: Seq<u8>) -> Option<int> {
    match (device_tree::token(header, 0), device_tree::token(header, 4)) {
        (Some(magic), Some(len)) => if magic == FDT_MAGIC && len >= 40 {
            Some(len)
        } else {
            None
        },
        _ => None,
    }
}

/// Reads the length that the header of a flattened device tree announces.
pub fn fdt_len(header: &[u8]) -> (r: Option<u32>)
    ensures
        match r {
            Some(n) => announced_len(header@) == Some(n as int),
            None => announced_len(header@) is None,
        },
{
    match (device_tree::read_be_u32(header, 0), device_tree::read_be_u32(header, 4)) {
        (Some(magic), Some(len)) => if magic == FDT_MAGIC && len >= 40 {
            Some(len)
        } else {
            None
        },
        _ => None,
    }
}

/// The tree to hand over: that of the firmware if it has one.
pub open spec fn source_tree(fdt: Option<Seq<u8>>) -> Option<Tree> {
    match fdt {
        Some(b) => device_tree::fdt_tree(b),
        None => Some(builtin_tree()),
    }
}

/// A property with a short ASCII name and value can be written, in few bytes.
proof fn lemma_small_prop(p: Prop)
    requires
        is_ascii_chars(p.0),
        p.0.len() < 32,
        p.1.len() <= 64,
    ensures
        prop_fits(p),
        prop_bytes(p).len() <= 104,
{
    is_ascii_chars_encode_utf8(p.0);
}

/// The built-in tree can always be written.
pub proof fn law_builtin_tree_fits()
    ensures
        writable(builtin_tree()),
        adt_bytes(builtin_tree()).len() <= u32::MAX,
{
    let t = builtin_tree();
    reveal_strlit("name");
    reveal_strlit("/");
    reveal_strlit("compatible");
    reveal_strlit("linux,dummy-virt");
    reveal_strlit("model");
    reveal_strlit("xnu-rs qemu virt");
    reveal_strlit("#address-cells");
    reveal_strlit("#size-cells");
    reveal_strlit("chosen");
    reveal_strlit("bootargs");
    reveal_strlit("rd=*devfs");
    reveal_strlit("memory");
    reveal_strlit("device_type");
    reveal_strlit("reg");
    is_ascii_chars_encode_utf8("/"@);
    is_ascii_chars_encode_utf8("linux,dummy-virt"@);
    is_ascii_chars_encode_utf8("xnu-rs qemu virt"@);
    is_ascii_chars_encode_utf8("chosen"@);
    is_ascii_chars_encode_utf8("rd=*devfs"@);
    is_ascii_chars_encode_utf8("memory"@);
    lemma_small_prop(t.props[0]);
    lemma_small_prop(t.props[1]);
    lemma_small_prop(t.props[2]);
    lemma_small_prop(t.props[3]);
    lemma_small_prop(t.props[4]);
    let a = t.children[0];
    let b = t.children[1];
    lemma_small_prop(a.props[0]);
    lemma_small_prop(a.props[1]);
    lemma_small_prop(b.props[0]);
    lemma_small_prop(b.props[1]);
    lemma_small_prop(b.props[2]);
    assert(writable(a));
    assert(writable(b));
    assert(writable(t));
    reveal_with_fuel(props_bytes, 6);
    reveal_with_fuel(kids_bytes, 4);
    reveal_with_fuel(adt_bytes, 3);
    assert(adt_bytes(a).len() <= 300);
    assert(adt_bytes(b).len() <= 400);
}

/// Makes the device tree that is handed to the kernel, from the firmware's
/// flattened device tree if there is one.
pub fn build_apple_device_tree(fdt: Option<&[u8]>) -> (r: Result<Vec<u8>, LoadError>)
    ensures
        ({
            let t = source_tree(
                match fdt {
                    Some(b) => Some(b@),
                    None => None,
                },
            );
            match r {
                Ok(out) => t is Some && writable(t->0) && out@ == adt_bytes(t->0) && out@.len()
                    <= u32::MAX,
                Err(_) => t is None || !writable(t->0) || adt_bytes(t->0).len() > u32::MAX,
            }
        }),
        fdt is None ==> r is Ok,
{
    proof {
        law_builtin_tree_fits();
    }
    let root: AdtNode = match fdt {
        Some(b) => match FdtParser::new(b) {
            Ok(p) => match p.parse() {
                Ok(n) => n,
                Err(e) => {
                    return Err(e);
                },
            },
            Err(e) => {
                return Err(e);
            },
        },
        None => make_builtin(),
    };
    let mut out: Vec<u8> = Vec::new();
    match write_adt_node(&root, &mut out) {
        Ok(()) => {},
        Err(e) => {
            return Err(e);
        },
    }
    assert(out@ =~= adt_bytes(device_tree::tree(root)));
    assert(out@.len() == out.len());
    if out.len() as u64 > u32::MAX as u64 {
        return Err(LoadError);
    }
    Ok(out)
}

} // verus!
