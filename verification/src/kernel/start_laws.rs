//! What the kernel says when it starts.

use crate::boot::adt;
use crate::boot::device_tree::Tree;
use crate::bytes;
use crate::kernel::arch::uart;
use crate::kernel::boot_args::BootArgs;
use crate::kernel::device_tree;
use crate::kernel::device_tree_laws;
use crate::kernel::start;
use crate::mem::{Memory, Stop};
use vstd::prelude::*;
use vstd::utf8::*;

verus! {

/// A word before a number.
pub open spec fn labelled(text: Seq<char>, n: u64) -> Seq<u8> {
    encode_utf8(text) + uart::put_hex(Seq::empty(), n)
}

proof fn lemma_labelled(log: Seq<u8>, text: Seq<char>, n: u64)
    ensures
        uart::put_hex(uart::put_str(log, text), n) == log + labelled(text, n),
{
    assert(uart::put_hex(uart::put_str(log, text), n) =~= log + labelled(text, n));
}

/// The console is told the revision and version of the arguments, whether they
/// are supported, where memory is, where the kernel ends, and where the device
/// tree is.
pub proof fn law_arguments_are_told(log: Seq<u8>, a: BootArgs)
    ensures
        start::args_log(log, a) == log + labelled(
            "xnu-rs: boot_args revision="@,
            a.revision as u64,
        ) + labelled(" version="@, a.version as u64) + encode_utf8("\n"@) + (if a.revision == 2
            && a.version == 2 {
            Seq::empty()
        } else {
            encode_utf8("xnu-rs: unsupported boot_args revision/version\n"@)
        }) + labelled("xnu-rs: phys_base="@, a.phys_base) + labelled(" mem_size="@, a.mem_size)
            + labelled(" top_of_kernel_data="@, a.top_of_kernel_data) + encode_utf8("\n"@)
            + labelled("xnu-rs: device_tree_p="@, a.device_tree_p) + labelled(
            " length="@,
            a.device_tree_length as u64,
        ) + encode_utf8("\n"@),
{
    let b = log + labelled("xnu-rs: boot_args revision="@, a.revision as u64);
    lemma_labelled(log, "xnu-rs: boot_args revision="@, a.revision as u64);
    lemma_labelled(b, " version="@, a.version as u64);
    let c = b + labelled(" version="@, a.version as u64) + encode_utf8("\n"@);
    let d = c + (if a.revision == 2 && a.version == 2 {
        Seq::empty()
    } else {
        encode_utf8("xnu-rs: unsupported boot_args revision/version\n"@)
    });
    if a.revision == 2 && a.version == 2 {
        assert(d =~= c);
    }
    lemma_labelled(d, "xnu-rs: phys_base="@, a.phys_base);
    let e = d + labelled("xnu-rs: phys_base="@, a.phys_base);
    lemma_labelled(e, " mem_size="@, a.mem_size);
    let f = e + labelled(" mem_size="@, a.mem_size);
    lemma_labelled(f, " top_of_kernel_data="@, a.top_of_kernel_data);
    let g = f + labelled(" top_of_kernel_data="@, a.top_of_kernel_data) + encode_utf8("\n"@);
    lemma_labelled(g, "xnu-rs: device_tree_p="@, a.device_tree_p);
    let h = g + labelled("xnu-rs: device_tree_p="@, a.device_tree_p);
    lemma_labelled(h, " length="@, a.device_tree_length as u64);
}

/// A device tree that the arguments lead to is printed whole, behind the
/// arguments.
pub proof fn law_tree_is_told(log: Seq<u8>, m: Memory, a: BootArgs, t: Tree, rest: Seq<u8>)
    requires
        a.device_tree_p != 0,
        a.device_tree_length >= 8,
        m.covers(a.device_tree_p as int, a.device_tree_length as int),
        m.slice(a.device_tree_p as int, a.device_tree_length as int) == adt::adt_bytes(t) + rest,
        adt::writable(t),
        device_tree::plain_names(t),
        adt::adt_bytes(t).len() + rest.len() + 3 <= usize::MAX,
    ensures
        start::start_log(log, m, Some(a)) == (
            start::args_log(log, a) + labelled(
                "xnu-rs: adt root properties="@,
                t.props.len() as u64,
            ) + labelled(" children="@, t.children.len() as u64) + encode_utf8("\n"@)
                + encode_utf8("xnu-rs: Apple device tree\n"@) + device_tree_laws::node_lines(t, 0),
            Ok::<(), Stop>(()),
        ),
{
    let said = start::args_log(log, a);
    let b = adt::adt_bytes(t) + rest;
    device_tree::law_tree_reads_back(t, rest);
    assert(device_tree::describes(b, t));
    assert(device_tree::word(b, 0) == Some(t.props.len() as int));
    assert(device_tree::word(b, 4) == Some(t.children.len() as int));
    assert(bytes::le32(b, 0) == t.props.len() && bytes::le32(b, 4) == t.children.len());
    lemma_labelled(said, "xnu-rs: adt root properties="@, t.props.len() as u64);
    let c = said + labelled("xnu-rs: adt root properties="@, t.props.len() as u64);
    lemma_labelled(c, " children="@, t.children.len() as u64);
    let d = c + labelled(" children="@, t.children.len() as u64) + encode_utf8("\n"@);
    device_tree_laws::law_whole_tree_is_printed(d, t, rest);
}

/// Without arguments, or without a device tree, the console is told so; a tree
/// outside of memory stops the start.
pub proof fn law_missing_tree_is_told(log: Seq<u8>, m: Memory, a: BootArgs)
    ensures
        start::start_log(log, m, None) == (
            log + encode_utf8("xnu-rs: boot_args=NULL\n"@),
            Ok::<(), Stop>(()),
        ),
        a.device_tree_p == 0 || a.device_tree_length < 8 ==> start::start_log(log, m, Some(a)) == (
            start::args_log(log, a) + encode_utf8("xnu-rs: no Apple device tree\n"@),
            Ok::<(), Stop>(()),
        ),
        a.device_tree_p != 0 && a.device_tree_length >= 8 && !m.covers(
            a.device_tree_p as int,
            a.device_tree_length as int,
        ) ==> start::start_log(log, m, Some(a)) == (
            start::args_log(log, a),
            Err::<(), Stop>(Stop::Fault(a.device_tree_p)),
        ),
{
}

} // verus!
