//! From the tree that the firmware gives to the one that the kernel reads.

use crate::boot::adt;
use crate::boot::device_tree::Tree;
use crate::boot::device_tree_laws;
use crate::kernel::device_tree as kernel_tree;
use vstd::prelude::*;

verus! {

/// A tree that is written as a flattened device tree announces its own length,
/// and is the one that is handed over; the kernel reads it back from what is
/// handed to it.
pub proof fn law_firmware_tree_reaches_kernel(t: Tree, rest: Seq<u8>)
    requires
        device_tree_laws::tree_fits(t),
        device_tree_laws::flattened(t).len() < 0x1_0000_0000,
        device_tree_laws::flattened(t).len() + 3 <= usize::MAX,
        adt::writable(t),
        kernel_tree::plain_names(t),
        adt::adt_bytes(t).len() + rest.len() + 3 <= usize::MAX,
    ensures
        adt::announced_len(device_tree_laws::flattened(t)) == Some(
            device_tree_laws::flattened(t).len() as int,
        ),
        adt::source_tree(Some(device_tree_laws::flattened(t))) == Some(t),
        kernel_tree::describes(adt::adt_bytes(t) + rest, t),
{
    device_tree_laws::law_header_says_length(t);
    device_tree_laws::law_written_tree_reads_back(t);
    kernel_tree::law_tree_reads_back(t, rest);
}

} // verus!
