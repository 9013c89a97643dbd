//! Mappings of an address space.

use crate::kernel::arch::mmu::MapFlags;
use vstd::prelude::*;

verus! {

/// A range of addresses and what it is mapped to.
#[derive(Clone, Copy, Debug, PartialEq, Eq, Structural)]
pub struct VmMapping {
    /// The first virtual address.
    pub va: u64,
    /// The first physical address.
    pub pa: u64,
    /// How many bytes.
    pub size: u64,
    /// What the mapping allows.
    pub flags: MapFlags,
}

} // verus!
