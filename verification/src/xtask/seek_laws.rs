//! Where a seek leads.

use crate::xtask::partition::{Partition, SeekTo};
use vstd::prelude::*;

verus! {

/// A seek counts from the start, from the position or from the end of the
/// partition; the three lead to the same place by different distances.
pub proof fn law_seek_counts_from(p: Partition, off: u64, delta: i64)
    ensures
        p.target(SeekTo::Start(off)) == off,
        p.target(SeekTo::Current(delta)) - delta == p.pos,
        p.target(SeekTo::End(delta)) - delta == p.len,
        off == p.pos + delta ==> p.target(SeekTo::Start(off)) == p.target(SeekTo::Current(delta)),
        off == p.len + delta ==> p.target(SeekTo::Start(off)) == p.target(SeekTo::End(delta)),
{
}

} // verus!
