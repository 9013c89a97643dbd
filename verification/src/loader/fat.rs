//! FAT files: which slice holds the arm64 image.

use crate::bytes;
use crate::loader::records;
use crate::loader::records::ArchRecord;
use vstd::prelude::*;

verus! {

/// The CPU type of 64-bit ARM.
pub const CPU_TYPE_ARM64: u32 = 0x0100_000c;

/// The first arm64 entry of an architecture table: none if there is none,
/// otherwise its bytes, if they lie inside the file.
pub open spec fn first_arm64(arches: Seq<(u32, Option<Seq<u8>>)>) -> Option<Option<Seq<u8>>>
    decreases arches.len(),
{
    if arches.len() == 0 {
        None
    } else if arches[0].0 == CPU_TYPE_ARM64 {
        Some(arches[0].1)
    } else {
        first_arm64(arches.drop_first())
    }
}

/// The first arm64 entry of an optional architecture table.
pub open spec fn arm64_in(
    table: Option<Seq<(u32, Option<Seq<u8>>)>>,
) -> Option<Option<Seq<u8>>> {
    match table {
        Some(arches) => first_arm64(arches),
        None => None,
    }
}

/// The arm64 image in a file: that of the 64-bit FAT table, else that of the
/// 32-bit table, else the file itself if it is a Mach-O file for arm64.
pub open spec fn arm64_image(file: Seq<u8>, is_macho: bool) -> Option<Seq<u8>> {
    match arm64_in(records::fat_table(file, true)) {
        Some(data) => data,
        None => match arm64_in(records::fat_table(file, false)) {
            Some(data) => data,
            None => if is_macho && bytes::le32(file, 4) == CPU_TYPE_ARM64 {
                Some(file)
            } else {
                None
            },
        },
    }
}

/// The first arm64 entry of `arches`.
pub fn find_arm64<'data>(arches: &Vec<ArchRecord<'data>>) -> (r: Option<Option<&'data [u8]>>)
    ensures
        match r {
            Some(data) => first_arm64(records::arch_specs(arches@)) == Some(
                records::opt_bytes(data),
            ),
            None => first_arm64(records::arch_specs(arches@)) is None,
        },
{
    let mut i: usize = 0;
    let ghost all = records::arch_specs(arches@);
    assert(all.skip(0) =~= all);
    while i < arches.len()
        invariant
            i <= arches@.len(),
            all == records::arch_specs(arches@),
            first_arm64(all) == first_arm64(all.skip(i as int)),
        decreases arches@.len() - i,
    {
        assert(all.skip(i as int)[0] == arches@[i as int]@);
        assert(all.skip(i as int).drop_first() =~= all.skip(i + 1));
        if arches[i].cputype == CPU_TYPE_ARM64 {
            return Some(arches[i].data);
        }
        i = i + 1;
    }
    None
}

/// The arm64 slice of a file that may be FAT; the file itself if it is a thin
/// Mach-O file for arm64. None if there is no arm64 image or the file is no
/// Mach-O file.
#[must_use]
pub fn arm64_slice<'data>(bytes: &'data [u8]) -> (r: Option<&'data [u8]>)
    ensures
        records::opt_bytes(r) == arm64_image(bytes@, records::macho_parses(bytes@)),
{
    if let Some(arches) = records::fat64_arches(bytes) {
        if let Some(data) = find_arm64(&arches) {
            return data;
        }
    }
    if let Some(arches) = records::fat32_arches(bytes) {
        if let Some(data) = find_arm64(&arches) {
            return data;
        }
    }
    if records::macho_accepts(bytes) && bytes::read_le32(bytes, 4) == CPU_TYPE_ARM64 {
        return Some(bytes);
    }
    None
}

} // verus!
