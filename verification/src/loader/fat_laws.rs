//! Which image of a file with several is the one for arm64.

use crate::bytes;
use crate::loader::fat;
use crate::loader::parse_laws;
use crate::loader::records;
use vstd::prelude::*;

verus! {

/// The bytes of a file from `start` on, if they lie inside it.
pub open spec fn part(file: Seq<u8>, start: int, size: int) -> Option<Seq<u8>> {
    if size == 0 {
        Some(Seq::empty())
    } else if start + size <= file.len() {
        Some(file.subrange(start, start + size))
    } else {
        None
    }
}

/// In a file with a table of 32-bit entries of 20 bytes, the image is where the
/// first arm64 entry says.
pub proof fn law_image_of_narrow_table(file: Seq<u8>, is_macho: bool, i: int)
    requires
        file.len() >= 8,
        bytes::be32(file, 0) == 0xcafe_babe,
        8 + bytes::be32(file, 4) * 20 <= file.len(),
        0 <= i < bytes::be32(file, 4),
        bytes::be32(file, 8 + i * 20) == 0x0100_000c,
        forall|j: int| 0 <= j < i ==> #[trigger] bytes::be32(file, 8 + j * 20) != 0x0100_000c,
    ensures
        fat::arm64_image(file, is_macho) == part(
            file,
            bytes::be32(file, 8 + i * 20 + 8),
            bytes::be32(file, 8 + i * 20 + 12),
        ),
{
    let table = records::fat_table(file, false)->0;
    assert(table[i] == records::fat_entry(file, 8 + i * 20, false));
    assert forall|j: int| 0 <= j < i implies (#[trigger] table[j]).0 != 0x0100_000c by {
        assert(table[j] == records::fat_entry(file, 8 + j * 20, false));
        assert(bytes::be32(file, 8 + j * 20) != 0x0100_000c);
    }
    parse_laws::law_first_arm64_counts(table, i);
}

/// In a file with a table of 64-bit entries of 32 bytes, the image is where the
/// first arm64 entry says.
pub proof fn law_image_of_wide_table(file: Seq<u8>, is_macho: bool, i: int)
    requires
        file.len() >= 8,
        bytes::be32(file, 0) == 0xcafe_babf,
        8 + bytes::be32(file, 4) * 32 <= file.len(),
        0 <= i < bytes::be32(file, 4),
        bytes::be32(file, 8 + i * 32) == 0x0100_000c,
        forall|j: int| 0 <= j < i ==> #[trigger] bytes::be32(file, 8 + j * 32) != 0x0100_000c,
    ensures
        fat::arm64_image(file, is_macho) == part(
            file,
            bytes::be64(file, 8 + i * 32 + 8),
            bytes::be64(file, 8 + i * 32 + 16),
        ),
{
    let table = records::fat_table(file, true)->0;
    assert(table[i] == records::fat_entry(file, 8 + i * 32, true));
    assert forall|j: int| 0 <= j < i implies (#[trigger] table[j]).0 != 0x0100_000c by {
        assert(table[j] == records::fat_entry(file, 8 + j * 32, true));
        assert(bytes::be32(file, 8 + j * 32) != 0x0100_000c);
    }
    parse_laws::law_first_arm64_counts(table, i);
}

/// A file without a table is its own image if it is a Mach-O file for arm64, and
/// has none otherwise.
pub proof fn law_image_without_table(file: Seq<u8>, is_macho: bool)
    requires
        file.len() >= 8,
        bytes::be32(file, 0) != 0xcafe_babe,
        bytes::be32(file, 0) != 0xcafe_babf,
    ensures
        fat::arm64_image(file, is_macho) == if is_macho && bytes::le32(file, 4) == 0x0100_000c {
            Some(file)
        } else {
            None
        },
{
}

} // verus!
