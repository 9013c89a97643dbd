//! What the `object` crate finds in an ELF file, as plain values.

use crate::bytes;
use object::read::elf::{ElfFile64, ProgramHeader};
use object::{LittleEndian, Object};
use vstd::prelude::*;

verus! {

/// A program header.
#[derive(Clone, Copy, Debug, PartialEq, Eq, Structural)]
pub struct ElfSegment {
    /// Type.
    pub p_type: u32,
    /// Permissions.
    pub p_flags: u32,
    /// Offset in the file.
    pub p_offset: u64,
    /// Address in memory.
    pub p_vaddr: u64,
    /// Size in the file.
    pub p_filesz: u64,
    /// Size in memory.
    pub p_memsz: u64,
}

/// Whether `object` accepts `file` as a 64-bit little-endian ELF file.
pub uninterp spec fn elf_parses(file: Seq<u8>) -> bool;

/// How many program headers a file has: the field in the file header, or the
/// information field of the first section header if that field is full.
pub open spec fn header_count(file: Seq<u8>) -> int {
    let n = bytes::le16(file, 56);
    if n < 0xffff {
        n
    } else {
        bytes::le32(file, bytes::le64(file, 40) + 44)
    }
}

/// The program header at `at`.
pub open spec fn header_at(file: Seq<u8>, at: int) -> ElfSegment {
    ElfSegment {
        p_type: bytes::le32(file, at) as u32,
        p_flags: bytes::le32(file, at + 4) as u32,
        p_offset: bytes::le64(file, at + 8) as u64,
        p_vaddr: bytes::le64(file, at + 16) as u64,
        p_filesz: bytes::le64(file, at + 32) as u64,
        p_memsz: bytes::le64(file, at + 40) as u64,
    }
}

/// The program headers of a file.
pub open spec fn headers(file: Seq<u8>) -> Seq<ElfSegment> {
    let phoff = bytes::le64(file, 32);
    if phoff == 0 {
        Seq::empty()
    } else {
        Seq::new(header_count(file) as nat, |i: int| header_at(file, phoff + 56 * i))
    }
}

/// Wraps `ElfFile64::elf_program_headers` of `object`: the program headers of a
/// file, in order; none if `ElfFile64::parse` refuses the file. What that
/// checks is part of the name `elf_parses`.
#[verifier::external_body]
pub(crate) fn elf_segments(file: &[u8]) -> (r: Option<Vec<ElfSegment>>)
    ensures
        r is Some <==> elf_parses(file@),
        r matches Some(v) ==> v@ == headers(file@),
{
    let elf = ElfFile64::<LittleEndian>::parse(file).ok()?;
    let le = LittleEndian;
    Some(elf.elf_program_headers().iter().map(|h| ElfSegment {
        p_type: h.p_type(le),
        p_flags: h.p_flags(le),
        p_offset: h.p_offset(le),
        p_vaddr: h.p_vaddr(le),
        p_filesz: h.p_filesz(le),
        p_memsz: h.p_memsz(le),
    }).collect())
}

/// Wraps `ElfFile64::entry` of `object`: the entry address in the file header.
#[verifier::external_body]
pub(crate) fn elf_entry(file: &[u8]) -> (r: Option<u64>)
    ensures
        r is Some <==> elf_parses(file@),
        r matches Some(e) ==> e == bytes::le64(file@, 24),
{
    Some(ElfFile64::<LittleEndian>::parse(file).ok()?.entry())
}

} // verus!
