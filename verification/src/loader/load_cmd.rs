//! The load commands that the image parser reads.

use crate::bytes;
use crate::text;
use vstd::prelude::*;

verus! {

pub const LC_UNIXTHREAD: u32 = 0x5;

/// The kind of thread state that holds the registers of 64-bit ARM.
pub const ARM_THREAD_STATE64: u32 = 6;

/// Where the program counter lies in that state: behind x0 to x28, the frame
/// pointer, the link register and the stack pointer.
pub const PC_OFFSET: usize = 256;

/// How many 32-bit words of that state reach to the end of the program counter.
pub const PC_WORDS: u32 = 66;

pub const LC_LOAD_DYLIB: u32 = 0xc;

pub const LC_ID_DYLIB: u32 = 0xd;

pub const LC_SEGMENT_64: u32 = 0x19;

pub const LC_UUID: u32 = 0x1b;

pub const LC_CODE_SIGNATURE: u32 = 0x1d;

pub const LC_DYLD_INFO: u32 = 0x22;

pub const LC_ENCRYPTION_INFO_64: u32 = 0x2c;

pub const LC_BUILD_VERSION: u32 = 0x32;

pub const LC_LOAD_WEAK_DYLIB: u32 = 0x8000_0018;

pub const LC_RPATH: u32 = 0x8000_001c;

pub const LC_DYLD_INFO_ONLY: u32 = 0x8000_0022;

pub const LC_MAIN: u32 = 0x8000_0028;

pub const LC_DYLD_CHAINED_FIXUPS: u32 = 0x8000_0034;

/// A range of bytes inside `__LINKEDIT`.
#[derive(Clone, Copy, Debug, PartialEq, Eq, Structural)]
pub struct LinkeditRange {
    /// File offset of the data.
    pub offset: u32,
    /// Size of the data in bytes.
    pub size: u32,
}

/// Where the chained fixups are, from `LC_DYLD_CHAINED_FIXUPS`.
#[derive(Clone, Copy, Debug, PartialEq, Eq, Structural)]
pub struct ChainedFixupsInfo {
    /// File offset of the fixups header.
    pub dataoff: u32,
    /// Size of the fixups in bytes.
    pub datasize: u32,
}

/// Rebase and bind tables from `LC_DYLD_INFO` or `LC_DYLD_INFO_ONLY`.
#[derive(Clone, Copy, Debug, PartialEq, Eq, Structural)]
pub struct DyldInfoCmd {
    pub rebase_off: u32,
    pub rebase_size: u32,
    pub bind_off: u32,
    pub bind_size: u32,
    pub lazy_bind_off: u32,
    pub lazy_bind_size: u32,
    pub export_off: u32,
    pub export_size: u32,
}

/// Platform and SDK version from `LC_BUILD_VERSION`.
#[derive(Clone, Copy, Debug, PartialEq, Eq, Structural)]
pub struct BuildVersionInfo {
    /// Platform identifier.
    pub platform: u32,
    /// Minimum system version.
    pub minos: u32,
    /// SDK version.
    pub sdk: u32,
}

/// A dylib's name and versions, from `LC_LOAD_DYLIB`, `LC_LOAD_WEAK_DYLIB` or
/// `LC_ID_DYLIB`.
#[derive(Clone, Copy, Debug)]
pub struct DylibRef<'data> {
    /// Install name.
    pub name: &'data str,
    pub timestamp: u32,
    pub current_version: u32,
    pub compat_version: u32,
}

/// What a `DylibRef` says.
#[verifier::ext_equal]
pub struct DylibSpec {
    pub name: Seq<char>,
    pub timestamp: int,
    pub current_version: int,
    pub compat_version: int,
}

impl<'data> View for DylibRef<'data> {
    type V = DylibSpec;

    open spec fn view(&self) -> DylibSpec {
        DylibSpec {
            name: self.name@,
            timestamp: self.timestamp as int,
            current_version: self.current_version as int,
            compat_version: self.compat_version as int,
        }
    }
}

/// Whether `raw` is a load command of kind `cmd`, at least `size` bytes long.
pub open spec fn is_cmd(raw: Seq<u8>, cmd: u32, size: int) -> bool {
    raw.len() >= size && raw.len() >= 4 && bytes::le32(raw, 0) == cmd
}

/// The text at `offset` in a load command: up to the first zero byte or the
/// command's end; empty if `offset` lies outside or the bytes are no text.
pub open spec fn lc_str(raw: Seq<u8>, offset: int) -> Seq<char> {
    if 0 <= offset <= raw.len() {
        text::text_or_empty(bytes::until_nul(raw.skip(offset)))
    } else {
        Seq::empty()
    }
}

/// The text at `offset` in the load command `cmd_bytes`.
pub fn parse_lc_str<'data>(cmd_bytes: &'data [u8], offset: u32) -> (r: &'data str)
    ensures
        r@ == lc_str(cmd_bytes@, offset as int),
{
    assert(cmd_bytes@.len() == cmd_bytes.len());
    if offset as u64 > cmd_bytes.len() as u64 {
        proof {
            reveal_strlit("");
            assert(""@ =~= Seq::<char>::empty());
        }
        return "";
    }
    let start: usize = offset as usize;
    let tail: &[u8] = &cmd_bytes[start..cmd_bytes.len()];
    let end: usize = bytes::find_nul(tail);
    assert(tail@ =~= cmd_bytes@.skip(start as int));
    let head: &[u8] = &tail[0..end];
    assert(head@ =~= bytes::until_nul(tail@));
    text::utf8_or_empty(head)
}

/// The dylib that a command of kind `cmd` names; none if it is too short or its
/// name is empty.
pub open spec fn dylib_of(raw: Seq<u8>, cmd: u32) -> Option<DylibSpec> {
    if is_cmd(raw, cmd, 24) && lc_str(raw, bytes::le32(raw, 8)).len() > 0 {
        Some(
            DylibSpec {
                name: lc_str(raw, bytes::le32(raw, 8)),
                timestamp: bytes::le32(raw, 12),
                current_version: bytes::le32(raw, 16),
                compat_version: bytes::le32(raw, 20),
            },
        )
    } else {
        None
    }
}

/// The run path of an `LC_RPATH` command, if it is not empty.
pub open spec fn rpath_of(raw: Seq<u8>) -> Option<Seq<char>> {
    if is_cmd(raw, LC_RPATH, 12) && lc_str(raw, bytes::le32(raw, 8)).len() > 0 {
        Some(lc_str(raw, bytes::le32(raw, 8)))
    } else {
        None
    }
}

/// The UUID of an `LC_UUID` command.
pub open spec fn uuid_of(raw: Seq<u8>) -> Option<Seq<u8>> {
    if is_cmd(raw, LC_UUID, 24) {
        Some(raw.subrange(8, 24))
    } else {
        None
    }
}

/// The range of a linkedit data command of kind `cmd` whose size is at least
/// `size`.
pub open spec fn range_of(raw: Seq<u8>, cmd: u32, size: int) -> Option<LinkeditRange> {
    if is_cmd(raw, cmd, size) {
        Some(
            LinkeditRange { offset: bytes::le32(raw, 8) as u32, size: bytes::le32(raw, 12) as u32 },
        )
    } else {
        None
    }
}

/// The fixups location of an `LC_DYLD_CHAINED_FIXUPS` command.
pub open spec fn chained_of(raw: Seq<u8>) -> Option<ChainedFixupsInfo> {
    if is_cmd(raw, LC_DYLD_CHAINED_FIXUPS, 16) {
        Some(
            ChainedFixupsInfo {
                dataoff: bytes::le32(raw, 8) as u32,
                datasize: bytes::le32(raw, 12) as u32,
            },
        )
    } else {
        None
    }
}

/// The tables of an `LC_DYLD_INFO` or `LC_DYLD_INFO_ONLY` command.
pub open spec fn dyld_info_of(raw: Seq<u8>) -> Option<DyldInfoCmd> {
    if is_cmd(raw, LC_DYLD_INFO, 48) || is_cmd(raw, LC_DYLD_INFO_ONLY, 48) {
        Some(
            DyldInfoCmd {
                rebase_off: bytes::le32(raw, 8) as u32,
                rebase_size: bytes::le32(raw, 12) as u32,
                bind_off: bytes::le32(raw, 16) as u32,
                bind_size: bytes::le32(raw, 20) as u32,
                lazy_bind_off: bytes::le32(raw, 32) as u32,
                lazy_bind_size: bytes::le32(raw, 36) as u32,
                export_off: bytes::le32(raw, 40) as u32,
                export_size: bytes::le32(raw, 44) as u32,
            },
        )
    } else {
        None
    }
}

/// The versions of an `LC_BUILD_VERSION` command.
pub open spec fn build_version_of(raw: Seq<u8>) -> Option<BuildVersionInfo> {
    if is_cmd(raw, LC_BUILD_VERSION, 24) {
        Some(
            BuildVersionInfo {
                platform: bytes::le32(raw, 8) as u32,
                minos: bytes::le32(raw, 12) as u32,
                sdk: bytes::le32(raw, 16) as u32,
            },
        )
    } else {
        None
    }
}

/// The entry offset of an `LC_MAIN` command.
pub open spec fn main_of(raw: Seq<u8>) -> Option<u64> {
    if is_cmd(raw, LC_MAIN, 24) {
        Some(bytes::le64(raw, 8) as u64)
    } else {
        None
    }
}

/// The program counter among the thread states from `pos` on. Each is its kind,
/// its length in 32-bit words, and that many words.
pub open spec fn state_pc(raw: Seq<u8>, pos: int) -> Option<u64>
    decreases raw.len() - pos,
{
    if pos + 8 > raw.len() {
        None
    } else if bytes::le32(raw, pos) == ARM_THREAD_STATE64 {
        if bytes::le32(raw, pos + 4) >= PC_WORDS && pos + 16 + PC_OFFSET <= raw.len() {
            Some(bytes::le64(raw, pos + 8 + PC_OFFSET) as u64)
        } else {
            None
        }
    } else if pos + 8 + 4 * bytes::le32(raw, pos + 4) > raw.len() {
        None
    } else {
        state_pc(raw, pos + 8 + 4 * bytes::le32(raw, pos + 4))
    }
}

/// The address that an `LC_UNIXTHREAD` command starts at: the program counter in
/// its thread state.
pub open spec fn thread_of(raw: Seq<u8>) -> Option<u64> {
    if is_cmd(raw, LC_UNIXTHREAD, 8) {
        state_pc(raw, 8)
    } else {
        None
    }
}

/// Whether `raw` is a load command of kind `cmd`, at least `size` bytes long.
pub fn has_cmd(raw: &[u8], cmd: u32, size: usize) -> (r: bool)
    ensures
        r == is_cmd(raw@, cmd, size as int),
{
    raw.len() >= size && raw.len() >= 4 && bytes::read_le32(raw, 0) == cmd
}

/// Reads the dylib that a command of kind `cmd` names.
pub fn parse_dylib_ref<'data>(raw: &'data [u8], cmd: u32) -> (r: Option<DylibRef<'data>>)
    ensures
        match r {
            Some(d) => dylib_of(raw@, cmd) == Some(d@),
            None => dylib_of(raw@, cmd) is None,
        },
{
    if !has_cmd(raw, cmd, 24) {
        return None;
    }
    let name = parse_lc_str(raw, bytes::read_le32(raw, 8));
    if name.is_empty() {
        return None;
    }
    Some(
        DylibRef {
            name,
            timestamp: bytes::read_le32(raw, 12),
            current_version: bytes::read_le32(raw, 16),
            compat_version: bytes::read_le32(raw, 20),
        },
    )
}

/// Reads the run path of an `LC_RPATH` command.
pub fn parse_rpath<'data>(raw: &'data [u8]) -> (r: Option<&'data str>)
    ensures
        match r {
            Some(s) => rpath_of(raw@) == Some(s@),
            None => rpath_of(raw@) is None,
        },
{
    if !has_cmd(raw, LC_RPATH, 12) {
        return None;
    }
    let path = parse_lc_str(raw, bytes::read_le32(raw, 8));
    if path.is_empty() {
        return None;
    }
    Some(path)
}

/// Reads the UUID of an `LC_UUID` command.
pub fn parse_uuid(raw: &[u8]) -> (r: Option<[u8; 16]>)
    ensures
        match r {
            Some(u) => uuid_of(raw@) == Some(u@),
            None => uuid_of(raw@) is None,
        },
{
    if !has_cmd(raw, LC_UUID, 24) {
        return None;
    }
    let mut u: [u8; 16] = [0u8; 16];
    let mut i: usize = 0;
    while i < 16
        invariant
            i <= 16,
            raw@.len() >= 24,
            u@.len() == 16,
            forall|k: int| 0 <= k < i ==> u@[k] == raw@[8 + k],
        decreases 16 - i,
    {
        u[i] = raw[8 + i];
        i = i + 1;
    }
    assert(u@ =~= raw@.subrange(8, 24));
    Some(u)
}

/// Reads the range of a linkedit data command of kind `cmd`.
pub fn parse_range(raw: &[u8], cmd: u32, size: usize) -> (r: Option<LinkeditRange>)
    requires
        size >= 16,
    ensures
        r == range_of(raw@, cmd, size as int),
{
    if !has_cmd(raw, cmd, size) {
        return None;
    }
    Some(LinkeditRange { offset: bytes::read_le32(raw, 8), size: bytes::read_le32(raw, 12) })
}

/// Reads the fixups location of an `LC_DYLD_CHAINED_FIXUPS` command.
pub fn parse_chained(raw: &[u8]) -> (r: Option<ChainedFixupsInfo>)
    ensures
        r == chained_of(raw@),
{
    if !has_cmd(raw, LC_DYLD_CHAINED_FIXUPS, 16) {
        return None;
    }
    Some(ChainedFixupsInfo { dataoff: bytes::read_le32(raw, 8), datasize: bytes::read_le32(raw, 12) })
}

/// Reads the tables of an `LC_DYLD_INFO` or `LC_DYLD_INFO_ONLY` command.
pub fn parse_dyld_info(raw: &[u8]) -> (r: Option<DyldInfoCmd>)
    ensures
        r == dyld_info_of(raw@),
{
    if !has_cmd(raw, LC_DYLD_INFO, 48) && !has_cmd(raw, LC_DYLD_INFO_ONLY, 48) {
        return None;
    }
    Some(
        DyldInfoCmd {
            rebase_off: bytes::read_le32(raw, 8),
            rebase_size: bytes::read_le32(raw, 12),
            bind_off: bytes::read_le32(raw, 16),
            bind_size: bytes::read_le32(raw, 20),
            lazy_bind_off: bytes::read_le32(raw, 32),
            lazy_bind_size: bytes::read_le32(raw, 36),
            export_off: bytes::read_le32(raw, 40),
            export_size: bytes::read_le32(raw, 44),
        },
    )
}

/// Reads the versions of an `LC_BUILD_VERSION` command.
pub fn parse_build_version(raw: &[u8]) -> (r: Option<BuildVersionInfo>)
    ensures
        r == build_version_of(raw@),
{
    if !has_cmd(raw, LC_BUILD_VERSION, 24) {
        return None;
    }
    Some(
        BuildVersionInfo {
            platform: bytes::read_le32(raw, 8),
            minos: bytes::read_le32(raw, 12),
            sdk: bytes::read_le32(raw, 16),
        },
    )
}

/// Reads the entry offset of an `LC_MAIN` command.
pub fn parse_main(raw: &[u8]) -> (r: Option<u64>)
    ensures
        r == main_of(raw@),
{
    if !has_cmd(raw, LC_MAIN, 24) {
        return None;
    }
    Some(bytes::read_le64(raw, 8))
}

/// Reads the address that an `LC_UNIXTHREAD` command starts at.
pub fn parse_thread(raw: &[u8]) -> (r: Option<u64>)
    ensures
        r == thread_of(raw@),
{
    if !has_cmd(raw, LC_UNIXTHREAD, 8) {
        return None;
    }
    let len: usize = raw.len();
    let mut pos: usize = 8;
    while len - pos >= 8
        invariant
            8 <= pos <= len,
            len == raw@.len(),
            is_cmd(raw@, LC_UNIXTHREAD, 8),
            state_pc(raw@, 8) == state_pc(raw@, pos as int),
        decreases len - pos,
    {
        let kind: u32 = bytes::read_le32(raw, pos);
        let count: u32 = bytes::read_le32(raw, pos + 4);
        let left: usize = len - pos - 8;
        if kind == ARM_THREAD_STATE64 {
            if count < PC_WORDS || left < PC_OFFSET + 8 {
                return None;
            }
            return Some(bytes::read_le64(raw, pos + 8 + PC_OFFSET));
        }
        if 4 * (count as u64) > left as u64 {
            return None;
        }
        pos = pos + 8 + 4 * (count as usize);
    }
    None
}

} // verus!
