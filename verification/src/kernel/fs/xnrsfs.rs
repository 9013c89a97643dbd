//! A flat read-only file system.
//!
//! The image starts with a magic number and the number of files, 32 bits each.
//! The file table follows: entries of 80 bytes with the name in 64 bytes, ended
//! by a zero byte, then the offset of the file's bytes in the image and their
//! number, 64 bits each. All numbers are little endian.

use crate::bytes;
use crate::kernel::arch::uart;
use crate::kernel::arch::uart::Console;
use crate::text;
use vstd::prelude::*;

verus! {

/// The number at the start of an image.
pub const MAGIC: u32 = 0x5352_4e58;

/// Bytes in one table entry.
pub const ENTRY_SIZE: usize = 80;

/// Bytes in one sector.
pub const SECTOR_SIZE: u64 = 512;

// ── Reading bytes through sectors ──────────────────────────────────────────

/// Which sectors hold a range of bytes.
#[derive(Clone, Copy, Debug, PartialEq, Eq, Structural)]
pub struct ReadPlan {
    /// The first sector.
    pub lba: u64,
    /// How many bytes of it come before the range.
    pub skip: u64,
    /// How many sectors are needed.
    pub sectors: u64,
}

/// The sectors that hold the `size` bytes at `offset`: the first of them holds
/// the first byte, and the last of them the last byte. No bytes need no sector.
pub open spec fn plan_of(offset: u64, size: u64) -> ReadPlan {
    let skip = offset as int % 512;
    ReadPlan {
        lba: (offset as int / 512) as u64,
        skip: if size == 0 {
            0
        } else {
            skip as u64
        },
        sectors: if size == 0 {
            0
        } else {
            ((skip + size + 511) / 512) as u64
        },
    }
}

/// Plans a read of `size` bytes at `offset`; none if the bytes and those before
/// them in the first sector are more than can be counted.
pub fn read_bytes(offset: u64, size: u64) -> (r: Option<ReadPlan>)
    ensures
        match r {
            Some(p) => p == plan_of(offset, size),
            None => size > 0 && offset as int % 512 + size + 511 > u64::MAX,
        },
{
    let skip: u64 = offset % SECTOR_SIZE;
    let lba: u64 = offset / SECTOR_SIZE;
    if size == 0 {
        return Some(ReadPlan { lba, skip: 0, sectors: 0 });
    }
    match skip.checked_add(size) {
        None => None,
        Some(end) => match end.checked_add(511) {
            None => None,
            Some(x) => Some(ReadPlan { lba, skip, sectors: x / SECTOR_SIZE }),
        },
    }
}

/// Cuts the `size` bytes of a plan out of the sectors that it names.
pub fn cut<'a>(plan: ReadPlan, sectors: &'a [u8], size: usize) -> (r: &'a [u8])
    requires
        plan.skip + size <= sectors@.len(),
    ensures
        r@ == sectors@.subrange(plan.skip as int, plan.skip + size),
{
    assert(sectors@.len() == sectors.len());
    let at: usize = plan.skip as usize;
    &sectors[at..at + size]
}

/// What a planned read cuts out of an image's sectors are the bytes of the
/// image that were asked for.
pub proof fn law_read_gives_bytes(image: Seq<u8>, offset: u64, size: u64)
    requires
        offset + size <= image.len(),
        offset as int % 512 + size + 511 <= u64::MAX,
        offset as int / 512 * 512 + plan_of(offset, size).sectors * 512 <= image.len(),
    ensures
        ({
            let p = plan_of(offset, size);
            let sectors = image.subrange(p.lba * 512, p.lba * 512 + p.sectors * 512);
            &&& p.skip + size <= sectors.len()
            &&& sectors.subrange(p.skip as int, p.skip + size) == image.subrange(
                offset as int,
                offset + size,
            )
        }),
{
    let p = plan_of(offset, size);
    let sectors = image.subrange(p.lba * 512, p.lba * 512 + p.sectors * 512);
    assert(sectors.subrange(p.skip as int, p.skip + size) =~= image.subrange(
        offset as int,
        offset + size,
    ));
}

// ── The table ──────────────────────────────────────────────────────────────

/// The number of files that a header announces; none if the magic number is
/// another one.
pub open spec fn header_count(header: Seq<u8>) -> Option<int> {
    if bytes::le32(header, 0) == MAGIC {
        Some(bytes::le32(header, 4))
    } else {
        None
    }
}

/// Reads the number of files from a header.
pub fn parse_header(header: &[u8]) -> (r: Option<u32>)
    requires
        header@.len() >= 8,
    ensures
        match r {
            Some(n) => header_count(header@) == Some(n as int),
            None => header_count(header@) is None,
        },
{
    if bytes::read_le32(header, 0) != MAGIC {
        return None;
    }
    Some(bytes::read_le32(header, 4))
}

/// The bytes of the name in entry `i`.
pub open spec fn entry_name(table: Seq<u8>, i: int) -> Seq<u8> {
    bytes::until_nul(table.subrange(i * 80, i * 80 + 64))
}

/// Where the bytes of entry `i` are, and how many.
pub open spec fn entry_place(table: Seq<u8>, i: int) -> (u64, u64) {
    (bytes::le64(table, i * 80 + 64) as u64, bytes::le64(table, i * 80 + 72) as u64)
}

/// The first file from entry `i` on whose name reads `path`.
pub open spec fn found_from(table: Seq<u8>, n: int, path: Seq<char>, i: int) -> Option<(u64, u64)>
    decreases n - i,
{
    if i >= n {
        None
    } else if text::text_or_empty(entry_name(table, i)) == path {
        Some(entry_place(table, i))
    } else {
        found_from(table, n, path, i + 1)
    }
}

/// The file named `path` in a table of `n` entries.
pub open spec fn found(table: Seq<u8>, n: int, path: Seq<char>) -> Option<(u64, u64)> {
    found_from(table, n, path, 0)
}

/// Finds the file named `path` in a table of `n` entries.
pub fn find_entry(table: &[u8], n: u32, path: &str) -> (r: Option<(u64, u64)>)
    requires
        table@.len() >= n * 80,
    ensures
        r == found(table@, n as int, path@),
{
    assert(table@.len() == table.len());
    let mut i: u32 = 0;
    while i < n
        invariant
            i <= n,
            table@.len() == table.len(),
            table@.len() >= n * 80,
            found(table@, n as int, path@) == found_from(table@, n as int, path@, i as int),
        decreases n - i,
    {
        let at: usize = i as usize * ENTRY_SIZE;
        let field: &[u8] = &table[at..at + 64];
        let end: usize = bytes::find_nul(field);
        let name: &[u8] = &field[0..end];
        assert(name@ =~= entry_name(table@, i as int));
        if text::str_eq(text::utf8_or_empty(name), path) {
            return Some((bytes::read_le64(table, at + 64), bytes::read_le64(table, at + 72)));
        }
        i = i + 1;
    }
    None
}

// ── Queries ────────────────────────────────────────────────────────────────

/// How far a query has come.
#[derive(Clone, Copy, Debug, PartialEq, Eq, Structural)]
pub enum Stage {
    /// The first sector is on its way.
    Header,
    /// The table of this many files is on its way.
    Table { count: u32 },
    /// The file's bytes are on their way.
    Data,
}

/// A search for a file, which takes several reads of the disk.
pub struct FileQuery {
    /// The file's path.
    pub path: String,
    /// Whether its bytes are wanted, or only their place.
    pub want_data: bool,
    /// How far the search has come.
    pub stage: Stage,
}

/// What a query says.
#[verifier::ext_equal]
pub struct QueryView {
    pub path: Seq<char>,
    pub want_data: bool,
    pub stage: Stage,
}

impl View for FileQuery {
    type V = QueryView;

    open spec fn view(&self) -> QueryView {
        QueryView { path: self.path@, want_data: self.want_data, stage: self.stage }
    }
}

/// What a query asks for next.
pub enum Ask {
    /// Read these bytes of the disk.
    Read { offset: u64, size: u64 },
    /// The file is not there or cannot be read.
    Missing,
    /// The place of the file's bytes.
    Place { offset: u64, size: u64 },
    /// The file's bytes.
    Data(Vec<u8>),
}

/// What an `Ask` says.
#[verifier::ext_equal]
pub enum AskView {
    Read { offset: u64, size: u64 },
    Missing,
    Place { offset: u64, size: u64 },
    Data(Seq<u8>),
}

impl View for Ask {
    type V = AskView;

    open spec fn view(&self) -> AskView {
        match self {
            Ask::Read { offset, size } => AskView::Read { offset: *offset, size: *size },
            Ask::Missing => AskView::Missing,
            Ask::Place { offset, size } => AskView::Place { offset: *offset, size: *size },
            Ask::Data(d) => AskView::Data(d@),
        }
    }
}

/// What a step of a query leaves behind.
#[verifier::ext_equal]
pub struct Stepped {
    pub stage: Stage,
    pub log: Seq<u8>,
    pub ask: AskView,
}

/// A query whose table has arrived.
pub open spec fn table_stepped(q: QueryView, log: Seq<u8>, table: Seq<u8>, count: u32) -> Stepped {
    match found(table, count as int, q.path) {
        None => Stepped { stage: q.stage, log, ask: AskView::Missing },
        Some((offset, size)) => if !q.want_data {
            Stepped { stage: q.stage, log, ask: AskView::Place { offset, size } }
        } else if size == 0 {
            Stepped { stage: q.stage, log, ask: AskView::Data(Seq::empty()) }
        } else {
            Stepped { stage: Stage::Data, log, ask: AskView::Read { offset, size } }
        },
    }
}

/// The log with a note behind it, if the query is for a file's bytes.
pub open spec fn noted(q: QueryView, log: Seq<u8>, s: Seq<char>) -> Seq<u8> {
    if q.want_data {
        uart::put_str(log, s)
    } else {
        log
    }
}

/// What a query does with the bytes that it asked for; `reply` is none if the
/// disk failed. A query for a file's bytes notes why it failed.
pub open spec fn query_stepped(q: QueryView, log: Seq<u8>, reply: Option<Seq<u8>>) -> Stepped {
    match q.stage {
        Stage::Header => match reply {
            None => Stepped {
                stage: q.stage,
                log: noted(q, log, "xnrsfs: disk read error\n"@),
                ask: AskView::Missing,
            },
            Some(header) => match header_count(header) {
                None => Stepped {
                    stage: q.stage,
                    log: noted(q, log, "xnrsfs: bad magic\n"@),
                    ask: AskView::Missing,
                },
                Some(n) => if n == 0 {
                    Stepped { stage: q.stage, log, ask: AskView::Missing }
                } else {
                    Stepped {
                        stage: Stage::Table { count: n as u32 },
                        log,
                        ask: AskView::Read { offset: 8, size: (n * 80) as u64 },
                    }
                },
            },
        },
        Stage::Table { count } => match reply {
            None => Stepped { stage: q.stage, log, ask: AskView::Missing },
            Some(table) => table_stepped(q, log, table, count),
        },
        Stage::Data => match reply {
            None => Stepped {
                stage: q.stage,
                log: uart::put_str(log, "xnrsfs: read error for file\n"@),
                ask: AskView::Missing,
            },
            Some(data) => Stepped { stage: q.stage, log, ask: AskView::Data(data) },
        },
    }
}

/// How many bytes a query waits for at least.
pub open spec fn reply_len(stage: Stage) -> int {
    match stage {
        Stage::Header => 8,
        Stage::Table { count } => count * 80,
        Stage::Data => 0,
    }
}

/// Starts a search for the place of a file. The first sector is asked for.
#[must_use]
pub fn get_file_info(path: String) -> (r: FileQuery)
    ensures
        r@ == (QueryView { path: path@, want_data: false, stage: Stage::Header }),
{
    FileQuery { path, want_data: false, stage: Stage::Header }
}

/// Starts a search for the bytes of a file. The first sector is asked for.
#[must_use]
pub fn read_file(path: String) -> (r: FileQuery)
    ensures
        r@ == (QueryView { path: path@, want_data: true, stage: Stage::Header }),
{
    FileQuery { path, want_data: true, stage: Stage::Header }
}

impl FileQuery {
    /// Hands the query what it asked for; `reply` is none if the disk failed.
    pub fn step(&mut self, console: &mut Console, reply: Option<&[u8]>) -> (r: Ask)
        requires
            reply matches Some(d) ==> d@.len() >= reply_len(old(self)@.stage),
        ensures
            final(self)@.path == old(self)@.path,
            final(self)@.want_data == old(self)@.want_data,
            (Stepped { stage: final(self)@.stage, log: final(console)@, ask: r@ })
                == query_stepped(
                old(self)@,
                old(console)@,
                match reply {
                    Some(d) => Some(d@),
                    None => None,
                },
            ),
    {
        match self.stage {
            Stage::Header => {
                let header: &[u8] = match reply {
                    None => {
                        if self.want_data {
                            uart::write_str(console, "xnrsfs: disk read error\n");
                        }
                        return Ask::Missing;
                    },
                    Some(d) => d,
                };
                let count: u32 = match parse_header(header) {
                    None => {
                        if self.want_data {
                            uart::write_str(console, "xnrsfs: bad magic\n");
                        }
                        return Ask::Missing;
                    },
                    Some(n) => n,
                };
                if count == 0 {
                    return Ask::Missing;
                }
                self.stage = Stage::Table { count };
                Ask::Read { offset: 8, size: count as u64 * 80 }
            },
            Stage::Table { count } => {
                let table: &[u8] = match reply {
                    None => {
                        return Ask::Missing;
                    },
                    Some(d) => d,
                };
                match find_entry(table, count, self.path.as_str()) {
                    None => Ask::Missing,
                    Some((offset, size)) => if !self.want_data {
                        Ask::Place { offset, size }
                    } else if size == 0 {
                        let none: Vec<u8> = Vec::new();
                        assert(none@ =~= Seq::<u8>::empty());
                        Ask::Data(none)
                    } else {
                        self.stage = Stage::Data;
                        Ask::Read { offset, size }
                    },
                }
            },
            Stage::Data => match reply {
                None => {
                    uart::write_str(console, "xnrsfs: read error for file\n");
                    Ask::Missing
                },
                Some(d) => {
                    let mut out: Vec<u8> = Vec::new();
                    bytes::push_bytes(&mut out, d);
                    assert(out@ =~= d@);
                    Ask::Data(out)
                },
            },
        }
    }
}

/// The place of the file named `path` in an image.
pub open spec fn image_place(image: Seq<u8>, path: Seq<char>) -> Option<(u64, u64)> {
    match header_count(image) {
        None => None,
        Some(n) => found(image.skip(8), n, path),
    }
}

/// Whether an image holds its first sector and the whole of its table.
pub open spec fn image_ok(image: Seq<u8>) -> bool {
    &&& image.len() >= 512
    &&& header_count(image) matches Some(n) && 8 + n * 80 <= image.len()
}

/// Searching never depends on what follows the table.
proof fn lemma_found_prefix(t: Seq<u8>, u: Seq<u8>, n: int, path: Seq<char>, i: int)
    requires
        0 <= i,
        n * 80 <= t.len(),
        n * 80 <= u.len(),
        forall|k: int| 0 <= k < n * 80 ==> t[k] == u[k],
    ensures
        found_from(t, n, path, i) == found_from(u, n, path, i),
    decreases n - i,
{
    if i < n {
        lemma_found_prefix(t, u, n, path, i + 1);
        assert(t.subrange(i * 80, i * 80 + 64) =~= u.subrange(i * 80, i * 80 + 64));
        bytes::lemma_le_window(t, i * 80 + 64, u, i * 80 + 64, 8);
        bytes::lemma_le_window(t, i * 80 + 72, u, i * 80 + 72, 8);
    }
}

/// A query that is handed the bytes of an image finds the place of the file in
/// that image; where the file's bytes are wanted, those at that place are what
/// it asks for last.
pub proof fn law_query_finds(image: Seq<u8>, path: Seq<char>, want_data: bool, log: Seq<u8>)
    requires
        image_ok(image),
    ensures
        ({
            let q = QueryView { path, want_data, stage: Stage::Header };
            let a = query_stepped(q, log, Some(image.take(512)));
            match a.ask {
                AskView::Missing => image_place(image, path) is None && a.log == log,
                AskView::Read { offset, size } => {
                    let table = image.subrange(offset as int, offset + size);
                    let b = query_stepped(QueryView { stage: a.stage, ..q }, a.log, Some(table));
                    &&& offset + size <= image.len()
                    &&& size >= reply_len(a.stage)
                    &&& b.log == log
                    &&& match b.ask {
                        AskView::Missing => image_place(image, path) is None,
                        AskView::Place { offset, size } => !want_data && image_place(image, path)
                            == Some((offset, size)),
                        AskView::Read { offset, size } => want_data && image_place(image, path)
                            == Some((offset, size)) && b.stage == Stage::Data,
                        AskView::Data(d) => want_data && d.len() == 0 && (image_place(image, path)
                            matches Some((_, size)) && size == 0),
                    }
                },
                _ => false,
            }
        }),
{
    let n = header_count(image)->0;
    let head = image.take(512);
    bytes::lemma_le_window(head, 0, image, 0, 8);
    bytes::lemma_le_window(head, 4, image, 4, 4);
    assert(header_count(head) == Some(n));
    let table = image.subrange(8, 8 + n * 80);
    lemma_found_prefix(image.skip(8), table, n, path, 0);
}

// ── Listing ────────────────────────────────────────────────────────────────

/// The name of entry `i`, or `?` if it is no text.
pub open spec fn listed_name(table: Seq<u8>, i: int) -> Seq<char> {
    if vstd::utf8::valid_utf8(entry_name(table, i)) {
        vstd::utf8::decode_utf8(entry_name(table, i))
    } else {
        "?"@
    }
}

/// The lines of the first `n` entries.
pub open spec fn entries_listed(log: Seq<u8>, table: Seq<u8>, n: int) -> Seq<u8>
    decreases n,
{
    if n <= 0 {
        log
    } else {
        let a = uart::put_str(entries_listed(log, table, n - 1), "  "@);
        let b = uart::put_str(a, listed_name(table, n - 1));
        let c = uart::put_str(b, " ("@);
        let d = uart::put_hex(c, entry_place(table, n - 1).1);
        uart::put_str(d, " bytes)\n"@)
    }
}

/// The start of a listing: a note on what the first sector says.
pub open spec fn listing_started(log: Seq<u8>, header: Option<Seq<u8>>) -> Seq<u8> {
    match header {
        None => uart::put_str(log, "xnrsfs: disk not found or read error\n"@),
        Some(h) => match header_count(h) {
            None => uart::put_str(log, "xnrsfs: no xnrsfs image on disk\n"@),
            Some(n) => uart::put_str(
                uart::put_hex(uart::put_str(log, "xnrsfs: "@), n as u64),
                " file(s)\n"@,
            ),
        },
    }
}

/// Starts a listing from the first sector, none if the disk failed. Gives the
/// number of files whose table is to be read next.
pub fn list_files(console: &mut Console, header: Option<&[u8]>) -> (r: Option<u32>)
    requires
        header matches Some(h) ==> h@.len() >= 8,
    ensures
        final(console)@ == listing_started(
            old(console)@,
            match header {
                Some(h) => Some(h@),
                None => None,
            },
        ),
        match r {
            Some(n) => header is Some && header_count(header->0@) == Some(n as int),
            None => header is None || header_count(header->0@) is None,
        },
{
    let h: &[u8] = match header {
        None => {
            uart::write_str(console, "xnrsfs: disk not found or read error\n");
            return None;
        },
        Some(h) => h,
    };
    match parse_header(h) {
        None => {
            uart::write_str(console, "xnrsfs: no xnrsfs image on disk\n");
            None
        },
        Some(n) => {
            uart::write_str(console, "xnrsfs: ");
            uart::write_hex_u64(console, n as u64);
            uart::write_str(console, " file(s)\n");
            Some(n)
        },
    }
}

/// Lists the `n` entries of a table.
pub fn list_entries(console: &mut Console, table: &[u8], n: u32)
    requires
        table@.len() >= n * 80,
    ensures
        final(console)@ == entries_listed(old(console)@, table@, n as int),
{
    assert(table@.len() == table.len());
    let mut i: u32 = 0;
    while i < n
        invariant
            i <= n,
            table@.len() == table.len(),
            table@.len() >= n * 80,
            console@ == entries_listed(old(console)@, table@, i as int),
        decreases n - i,
    {
        let at: usize = i as usize * ENTRY_SIZE;
        let field: &[u8] = &table[at..at + 64];
        let end: usize = bytes::find_nul(field);
        let name: &[u8] = &field[0..end];
        assert(name@ =~= entry_name(table@, i as int));
        uart::write_str(console, "  ");
        match text::from_utf8(name) {
            Some(s) => {
                proof {
                    vstd::utf8::encode_utf8_decode_utf8(s@);
                }
                uart::write_str(console, s);
            },
            None => {
                uart::write_str(console, "?");
            },
        }
        uart::write_str(console, " (");
        uart::write_hex_u64(console, bytes::read_le64(table, at + 72));
        uart::write_str(console, " bytes)\n");
        i = i + 1;
    }
}

} // verus!
