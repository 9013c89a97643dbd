//! How a search for a file ends.

use crate::bytes;
use crate::kernel::fs::xnrsfs;
use crate::kernel::fs::xnrsfs::{AskView, QueryView, Stage};
use vstd::prelude::*;
use vstd::utf8::*;

verus! {

/// The bytes that come last are the file's. If the disk fails, the file is
/// missing, and the console says why.
pub proof fn law_last_reply_is_the_file(q: QueryView, log: Seq<u8>, data: Seq<u8>)
    requires
        q.stage == Stage::Data,
    ensures
        xnrsfs::query_stepped(q, log, Some(data)).ask == AskView::Data(data),
        xnrsfs::query_stepped(q, log, Some(data)).log == log,
        xnrsfs::query_stepped(q, log, None).ask == AskView::Missing,
        xnrsfs::query_stepped(q, log, None).log == log + encode_utf8(
            "xnrsfs: read error for file\n"@,
        ),
{
}

/// A disk that fails, one without a file system and one without files have no
/// file. For the first two the console says so, if the file's bytes were wanted.
pub proof fn law_no_files_without_table(q: QueryView, log: Seq<u8>, header: Seq<u8>)
    requires
        q.stage == Stage::Header,
        header.len() >= 8,
    ensures
        ({
            let failed = xnrsfs::query_stepped(q, log, None);
            let o = xnrsfs::query_stepped(q, log, Some(header));
            &&& failed.ask == AskView::Missing
            &&& failed.log == if q.want_data {
                log + encode_utf8("xnrsfs: disk read error\n"@)
            } else {
                log
            }
            &&& bytes::le32(header, 0) != 0x5352_4e58 ==> {
                &&& o.ask == AskView::Missing
                &&& o.log == if q.want_data {
                    log + encode_utf8("xnrsfs: bad magic\n"@)
                } else {
                    log
                }
            }
            &&& bytes::le32(header, 0) == 0x5352_4e58 ==> {
                &&& o.log == log
                &&& bytes::le32(header, 4) == 0 ==> o.ask == AskView::Missing
                &&& bytes::le32(header, 4) != 0 ==> o.ask == (AskView::Read {
                    offset: 8,
                    size: (bytes::le32(header, 4) * 80) as u64,
                })
            }
        }),
{
}

/// A table that cannot be read has no file, and nothing is said of it.
pub proof fn law_no_files_in_lost_table(q: QueryView, log: Seq<u8>)
    requires
        q.stage is Table,
    ensures
        xnrsfs::query_stepped(q, log, None).ask == AskView::Missing,
        xnrsfs::query_stepped(q, log, None).log == log,
{
}

/// A listing starts with how many files there are, or with why there are none.
pub proof fn law_listing_starts(log: Seq<u8>, header: Seq<u8>)
    requires
        header.len() >= 8,
    ensures
        xnrsfs::listing_started(log, None) == log + encode_utf8(
            "xnrsfs: disk not found or read error\n"@,
        ),
        bytes::le32(header, 0) != 0x5352_4e58 ==> xnrsfs::listing_started(log, Some(header)) == log
            + encode_utf8("xnrsfs: no xnrsfs image on disk\n"@),
        bytes::le32(header, 0) == 0x5352_4e58 ==> xnrsfs::listing_started(log, Some(header)) == log
            + encode_utf8("xnrsfs: "@) + crate::kernel::arch::uart::put_hex(
            Seq::empty(),
            bytes::le32(header, 4) as u64,
        ) + encode_utf8(" file(s)\n"@),
{
    let n = bytes::le32(header, 4) as u64;
    let a = log + encode_utf8("xnrsfs: "@);
    assert(crate::kernel::arch::uart::put_hex(a, n) =~= a + crate::kernel::arch::uart::put_hex(
        Seq::empty(),
        n,
    ));
}

} // verus!
