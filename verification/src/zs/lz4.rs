//! The LZ4 block codec.

use crate::zs::store::MAX_OBJECT_SIZE;
use vstd::prelude::*;

verus! {

/// What the LZ4 block `block` decompresses to in an output buffer of
/// `capacity` bytes; `None` if the block is malformed or does not fit.
pub uninterp spec fn lz4_decoded(block: Seq<u8>, capacity: nat) -> Option<Seq<u8>>;

/// `lz4_flex::block::CompressError`.
#[verifier::external_type_specification]
#[verifier::external_body]
pub struct ExCompressError(lz4_flex::block::CompressError);

/// `lz4_flex::block::DecompressError`.
#[verifier::external_type_specification]
#[verifier::external_body]
pub struct ExDecompressError(lz4_flex::block::DecompressError);

/// How many output bytes `lz4_flex` asks for to compress `n` input bytes.
pub open spec fn lz4_bound(n: int) -> int {
    20 + n * 110 / 100
}

/// Wraps `lz4_flex::block::get_maximum_output_size`: twenty bytes more than
/// the input length grown by a tenth.
#[verifier::external_body]
pub(crate) fn maximum_output_size(input_len: usize) -> (r: usize)
    requires
        input_len <= MAX_OBJECT_SIZE,
    ensures
        r == lz4_bound(input_len as int),
{
    lz4_flex::block::get_maximum_output_size(input_len)
}

/// Wraps `lz4_flex::block::compress_into`: it succeeds when the output buffer
/// has the size `get_maximum_output_size` asks for, and the bytes it reports
/// as written decompress to the input again. It is not stated which block it
/// writes: it looks repetitions up by hashes of 32-bit words in the byte order
/// of the machine, so that machines of different byte order write different
/// blocks for one input.
#[verifier::external_body]
pub(crate) fn compress_into(input: &[u8], output: &mut [u8]) -> (r: Result<
    usize,
    lz4_flex::block::CompressError,
>)
    requires
        input@.len() <= MAX_OBJECT_SIZE,
    ensures
        final(output)@.len() == old(output)@.len(),
        old(output)@.len() >= lz4_bound(input@.len() as int) ==> r is Ok,
        r matches Ok(n) ==> n <= final(output)@.len() && lz4_decoded(
            final(output)@.take(n as int),
            input@.len(),
        ) == Some(input@),
{
    lz4_flex::block::compress_into(input, output)
}

/// Wraps `lz4_flex::block::decompress_into`: on success the output starts with
/// the decompressed bytes and their number is returned. It is not stated what
/// the output holds after a failure, nor past the decompressed bytes.
#[verifier::external_body]
pub(crate) fn decompress_into(input: &[u8], output: &mut [u8]) -> (r: Result<
    usize,
    lz4_flex::block::DecompressError,
>)
    requires
        input@.len() <= MAX_OBJECT_SIZE,
    ensures
        final(output)@.len() == old(output)@.len(),
        match (r, lz4_decoded(input@, old(output)@.len())) {
            (Ok(n), Some(d)) => n == d.len() && n <= final(output)@.len() && final(output)@.take(
                n as int,
            ) == d,
            (Err(_), None) => true,
            _ => false,
        },
{
    lz4_flex::block::decompress_into(input, output)
}

} // verus!
