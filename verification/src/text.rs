//! Text: the UTF-8 reading of bytes, and comparison of strings.

use vstd::prelude::*;
use vstd::utf8::*;

use crate::bytes;

verus! {

/// Wraps `core::str::from_utf8`: the text whose UTF-8 bytes are `bytes`, if the
/// bytes are valid UTF-8, and `None` if they are not.
#[verifier::external_body]
pub(crate) fn from_utf8<'a>(bytes: &'a [u8]) -> (r: Option<&'a str>)
    ensures
        r is Some <==> valid_utf8(bytes@),
        r matches Some(s) ==> encode_utf8(s@) == bytes@,
{
    core::str::from_utf8(bytes).ok()
}

/// The text that valid UTF-8 bytes stand for, and the empty text for other
/// bytes.
pub open spec fn text_or_empty(bytes: Seq<u8>) -> Seq<char> {
    if valid_utf8(bytes) {
        decode_utf8(bytes)
    } else {
        Seq::empty()
    }
}

/// Read `bytes` as text, or give the empty text if they are not valid UTF-8.
pub fn utf8_or_empty<'a>(bytes: &'a [u8]) -> (r: &'a str)
    ensures
        r@ == text_or_empty(bytes@),
{
    match from_utf8(bytes) {
        Some(s) => {
            proof {
                encode_utf8_decode_utf8(s@);
            }
            s
        },
        None => {
            proof {
                reveal_strlit("");
                assert(""@ =~= Seq::<char>::empty());
            }
            ""
        },
    }
}

/// Two texts with the same UTF-8 bytes are the same text.
pub proof fn lemma_utf8_injective(a: Seq<char>, b: Seq<char>)
    ensures
        encode_utf8(a) == encode_utf8(b) <==> a == b,
{
    encode_utf8_decode_utf8(a);
    encode_utf8_decode_utf8(b);
}

/// Whether two strings are the same text.
pub fn str_eq(a: &str, b: &str) -> (r: bool)
    ensures
        r == (a@ == b@),
{
    proof {
        lemma_utf8_injective(a@, b@);
    }
    bytes::bytes_eq(a.as_bytes(), b.as_bytes())
}

} // verus!
