//! Decoding that the server relies on other code for: Base64, through the
//! `base64` crate, and UTF-8, through the standard library.

use vstd::prelude::*;
use vstd::utf8::{decode_utf8, encode_utf8, valid_utf8};
use std::string::FromUtf8Error;
use base64::DecodeError;

verus! {

/// The error `base64::decode` returns; nothing inside it is relied on.
#[verifier::external_type_specification]
#[verifier::external_body]
pub struct ExDecodeError(DecodeError);

/// The error `String::from_utf8` returns; nothing inside it is relied on.
#[verifier::external_type_specification]
#[verifier::external_body]
pub struct ExFromUtf8Error(FromUtf8Error);

/// The bytes that the standard Base64 alphabet, as the `base64` crate decodes
/// it, gives for `text`; `None` when the crate rejects `text`.
pub uninterp spec fn base64_decoded(text: Seq<char>) -> Option<Seq<u8>>;

/// The text takes no more bytes than an allocation can hold.
pub open spec fn fits_in_memory(text: Seq<char>) -> bool {
    encode_utf8(text).len() <= isize::MAX
}

/// `base64::decode` of the bytes of `text`, with the standard alphabet.
/// Claimed: the result is `Ok` exactly when `base64_decoded` has a value for
/// `text`, and then holds those bytes. The crate panics only when the length
/// of its input overflows a `usize` in its size estimates, which `requires`
/// rules out.
#[verifier::external_body]
pub(crate) fn decode_base64(text: &str) -> (r: Result<Vec<u8>, DecodeError>)
    requires
        fits_in_memory(text@),
    ensures
        match r {
            Ok(bytes) => base64_decoded(text@) == Some(bytes@),
            Err(_) => base64_decoded(text@) is None,
        },
{
    base64::decode(text)
}

/// `String::from_utf8`. Claimed, as its documentation says: the result is
/// `Ok` exactly when `bytes` are well-formed UTF-8, and then holds the
/// characters they encode.
#[verifier::external_body]
pub(crate) fn string_from_utf8(bytes: Vec<u8>) -> (r: Result<String, FromUtf8Error>)
    ensures
        match r {
            Ok(text) => valid_utf8(bytes@) && text@ == decode_utf8(bytes@),
            Err(_) => !valid_utf8(bytes@),
        },
{
    String::from_utf8(bytes)
}

/// Dropping characters from the front of a text does not make its encoding longer.
pub proof fn lemma_encode_utf8_skip(s: Seq<char>, k: int)
    requires
        0 <= k <= s.len(),
    ensures
        encode_utf8(s.skip(k)).len() <= encode_utf8(s).len(),
    decreases k,
{
    if k > 0 {
        lemma_encode_utf8_skip(s.drop_first(), k - 1);
        assert(s.drop_first().skip(k - 1) =~= s.skip(k));
    } else {
        assert(s.skip(0) =~= s);
    }
}

} // verus!
