//! Base64.

use base64::engine::general_purpose::STANDARD;
use base64::Engine;
use vstd::prelude::*;

verus! {

/// The error of text that is no Base64.
#[verifier::external_type_specification]
#[verifier::external_body]
pub struct ExDecodeError(base64::DecodeError);

/// The Base64 text of bytes, with padding.
pub uninterp spec fn base64_text(data: Seq<u8>) -> Seq<char>;

/// The bytes of a Base64 text, or what is wrong with it.
pub uninterp spec fn base64_decoded(text: Seq<char>) -> Result<Seq<u8>, base64::DecodeError>;

/// The words of the error of text that is no Base64.
pub uninterp spec fn decode_error_words(e: base64::DecodeError) -> Seq<char>;

/// The bytes of a Base64 text; `None` where it is none.
pub open spec fn base64_bytes(text: Seq<char>) -> Option<Seq<u8>> {
    match base64_decoded(text) {
        Ok(b) => Some(b),
        Err(_) => None,
    }
}

/// Calls `STANDARD.encode`. The text depends on the bytes alone and decodes to them.
#[verifier::external_body]
pub(crate) fn base64_encode(data: &[u8]) -> (r: String)
    ensures
        r@ == base64_text(data@),
        base64_bytes(r@) == Some(data@),
{
    STANDARD.encode(data)
}

/// Calls `STANDARD.decode`. Whether it succeeds, with which bytes and with which error, depends on the
/// text alone.
#[verifier::external_body]
pub(crate) fn base64_decode(text: &str) -> (r: Result<Vec<u8>, base64::DecodeError>)
    ensures
        match r {
            Ok(b) => base64_decoded(text@) == Ok::<Seq<u8>, base64::DecodeError>(b@),
            Err(e) => base64_decoded(text@) == Err::<Seq<u8>, base64::DecodeError>(e),
        },
{
    STANDARD.decode(text)
}

/// Calls `to_string` on a `DecodeError`. The words depend on the error alone.
#[verifier::external_body]
pub(crate) fn decode_error_text(e: &base64::DecodeError) -> (r: String)
    ensures
        r@ == decode_error_words(*e),
{
    e.to_string()
}

} // verus!
