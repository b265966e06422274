//! SHA-256, HMAC-SHA256 and BLAKE3.

use hmac::{Hmac, Mac};
use sha2::{Digest, Sha256};
use vstd::prelude::*;

verus! {

/// The SHA-256 digest of a byte string.
pub uninterp spec fn sha256(data: Seq<u8>) -> Seq<u8>;

/// The HMAC-SHA256 code of a message under a key.
pub uninterp spec fn hmac_sha256(key: Seq<u8>, message: Seq<u8>) -> Seq<u8>;

/// The BLAKE3 digest of a byte string.
pub uninterp spec fn blake3(data: Seq<u8>) -> Seq<u8>;

/// Calls `Sha256::digest`. The digest has 32 bytes and depends on the data alone.
#[verifier::external_body]
pub(crate) fn sha256_digest(data: &[u8]) -> (r: Vec<u8>)
    ensures
        r@ == sha256(data@),
        r@.len() == 32,
{
    Sha256::digest(data).to_vec()
}

/// Calls `Hmac::<Sha256>::new_from_slice`, which takes a key of any length, then `update` and
/// `finalize`. The code has 32 bytes and depends on the key and the message alone.
#[verifier::external_body]
pub(crate) fn hmac_code(key: &[u8], message: &[u8]) -> (r: Vec<u8>)
    ensures
        r@ == hmac_sha256(key@, message@),
        r@.len() == 32,
{
    let mut mac = <Hmac<Sha256> as Mac>::new_from_slice(key).expect("hmac takes any key");
    mac.update(message);
    mac.finalize().into_bytes().to_vec()
}

/// Calls `blake3::hash`. The digest has 32 bytes and depends on the data alone.
#[verifier::external_body]
pub(crate) fn blake3_digest(data: &[u8]) -> (r: Vec<u8>)
    ensures
        r@ == blake3(data@),
        r@.len() == 32,
{
    ::blake3::hash(data).as_bytes().to_vec()
}

} // verus!
