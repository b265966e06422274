//! Key derivation with HKDF-SHA256.

use hkdf::Hkdf;
use sha2::Sha256;
use vstd::prelude::*;

use crate::bytes::array32;
use crate::error::{CryptoError, CryptoResult};
use crate::text;

verus! {

/// The error of the `hkdf` crate.
#[verifier::external_type_specification]
#[verifier::external_body]
pub struct ExInvalidLength(hkdf::InvalidLength);

/// The first `len` bytes that HKDF-SHA256 without salt derives from `ikm` and `info`.
pub uninterp spec fn hkdf_sha256(ikm: Seq<u8>, info: Seq<u8>, len: nat) -> Seq<u8>;

/// Calls `Hkdf::<Sha256>::new` without salt, then `expand`. It fails on more than 255 blocks of
/// 32 bytes and on no other length; what comes out has the length that was asked for and depends
/// on the three arguments alone.
#[verifier::external_body]
fn hkdf_expand(ikm: &[u8], info: &[u8], len: usize) -> (r: Result<Vec<u8>, hkdf::InvalidLength>)
    requires
        len <= 65536,
    ensures
        r is Ok <==> len <= 8160,
        r matches Ok(k) ==> k@ == hkdf_sha256(ikm@, info@, len as nat) && k@.len() == len,
{
    let mut okm = vec![0u8; len];
    Hkdf::<Sha256>::new(None, ikm).expand(info, &mut okm)?;
    Ok(okm)
}

/// The AES-256 key of a network, from its token and its identifier.
///
/// Every device of a network derives the same key from the same pair, so the server that relays
/// text sees ciphertext only. Another network identifier gives another key.
pub fn derive_network_key(token: &str, network_id: &str) -> (r: [u8; 32])
    ensures
        r@ == hkdf_sha256(text::utf8(token@), text::utf8(network_id@), 32),
{
    match hkdf_expand(token.as_bytes(), network_id.as_bytes(), 32) {
        Ok(k) => {
            assert(k@.subrange(0, 32) =~= k@);
            array32(&k, 0)
        },
        Err(_) => [0u8; 32],
    }
}

/// Derives the 64 bytes of session keys from a shared secret.
pub fn derive_session_keys(shared_secret: &[u8], info: &[u8]) -> (r: CryptoResult<[u8; 64]>)
    ensures
        r matches Ok(k) && k@ == hkdf_sha256(shared_secret@, info@, 64),
{
    match hkdf_expand(shared_secret, info, 64) {
        Ok(k) => {
            let mut a = [0u8; 64];
            let mut i: usize = 0;
            while i < 64
                invariant
                    i <= 64,
                    k@.len() == 64,
                    forall|j: int| 0 <= j < i ==> a@[j] == k@[j],
                decreases 64 - i,
            {
                a[i] = k[i];
                i += 1;
            }
            assert(a@ =~= k@);
            Ok(a)
        },
        Err(_) => Err(CryptoError::InvalidKey("invalid number of blocks, too large output".to_owned())),
    }
}

/// Splits session keys: the encryption key is the first half, the authentication key the second.
pub fn split_keys(okm: [u8; 64]) -> (r: ([u8; 32], [u8; 32]))
    ensures
        r.0@ == okm@.subrange(0, 32),
        r.1@ == okm@.subrange(32, 64),
{
    (array32(&okm, 0), array32(&okm, 32))
}

/// The two halves of the session keys, one behind the other, are the session keys.
pub proof fn law_split_keys_whole(okm: Seq<u8>)
    requires
        okm.len() == 64,
    ensures
        okm.subrange(0, 32) + okm.subrange(32, 64) == okm,
{
    assert(okm.subrange(0, 32) + okm.subrange(32, 64) =~= okm);
}

} // verus!
