//! AES-256-GCM encryption.

use aes_gcm::aead::{Aead, AeadInPlace, KeyInit};
use aes_gcm::{Aes256Gcm, Key, Nonce};
use vstd::prelude::*;

use crate::error::{CryptoError, CryptoResult};

verus! {

/// The length of a nonce in bytes.
pub const NONCE_SIZE: usize = 12;

/// The length of a key in bytes.
pub const KEY_SIZE: usize = 32;

/// The length of the authentication tag behind every ciphertext.
pub const TAG_SIZE: usize = 16;

/// The longest plaintext that AES-GCM takes.
pub const MAX_PLAINTEXT: u64 = 0x10_0000_0000;

/// The error of the `aes-gcm` crate.
#[verifier::external_type_specification]
#[verifier::external_body]
pub struct ExAeadError(aes_gcm::Error);

/// What AES-256-GCM makes of a plaintext under a key and a nonce, without associated data: the
/// ciphertext and the tag behind it.
pub uninterp spec fn aes_gcm_sealed(key: Seq<u8>, nonce: Seq<u8>, plaintext: Seq<u8>) -> Seq<u8>;

/// What AES-256-GCM reads from a ciphertext with its tag; `None` where the tag does not match.
pub uninterp spec fn aes_gcm_opened(key: Seq<u8>, nonce: Seq<u8>, ciphertext: Seq<u8>) -> Option<
    Seq<u8>,
>;

/// Calls `Aes256Gcm::encrypt`. It fails on a plaintext of more than 2^36 bytes and on no other;
/// the ciphertext is 16 bytes longer than the plaintext, depends on the three arguments alone,
/// and opens to the plaintext under the same key and nonce.
#[verifier::external_body]
fn aes_gcm_encrypt(key: &[u8; 32], nonce: &[u8; 12], plaintext: &[u8]) -> (r: Result<
    Vec<u8>,
    aes_gcm::Error,
>)
    ensures
        r is Ok <==> plaintext@.len() <= MAX_PLAINTEXT,
        r matches Ok(c) ==> {
            &&& c@ == aes_gcm_sealed(key@, nonce@, plaintext@)
            &&& c@.len() == plaintext@.len() + TAG_SIZE
            &&& aes_gcm_opened(key@, nonce@, c@) == Some(plaintext@)
        },
{
    Aes256Gcm::new(Key::<Aes256Gcm>::from_slice(key)).encrypt(Nonce::from_slice(nonce), plaintext)
}

/// Calls `Aes256Gcm::decrypt_in_place` with empty associated data. Where the tag matches, the
/// buffer is left with the plaintext, 16 bytes shorter; where it does not, or the buffer is
/// shorter than a tag, the call fails. What the buffer holds after a failure is left open.
#[verifier::external_body]
fn aes_gcm_decrypt_in_place(key: &[u8; 32], nonce: &[u8; 12], buf: &mut Vec<u8>) -> (r: Result<
    (),
    aes_gcm::Error,
>)
    ensures
        r is Ok <==> aes_gcm_opened(key@, nonce@, old(buf)@) is Some,
        r is Ok ==> aes_gcm_opened(key@, nonce@, old(buf)@) == Some(final(buf)@),
        r is Ok ==> final(buf)@.len() + TAG_SIZE == old(buf)@.len(),
{
    Aes256Gcm::new(Key::<Aes256Gcm>::from_slice(key)).decrypt_in_place(
        Nonce::from_slice(nonce),
        b"",
        buf,
    )
}

/// A ciphertext with its nonce and code.
pub struct EncryptedMessage {
    pub nonce: [u8; 12],
    pub ciphertext: Vec<u8>,
    pub hmac: [u8; 32],
}

/// What `aead::Error` says of itself.
pub open spec fn aead_error_text() -> Seq<char> {
    "aead::Error"@
}

/// Encrypts `plaintext` under `key` and `nonce`. Fails on more than 2^36 bytes only.
pub fn encrypt(key: &[u8; 32], nonce: &[u8; 12], plaintext: &[u8]) -> (r: CryptoResult<Vec<u8>>)
    ensures
        r is Ok <==> plaintext@.len() <= MAX_PLAINTEXT,
        match r {
            Ok(c) => {
                &&& c@ == aes_gcm_sealed(key@, nonce@, plaintext@)
                &&& c@.len() == plaintext@.len() + TAG_SIZE
                &&& aes_gcm_opened(key@, nonce@, c@) == Some(plaintext@)
            },
            Err(e) => e matches CryptoError::Encryption(m) && m@ == aead_error_text(),
        },
{
    match aes_gcm_encrypt(key, nonce, plaintext) {
        Ok(c) => Ok(c),
        Err(_) => Err(CryptoError::Encryption("aead::Error".to_owned())),
    }
}

/// Decrypts `ciphertext`. Fails exactly where the tag does not match.
pub fn decrypt(key: &[u8; 32], nonce: &[u8; 12], ciphertext: &[u8]) -> (r: CryptoResult<Vec<u8>>)
    ensures
        match r {
            Ok(p) => {
                &&& aes_gcm_opened(key@, nonce@, ciphertext@) == Some(p@)
                &&& p@.len() + TAG_SIZE == ciphertext@.len()
            },
            Err(e) => {
                &&& aes_gcm_opened(key@, nonce@, ciphertext@) is None
                &&& e matches CryptoError::Decryption(m) && m@ == aead_error_text()
            },
        },
{
    let mut buf: Vec<u8> = vstd::slice::slice_to_vec(ciphertext);
    match decrypt_in_place(key, nonce, &mut buf) {
        Ok(()) => Ok(buf),
        Err(e) => Err(e),
    }
}

/// Decrypts in place: on success `buf` holds the plaintext. After a failure what `buf` holds is
/// of no use and must be thrown away.
///
/// The ciphertext's buffer is used again, so a large file is held in memory once, not twice.
pub fn decrypt_in_place(key: &[u8; 32], nonce: &[u8; 12], buf: &mut Vec<u8>) -> (r: CryptoResult<
    (),
>)
    ensures
        match r {
            Ok(_) => {
                &&& aes_gcm_opened(key@, nonce@, old(buf)@) == Some(final(buf)@)
                &&& final(buf)@.len() + TAG_SIZE == old(buf)@.len()
            },
            Err(e) => {
                &&& aes_gcm_opened(key@, nonce@, old(buf)@) is None
                &&& e matches CryptoError::Decryption(m) && m@ == aead_error_text()
            },
        },
{
    match aes_gcm_decrypt_in_place(key, nonce, buf) {
        Ok(()) => Ok(()),
        Err(_) => Err(CryptoError::Decryption("aead::Error".to_owned())),
    }
}

/// How much longer a ciphertext is than its plaintext.
pub fn in_place_overhead() -> (r: usize)
    ensures
        r == TAG_SIZE,
{
    TAG_SIZE
}

} // verus!
