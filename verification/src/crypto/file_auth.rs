//! The credential of a request for a file from another network.
//!
//! Whoever asks for `GET /file/<hash>` must show that they hold the network key:
//! `X-ClipSync-Auth: hex(HMAC-SHA256(network_key, "clipsync-file-v1" || hash))`. A client without
//! the key can make no such credential. The context string keeps the code from being used for
//! anything else.

use vstd::prelude::*;

use crate::bytes;
use crate::bytes::{ct_eq, to_hex};
use crate::crypto::mac;
use crate::crypto::mac::hmac_code;
use crate::text;
use crate::text::trim;

verus! {

/// The context string that every credential is bound to.
pub const AUTH_CONTEXT: &'static str = "clipsync-file-v1";

/// The credential for `hash` under `key`.
pub open spec fn credential(key: Seq<u8>, hash: Seq<char>) -> Seq<char> {
    bytes::hex(mac::hmac_sha256(key, text::utf8(AUTH_CONTEXT@) + text::utf8(hash)))
}

/// The credential for `hash` under the network key: 64 lower-case hexadecimal digits.
pub fn auth_token(network_key: &[u8; 32], hash: &str) -> (r: String)
    ensures
        r@ == credential(network_key@, hash@),
        r@.len() == 64,
        forall|i: int|
            0 <= i < 64 ==> text::is_digit(#[trigger] r@[i]) || 'a' <= r@[i] <= 'f',
{
    let message = bytes::concat(AUTH_CONTEXT.as_bytes(), hash.as_bytes());
    let code = hmac_code(network_key, &message);
    proof {
        bytes::lemma_hex_chars(code@);
    }
    to_hex(&code)
}

/// Whether `presented`, white space at its ends aside, is the credential for `hash`. The empty
/// credential never is. Every byte is compared, wherever the first difference stands.
pub fn verify(network_key: &[u8; 32], hash: &str, presented: &str) -> (r: bool)
    ensures
        r == (text::trimmed(presented@) == credential(network_key@, hash@)),
        presented@.len() == 0 ==> !r,
        presented@ == credential(network_key@, hash@) ==> r,
{
    let expected = auth_token(network_key, hash);
    proof {
        law_own_credential_is_accepted(expected@);
    }
    if presented.is_empty() {
        assert(text::trimmed(presented@) =~= presented@);
        return false;
    }
    let given = trim(presented);
    let r = ct_eq(expected.as_str().as_bytes(), given.as_str().as_bytes());
    proof {
        vstd::utf8::encode_utf8_decode_utf8(expected@);
        vstd::utf8::encode_utf8_decode_utf8(given@);
    }
    r
}

/// Text of digits and letters is not changed by trimming, so a credential is accepted as it was
/// made.
pub proof fn law_own_credential_is_accepted(c: Seq<char>)
    requires
        forall|i: int| 0 <= i < c.len() ==> text::is_digit(#[trigger] c[i]) || 'a' <= c[i] <= 'f',
    ensures
        text::trimmed(c) == c,
{
    if c.len() > 0 {
        assert(text::is_digit(c[0]) || 'a' <= c[0] <= 'f');
        let n = c.len() - 1;
        assert(text::is_digit(c[n]) || 'a' <= c[n] <= 'f');
    }
    text::lemma_trimmed_fixed(c);
}

/// A credential is bound to the key and to the file: two of them agree exactly where HMAC-SHA256 gives the
/// same code for them.
pub proof fn law_credentials_are_bound_to_key_and_file(
    k: Seq<u8>,
    a: Seq<char>,
    l: Seq<u8>,
    b: Seq<char>,
)
    ensures
        credential(k, a) == credential(l, b) <==> mac::hmac_sha256(
            k,
            vstd::utf8::encode_utf8("clipsync-file-v1"@ + a),
        ) == mac::hmac_sha256(l, vstd::utf8::encode_utf8("clipsync-file-v1"@ + b)),
{
    text::lemma_utf8_concat("clipsync-file-v1"@, a);
    text::lemma_utf8_concat("clipsync-file-v1"@, b);
    let x = mac::hmac_sha256(k, text::utf8(AUTH_CONTEXT@) + text::utf8(a));
    let y = mac::hmac_sha256(l, text::utf8(AUTH_CONTEXT@) + text::utf8(b));
    if bytes::hex(x) == bytes::hex(y) {
        bytes::lemma_hex_injective(x, y);
    }
}

} // verus!
