//! Who this device is.
//!
//! A device has an identifier, a name and an X25519 key pair. The secret key is kept in the
//! system's key store.

use vstd::prelude::*;
use x25519_dalek::{PublicKey, StaticSecret};

use crate::bytes::array32;
use crate::clipboard::types::DeviceId;
use crate::crypto::random::os_random_32;
use crate::ids;
use crate::ids::new_uuid;
use crate::text;
use crate::text::{chars_of, concat3, string_of_range, trim};

verus! {

/// The key store's service for the identity key.
pub const KEYSTORE_SERVICE: &'static str = "com.clipsync.device";

/// The key store's account for the identity key.
pub const ACCOUNT_IDENTITY_KEY: &'static str = "identity-key";

/// The mark of an identifier that was made up because the machine has none.
pub const FALLBACK_ID_PREFIX: &'static str = "000000";

/// The number of random digits in such an identifier.
pub const FALLBACK_ID_RANDOM_LEN: usize = 12;

/// The X25519 public key of a secret key.
pub uninterp spec fn x25519_public(secret: Seq<u8>) -> Seq<u8>;

/// Calls `PublicKey::from` on a `StaticSecret`. The public key depends on the secret alone.
#[verifier::external_body]
fn public_of(secret: &[u8; 32]) -> (r: [u8; 32])
    ensures
        r@ == x25519_public(secret@),
{
    PublicKey::from(&StaticSecret::from(*secret)).to_bytes()
}

/// The identifier that is made up from a UUID: the mark and the first twelve digits.
pub open spec fn fallback_id(uuid: Seq<char>) -> Seq<char> {
    FALLBACK_ID_PREFIX@ + uuid.subrange(0, 8) + uuid.subrange(9, 13)
}

/// The identifier that is made up from a UUID.
pub fn fallback_from(uuid: &str) -> (r: String)
    requires
        ids::is_uuid_text(uuid@),
    ensures
        r@ == fallback_id(uuid@),
        is_fallback_id(r@),
{
    let v = chars_of(uuid);
    let a = string_of_range(&v, 0, 8);
    let b = string_of_range(&v, 9, 13);
    proof {
        law_fallback_ids_are_marked(uuid@);
    }
    concat3(FALLBACK_ID_PREFIX, a.as_str(), b.as_str())
}

/// `s` is the mark and twelve hexadecimal digits.
pub open spec fn is_fallback_id(s: Seq<char>) -> bool {
    &&& s.len() == 6 + FALLBACK_ID_RANDOM_LEN
    &&& FALLBACK_ID_PREFIX@.is_prefix_of(s)
    &&& forall|i: int| 6 <= i < s.len() ==> text::is_digit(#[trigger] s[i]) || 'a' <= s[i] <= 'f'
}

/// Every made-up identifier carries the mark and has twelve random digits behind it.
pub proof fn law_fallback_ids_are_marked(uuid: Seq<char>)
    requires
        ids::is_uuid_text(uuid),
    ensures
        is_fallback_id(fallback_id(uuid)),
{
    reveal_strlit("000000");
    let s = fallback_id(uuid);
    assert(s.subrange(0, 6) =~= FALLBACK_ID_PREFIX@);
    assert forall|i: int| 6 <= i < s.len() implies text::is_digit(#[trigger] s[i]) || 'a' <= s[i]
        <= 'f' by {
        if i < 14 {
            assert(s[i] == uuid[i - 6]);
        } else {
            assert(s[i] == uuid[i - 5]);
        }
    }
}

/// Settles the device's identifier: the configured one, else the machine's, else a made-up one
/// with the mark `000000`. The flag says whether it is new and has to be written to the
/// configuration.
pub fn resolve_device_id(configured: &str, hw: &str) -> (r: (String, bool))
    ensures
        text::trimmed(configured@).len() > 0 ==> r.0@ == text::trimmed(configured@) && !r.1,
        text::trimmed(configured@).len() == 0 ==> r.1,
        text::trimmed(configured@).len() == 0 && text::trimmed(hw@).len() > 0 ==> r.0@
            == text::trimmed(hw@),
        text::trimmed(configured@).len() == 0 && text::trimmed(hw@).len() == 0 ==> is_fallback_id(
            r.0@,
        ),
{
    let c = trim(configured);
    if !c.as_str().is_empty() {
        return (c, false);
    }
    let h = trim(hw);
    if !h.as_str().is_empty() {
        return (h, true);
    }
    (fallback_from(new_uuid().as_str()), true)
}

/// Who this device is, with its long-term key pair.
pub struct DeviceIdentity {
    pub id: DeviceId,
    pub name: String,
    pub public_key: [u8; 32],
    pub secret_key: [u8; 32],
}

impl Clone for DeviceIdentity {
    fn clone(&self) -> (r: Self)
        ensures
            r == *self,
    {
        DeviceIdentity {
            id: self.id.clone(),
            name: self.name.clone(),
            public_key: self.public_key,
            secret_key: self.secret_key,
        }
    }
}

impl DeviceIdentity {
    /// The public key belongs to the secret key.
    pub open spec fn wf(&self) -> bool {
        self.public_key@ == x25519_public(self.secret_key@)
    }

    /// The identity with a given secret key.
    pub fn from_secret(secret_key: [u8; 32], id: DeviceId, name: &str) -> (r: Self)
        ensures
            r.wf(),
            r.id == id,
            r.name@ == name@,
            r.secret_key == secret_key,
    {
        let public_key = public_of(&secret_key);
        DeviceIdentity { id, name: name.to_owned(), public_key, secret_key }
    }

    /// The identity whose secret key is `stored`, as the key store gave it, or a new one where it
    /// gave none. A stored key that does not have 32 bytes is an error. The flag says whether the
    /// key is new and has to be stored.
    pub fn new(stored: Option<Vec<u8>>, id: DeviceId, name: &str) -> (r: Result<
        (Self, bool),
        String,
    >)
        ensures
            match (stored, r) {
                (Some(b), Ok(p)) => b@.len() == 32 && p.0.secret_key@ == b@ && !p.1,
                (Some(b), Err(e)) => b@.len() != 32 && e@
                    == "stored identity key has wrong length"@,
                (None, Ok(p)) => p.1,
                (None, Err(_)) => false,
            },
            r matches Ok(p) ==> p.0.wf() && p.0.id == id && p.0.name@ == name@,
    {
        match stored {
            Some(b) => {
                if b.len() != 32 {
                    return Err("stored identity key has wrong length".to_owned());
                }
                assert(b@.subrange(0, 32) =~= b@);
                Ok((DeviceIdentity::from_secret(array32(&b, 0), id, name), false))
            },
            None => Ok((DeviceIdentity::from_secret(os_random_32(), id, name), true)),
        }
    }

    /// The bytes of the public key.
    pub fn public_key_bytes(&self) -> (r: [u8; 32])
        ensures
            r == self.public_key,
    {
        self.public_key
    }

    /// The secret key.
    pub fn secret(&self) -> (r: &[u8; 32])
        ensures
            *r == self.secret_key,
    {
        &self.secret_key
    }
}

/// A key that was stored and loaded again gives the same public key.
pub proof fn law_identity_survives_a_restart(a: DeviceIdentity, b: DeviceIdentity)
    requires
        a.wf(),
        b.wf(),
        a.secret_key@ == b.secret_key@,
    ensures
        a.public_key@ == b.public_key@,
{
}

/// A made-up identifier is six zeros and the first twelve digits of a UUID: different UUIDs give
/// different identifiers, as far as these digits differ.
pub proof fn law_fallback_ids_hold_twelve_digits_of_the_uuid(u: Seq<char>, i: int)
    requires
        u.len() == 36,
    ensures
        fallback_id(u).len() == 18,
        0 <= i < 6 ==> fallback_id(u)[i] == '0',
        0 <= i < 8 ==> fallback_id(u)[6 + i] == u[i],
        8 <= i < 12 ==> fallback_id(u)[6 + i] == u[i + 1],
{
    reveal_strlit("000000");
}

} // verus!
