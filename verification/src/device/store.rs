//! How pairings are kept across restarts.
//!
//! What is shown of a device lies in a plain file. The secret with which it is reconnected lies in
//! the system's key store, or, where there is none, in a file that only its owner can read.

use std::string::FromUtf8Error;
use vstd::prelude::*;

use crate::clipboard::types::DeviceId;
use crate::device::registry::{PairedDevice, TrustLevel};
use crate::strmap::StrMap;
use crate::text;

verus! {

/// The file of the paired devices.
pub const DEVICES_FILE: &'static str = "paired_devices.json";

/// The file of the secrets that the key store did not take.
pub const SECRETS_FILE: &'static str = "paired_secrets.json";

/// The key store's service for the secrets.
pub const KEYSTORE_SERVICE: &'static str = "com.clipsync.pairing";

/// The error of bytes that are no UTF-8.
#[verifier::external_type_specification]
#[verifier::external_body]
pub struct ExFromUtf8Error(FromUtf8Error);

/// `String::from_utf8` gives the text that the bytes encode, and fails exactly where they are no
/// UTF-8.
pub assume_specification[ String::from_utf8 ](vec: Vec<u8>) -> (r: Result<String, FromUtf8Error>)
    ensures
        r is Ok <==> vstd::utf8::valid_utf8(vec@),
        r matches Ok(s) ==> s@ == vstd::utf8::decode_utf8(vec@),
;

/// A paired device as it lies on disk.
#[derive(Debug)]
pub struct PairedRecord {
    pub device_id: String,
    pub device_name: String,
    pub fingerprint: String,
    pub verified: bool,
    pub last_seen: u64,
    pub last_addr: Option<String>,
}

/// The record of a device.
pub open spec fn record_of(d: PairedDevice) -> PairedRecord {
    PairedRecord {
        device_id: d.device_id.0,
        device_name: d.device_name,
        fingerprint: d.fingerprint,
        verified: d.trust == TrustLevel::Verified,
        last_seen: d.last_seen,
        last_addr: d.last_addr,
    }
}

/// The device of a record.
pub open spec fn device_of(r: PairedRecord) -> PairedDevice {
    PairedDevice {
        device_id: DeviceId(r.device_id),
        device_name: r.device_name,
        fingerprint: r.fingerprint,
        trust: if r.verified {
            TrustLevel::Verified
        } else {
            TrustLevel::Unverified
        },
        last_seen: r.last_seen,
        last_addr: r.last_addr,
    }
}

impl<'a> From<&'a PairedDevice> for PairedRecord {
    fn from(d: &'a PairedDevice) -> (r: Self) {
        PairedRecord {
            device_id: d.device_id.0.clone(),
            device_name: d.device_name.clone(),
            fingerprint: d.fingerprint.clone(),
            verified: d.trust == TrustLevel::Verified,
            last_seen: d.last_seen,
            last_addr: d.last_addr.clone(),
        }
    }
}

impl<'a> vstd::std_specs::convert::FromSpecImpl<&'a PairedDevice> for PairedRecord {
    open spec fn obeys_from_spec() -> bool {
        true
    }

    open spec fn from_spec(d: &'a PairedDevice) -> Self {
        record_of(*d)
    }
}

impl From<PairedRecord> for PairedDevice {
    fn from(r: PairedRecord) -> (d: Self) {
        PairedDevice {
            device_id: DeviceId(r.device_id),
            device_name: r.device_name,
            fingerprint: r.fingerprint,
            trust: if r.verified {
                TrustLevel::Verified
            } else {
                TrustLevel::Unverified
            },
            last_seen: r.last_seen,
            last_addr: r.last_addr,
        }
    }
}

impl vstd::std_specs::convert::FromSpecImpl<PairedRecord> for PairedDevice {
    open spec fn obeys_from_spec() -> bool {
        true
    }

    open spec fn from_spec(r: PairedRecord) -> Self {
        device_of(r)
    }
}

/// A device that was saved and loaded again is the same device, and a record likewise.
pub proof fn law_records_and_devices_round_trip(d: PairedDevice, r: PairedRecord)
    ensures
        device_of(record_of(d)) == d,
        record_of(device_of(r)) == r,
{
}

/// The devices of the records in the file. A file that is missing or cannot be read holds none.
pub fn load_devices(records: Option<Vec<PairedRecord>>) -> (r: Vec<PairedDevice>)
    ensures
        match records {
            Some(v) => r@.len() == v@.len() && forall|i: int|
                0 <= i < r@.len() ==> #[trigger] r@[i] == device_of(v@[i]),
            None => r@.len() == 0,
        },
{
    let mut out: Vec<PairedDevice> = Vec::new();
    match records {
        Some(v) => {
            let ghost all = v@;
            for x in it: v
                invariant
                    it.seq() == all,
                    out@.len() == it.index(),
                    forall|k: int| 0 <= k < out@.len() ==> #[trigger] out@[k] == device_of(all[k]),
            {
                out.push(PairedDevice::from(x));
            }
        },
        None => {},
    }
    out
}

/// The records that are written for the devices.
pub fn save_devices(devices: &[PairedDevice]) -> (r: Vec<PairedRecord>)
    ensures
        r@.len() == devices@.len(),
        forall|i: int| 0 <= i < r@.len() ==> #[trigger] r@[i] == record_of(devices@[i]),
{
    let mut out: Vec<PairedRecord> = Vec::new();
    let mut i: usize = 0;
    while i < devices.len()
        invariant
            i <= devices@.len(),
            out@.len() == i,
            forall|k: int| 0 <= k < i ==> #[trigger] out@[k] == record_of(devices@[k]),
        decreases devices@.len() - i,
    {
        out.push(PairedRecord::from(&devices[i]));
        i += 1;
    }
    out
}

/// The secrets that lie in the file, by device.
pub struct FallbackSecrets {
    pub map: StrMap<String>,
}

/// The text that lies in the key store, where it is text and not empty.
pub open spec fn keystore_text(bytes: Option<Seq<u8>>) -> Option<Seq<char>> {
    if bytes is Some && vstd::utf8::valid_utf8(bytes->0) && vstd::utf8::decode_utf8(bytes->0).len()
        > 0 {
        Some(vstd::utf8::decode_utf8(bytes->0))
    } else {
        None
    }
}

impl FallbackSecrets {
    /// After the key store was asked to take a secret: where it did, a copy in the file goes; where
    /// it did not, the secret is put there. Returns whether the file has to be written.
    pub fn store_secret(&mut self, keystore_took_it: bool, device_id: &str, secret: &str) -> (r: bool)
        ensures
            keystore_took_it ==> final(self).map@ == old(self).map@.remove(device_id@),
            keystore_took_it ==> r == old(self).map@.dom().contains(device_id@),
            !keystore_took_it ==> r,
            !keystore_took_it ==> exists|s: String|
                s@ == secret@ && #[trigger] old(self).map@.insert(device_id@, s) == final(self).map@,
    {
        if keystore_took_it {
            self.map.remove(device_id).is_some()
        } else {
            let _ = self.map.insert(device_id.to_owned(), secret.to_owned());
            true
        }
    }

    /// The secret of a device: what the key store holds, where that is text and not empty, else
    /// what the file holds.
    pub fn load_secret(&self, keystore: Option<Vec<u8>>, device_id: &str) -> (r: Option<String>)
        ensures
            ({
                let k = keystore_text(
                    match keystore {
                        Some(b) => Some(b@),
                        None => None,
                    },
                );
                if k is Some {
                    r matches Some(s) && s@ == k->0
                } else if self.map@.dom().contains(device_id@) {
                    r == Some(self.map@[device_id@])
                } else {
                    r is None
                }
            }),
    {
        match keystore {
            Some(b) => match String::from_utf8(b) {
                Ok(s) => {
                    if !s.as_str().is_empty() {
                        return Some(s);
                    }
                },
                Err(_) => {},
            },
            None => {},
        }
        match self.map.get(device_id) {
            Some(s) => Some(s.clone()),
            None => None,
        }
    }

    /// Forgets the secret of a device. Returns whether the file has to be written.
    pub fn delete_secret(&mut self, device_id: &str) -> (r: bool)
        ensures
            final(self).map@ == old(self).map@.remove(device_id@),
            r == old(self).map@.dom().contains(device_id@),
    {
        self.map.remove(device_id).is_some()
    }
}

/// What is stored of a device is all that is known of it, and comes back with it.
pub proof fn law_records_hold_all_of_a_device(d: PairedDevice, r: PairedRecord)
    ensures
        record_of(d).device_id@ == d.device_id.0@,
        record_of(d).device_name@ == d.device_name@,
        record_of(d).fingerprint@ == d.fingerprint@,
        record_of(d).verified <==> d.trust == TrustLevel::Verified,
        record_of(d).last_seen == d.last_seen,
        record_of(d).last_addr == d.last_addr,
        device_of(r).device_id.0@ == r.device_id@,
        device_of(r).device_name@ == r.device_name@,
        device_of(r).fingerprint@ == r.fingerprint@,
        device_of(r).trust == TrustLevel::Verified <==> r.verified,
        device_of(r).last_seen == r.last_seen,
        device_of(r).last_addr == r.last_addr,
{
}

/// A secret that is text comes back from the key store as it is; no bytes and no text are none.
pub proof fn law_secrets_come_back_from_the_key_store(s: Seq<char>)
    ensures
        s.len() > 0 ==> keystore_text(Some(vstd::utf8::encode_utf8(s))) == Some(s),
        keystore_text(None) is None,
        keystore_text(Some(seq![])) is None,
{
    vstd::utf8::encode_utf8_valid_utf8(s);
    vstd::utf8::encode_utf8_decode_utf8(s);
    let none: Seq<char> = seq![];
    vstd::utf8::encode_utf8_decode_utf8(none);
    assert(vstd::utf8::encode_utf8(none) =~= Seq::<u8>::empty());
}

} // verus!
