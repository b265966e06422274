//! The devices that this one is paired with.

use vstd::prelude::*;

use crate::clipboard::types::DeviceId;
use crate::strmap::StrMap;
use crate::text::same;

verus! {

/// Whether a device's key was confirmed.
#[derive(Debug, Clone, Copy, PartialEq, Eq, Structural)]
pub enum TrustLevel {
    Unverified,
    Verified,
}

/// A device that this one is paired with.
#[derive(Debug)]
pub struct PairedDevice {
    pub device_id: DeviceId,
    pub device_name: String,
    /// The first 16 bytes of the SHA-256 of the device's public key, in hexadecimal.
    pub fingerprint: String,
    pub trust: TrustLevel,
    /// When it was last connected, in seconds since the Unix epoch.
    pub last_seen: u64,
    /// The address under which it was last reached.
    pub last_addr: Option<String>,
}

impl Clone for PairedDevice {
    fn clone(&self) -> (r: Self)
        ensures
            r == *self,
    {
        PairedDevice {
            device_id: self.device_id.clone(),
            device_name: self.device_name.clone(),
            fingerprint: self.fingerprint.clone(),
            trust: self.trust,
            last_seen: self.last_seen,
            last_addr: self.last_addr.clone(),
        }
    }
}

/// The paired devices, by their identifier.
pub struct DeviceRegistry {
    devices: StrMap<PairedDevice>,
}

impl View for DeviceRegistry {
    type V = Map<Seq<char>, PairedDevice>;

    closed spec fn view(&self) -> Map<Seq<char>, PairedDevice> {
        self.devices@
    }
}

impl DeviceRegistry {
    /// The identifiers in the order of [`DeviceRegistry::list`].
    pub closed spec fn order(&self) -> Seq<Seq<char>> {
        self.devices.order()
    }

    /// Each device stands under its own identifier.
    #[verifier::type_invariant]
    pub open spec fn wf(&self) -> bool {
        forall|k: Seq<char>| #[trigger] self@.dom().contains(k) ==> self@[k].device_id.0@ == k
    }

    /// No devices.
    pub fn new() -> (r: Self)
        ensures
            r.wf(),
            r@ == Map::<Seq<char>, PairedDevice>::empty(),
    {
        DeviceRegistry { devices: StrMap::new() }
    }

    /// Puts a device in, in place of one with the same identifier.
    pub fn add(&mut self, device: PairedDevice)
        ensures
            final(self).wf(),
            final(self)@ == old(self)@.insert(device.device_id.0@, device),
    {
        proof {
            use_type_invariant(&*self);
        }
        let k = device.device_id.0.clone();
        let mut devices: StrMap<PairedDevice> = StrMap::new();
        std::mem::swap(&mut devices, &mut self.devices);
        let _ = devices.insert(k, device);
        self.devices = devices;
    }

    /// Takes a device out and returns whether it was in.
    pub fn remove(&mut self, id: &DeviceId) -> (r: bool)
        ensures
            final(self).wf(),
            final(self)@ == old(self)@.remove(id.0@),
            r == old(self)@.dom().contains(id.0@),
    {
        proof {
            use_type_invariant(&*self);
        }
        let mut devices: StrMap<PairedDevice> = StrMap::new();
        std::mem::swap(&mut devices, &mut self.devices);
        let r = devices.remove(id.0.as_str()).is_some();
        self.devices = devices;
        r
    }

    /// The device with an identifier.
    pub fn get(&self, id: &DeviceId) -> (r: Option<&PairedDevice>)
        ensures
            match r {
                Some(d) => self@.dom().contains(id.0@) && *d == self@[id.0@] && d.device_id.0@
                    == id.0@,
                None => !self@.dom().contains(id.0@),
            },
    {
        proof {
            use_type_invariant(self);
        }
        self.devices.get(id.0.as_str())
    }

    /// All devices, each once.
    pub fn list(&self) -> (r: Vec<PairedDevice>)
        ensures
            self.wf(),
            self.order().no_duplicates(),
            self.order().to_set() == self@.dom(),
            r@.len() == self.order().len(),
            forall|i: int|
                0 <= i < r@.len() ==> #[trigger] r@[i] == self@[self.order()[i]]
                    && r@[i].device_id.0@ == self.order()[i],
    {
        proof {
            use_type_invariant(self);
        }
        let mut out: Vec<PairedDevice> = Vec::new();
        let n: usize = self.devices.len();
        let mut i: usize = 0;
        while i < n
            invariant
                i <= n,
                n == self.devices.order().len(),
                self.wf(),
                self.order().to_set() == self@.dom(),
                out@.len() == i,
                forall|k: int|
                    0 <= k < i ==> #[trigger] out@[k] == self@[self.order()[k]]
                        && out@[k].device_id.0@ == self.order()[k],
            decreases n - i,
        {
            let d = self.devices.at(i).1.clone();
            assert(self.order().to_set().contains(self.order()[i as int]));
            out.push(d);
            i += 1;
        }
        out
    }

    /// Whether a device is in.
    pub fn contains(&self, id: &DeviceId) -> (r: bool)
        ensures
            r == self@.dom().contains(id.0@),
    {
        self.devices.contains_key(id.0.as_str())
    }

    /// The number of devices.
    pub fn len(&self) -> (r: usize)
        ensures
            r == self@.dom().len(),
    {
        self.devices.len()
    }

    /// Whether there is no device.
    pub fn is_empty(&self) -> (r: bool)
        ensures
            r == (self@ == Map::<Seq<char>, PairedDevice>::empty()),
    {
        self.devices.is_empty()
    }

    /// A device that was last reached under `addr`.
    pub fn find_by_addr(&self, addr: &str) -> (r: Option<PairedDevice>)
        ensures
            match r {
                Some(d) => d.last_addr is Some && d.last_addr->0@ == addr@ && self@.dom().contains(
                    d.device_id.0@,
                ) && self@[d.device_id.0@] == d,
                None => forall|k: Seq<char>| #[trigger] self@.dom().contains(k) ==>
                    !(self@[k].last_addr is Some && self@[k].last_addr->0@ == addr@),
            },
    {
        proof {
            use_type_invariant(self);
        }
        let n: usize = self.devices.len();
        let mut i: usize = 0;
        while i < n
            invariant
                i <= n,
                n == self.devices.order().len(),
                self.wf(),
                self.devices.order().to_set() == self@.dom(),
                forall|k: int| 0 <= k < i ==> {
                    let d = self@[#[trigger] self.order()[k]];
                    !(d.last_addr is Some && d.last_addr->0@ == addr@)
                },
            decreases n - i,
        {
            let (key, d) = self.devices.at(i);
            match &d.last_addr {
                Some(a) => {
                    if same(a.as_str(), addr) {
                        let r = d.clone();
                        assert(self.order().to_set().contains(self.order()[i as int]));
                        assert(self@[key@] == r);
                        return Some(r);
                    }
                },
                None => {},
            }
            i += 1;
        }
        proof {
            assert forall|k: Seq<char>| #[trigger] self@.dom().contains(k) implies !(self@[k].last_addr is Some
                && self@[k].last_addr->0@ == addr@) by {
                assert(self.order().to_set().contains(k));
                let j = choose|j: int| 0 <= j < self.order().len() && self.order()[j] == k;
                assert(self.order()[j] == k);
            }
        }
        None
    }
}

impl Default for DeviceRegistry {
    fn default() -> (r: Self)
        ensures
            r@ == Map::<Seq<char>, PairedDevice>::empty(),
    {
        DeviceRegistry::new()
    }
}

} // verus!
