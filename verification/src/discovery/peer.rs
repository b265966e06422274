//! A device that was found.

use vstd::prelude::*;

use crate::clipboard::types::DeviceId;

verus! {

/// A device in the address book.
#[derive(Debug, Clone)]
pub struct DiscoveredDevice {
    pub device_id: DeviceId,
    pub device_name: String,
    pub addr: String,
    pub port: u16,
    pub fingerprint: String,
}

/// A device on the local network.
#[derive(Debug)]
pub struct DiscoveredPeer {
    pub device_id: String,
    pub device_name: String,
    pub addr: String,
    /// The port that the device announces.
    pub port: u16,
}

impl Clone for DiscoveredPeer {
    fn clone(&self) -> (r: Self)
        ensures
            r == *self,
    {
        DiscoveredPeer {
            device_id: self.device_id.clone(),
            device_name: self.device_name.clone(),
            addr: self.addr.clone(),
            port: self.port,
        }
    }
}

} // verus!
