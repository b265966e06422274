//! Finding other devices: on the local network, or under an address that the user typed.

pub mod manual;
pub mod mdns;
pub mod peer;

pub use peer::{DiscoveredDevice, DiscoveredPeer};
