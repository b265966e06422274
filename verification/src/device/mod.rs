//! Devices: who this one is, and which others it is paired with.

pub mod hardware;
pub mod identity;
pub mod registry;
pub mod store;
