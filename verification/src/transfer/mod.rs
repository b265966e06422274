//! Connections between devices and what travels over them.

pub mod handshake;
pub mod local_files;
pub mod manager;
pub mod offers;
pub mod paths;
pub mod relay;
pub mod websocket;
