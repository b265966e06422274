//! The connection to the server that joins devices on different networks.

pub mod conn;
pub mod endpoint;
pub mod lan;
pub mod os_info;
pub mod pull;
