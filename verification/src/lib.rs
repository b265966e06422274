//! ClipSync: clipboard synchronisation between paired devices.

pub mod bytes;
pub mod cache;
pub mod clipboard;
pub mod clock;
pub mod commands;
pub mod config;
pub mod crypto;
pub mod device;
pub mod discovery;
pub mod encoding;
pub mod error;
pub mod file_server;
pub mod file_share;
pub mod fingerprint;
pub mod ids;
pub mod log_viewer;
pub mod obs;
pub mod outbox;
pub mod received;
pub mod server_conn;
pub mod startup;
pub mod strmap;
pub mod sync;
pub mod text;
pub mod transfer;
pub mod tray;
pub mod update;
