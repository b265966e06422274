//! The clipboard: what it holds, and how the systems write lists of files into it.

pub mod access;
pub mod hdrop;
pub mod selection;
pub mod types;
pub mod uri_list;
pub mod wide;

pub use types::{ClipboardContent, DeviceId, FileMeta, SyncId, SyncMark};
