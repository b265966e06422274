//! Caches.

pub mod file_cache;
