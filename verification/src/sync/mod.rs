//! Keeping clipboards in step without echoes.

pub mod anti_loop;
pub mod conflict;
pub mod engine;
