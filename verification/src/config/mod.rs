//! The settings and how they are kept.

pub mod migration;
pub mod persist;
pub mod settings;

pub use settings::AppConfig;
