//! Observing the program.

pub mod logging;
