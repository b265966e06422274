//! Cryptography.
//!
//! - [`aead`]: AES-256-GCM
//! - [`kdf`]: key derivation
//! - [`mac`]: hashes and message authentication codes
//! - [`pake`]: SPAKE2 pairing
//! - [`keystore`]: where the long-term secrets are kept
//! - [`file_auth`]: the credential of a request for a file

pub mod aead;
pub mod file_auth;
pub mod kdf;
pub mod keystore;
pub mod mac;
pub mod pake;
pub(crate) mod random;
