//! The errors that the library reports.

use vstd::prelude::*;

verus! {

/// What went wrong in a cryptographic operation.
#[derive(Debug)]
pub enum CryptoError {
    /// Encryption failed.
    Encryption(String),
    /// Decryption failed: wrong key, wrong nonce, or changed bytes.
    Decryption(String),
    /// A key could not be derived.
    InvalidKey(String),
}

/// The words of an error of a cryptographic operation.
pub open spec fn crypto_text(e: CryptoError) -> Seq<char> {
    match e {
        CryptoError::Encryption(m) => m@,
        CryptoError::Decryption(m) => m@,
        CryptoError::InvalidKey(m) => m@,
    }
}

impl CryptoError {
    /// The words of the error.
    pub fn text(&self) -> (r: &str)
        ensures
            r@ == crypto_text(*self),
    {
        match self {
            CryptoError::Encryption(m) => m.as_str(),
            CryptoError::Decryption(m) => m.as_str(),
            CryptoError::InvalidKey(m) => m.as_str(),
        }
    }
}

/// The result of a cryptographic operation.
pub type CryptoResult<T> = Result<T, CryptoError>;

/// What went wrong on a connection.
#[derive(Debug)]
pub enum TransferError {
    /// A frame of the handshake could not be read or made.
    Handshake(String),
}

} // verus!
