//! Random bytes.

use rand::RngCore;
use vstd::prelude::*;

verus! {

/// Calls `OsRng::fill_bytes` on 32 bytes. Nothing is promised of what comes out.
#[verifier::external_body]
pub(crate) fn os_random_32() -> (r: [u8; 32]) {
    let mut b = [0u8; 32];
    rand::rngs::OsRng.fill_bytes(&mut b);
    b
}

/// Calls `rand::random` for a nonce. Nothing is promised of what comes out.
#[verifier::external_body]
pub(crate) fn random_nonce() -> (r: [u8; 12]) {
    rand::random()
}

/// Calls `ThreadRng::fill_bytes` on `n` bytes. Nothing is promised of what they are.
#[verifier::external_body]
pub(crate) fn random_bytes(n: usize) -> (r: Vec<u8>)
    requires
        n <= 1024,
    ensures
        r@.len() == n,
{
    let mut b = vec![0u8; n];
    rand::thread_rng().fill_bytes(&mut b);
    b
}

} // verus!
