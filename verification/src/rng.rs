//! Fresh randomness: stable identities, crypto salts and nonces, protocol
//! challenges and session ids.

use vstd::prelude::*;

verus! {

/// Relies on rand::random: a value drawn from the thread-local generator.
/// Nothing can be promised of a random value.
#[verifier::external_body]
pub(crate) fn random_u64() -> u64 {
    rand::random()
}

/// Relies on rand::random: twelve random bytes from the thread-local
/// generator. Only the length is promised; the contents are random.
#[verifier::external_body]
pub(crate) fn random_bytes_12() -> (r: Vec<u8>)
    ensures
        r@.len() == 12,
{
    rand::random::<[u8; 12]>().to_vec()
}

/// Relies on rand::random: sixteen random bytes from the thread-local
/// generator. Only the length is promised; the contents are random.
#[verifier::external_body]
pub(crate) fn random_bytes_16() -> (r: Vec<u8>)
    ensures
        r@.len() == 16,
{
    rand::random::<[u8; 16]>().to_vec()
}

} // verus!
