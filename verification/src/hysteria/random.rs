//! Random numbers.

use vstd::prelude::*;

verus! {

/// A random number of at most `most`, from `rand::Rng::random_range` on the
/// thread's generator: the inclusive range that it is given holds the result.
#[verifier::external_body]
pub(crate) fn random_upto(most: u64) -> (n: u64)
    ensures
        n <= most,
{
    rand::Rng::random_range(&mut rand::rng(), 0..=most)
}

/// Random bytes, from `rand::Rng::fill` on the thread's generator: it writes
/// the whole slice and leaves its length. Nothing holds of the bytes.
#[verifier::external_body]
pub(crate) fn random_bytes(len: usize) -> (bytes: Vec<u8>)
    ensures
        bytes@.len() == len,
{
    let mut bytes: Vec<u8> = vec![0u8; len];
    rand::Rng::fill(&mut rand::rng(), &mut bytes[..]);
    bytes
}

} // verus!
