//! Randomness drawn from the thread-local generator.
use rand::Rng;
use vstd::prelude::*;

verus! {

/// Relies on rand's `thread_rng` and `Rng::fill`: `len` bytes, each drawn at
/// random. Nothing is promised of their values.
#[verifier::external_body]
pub(crate) fn random_bytes(len: usize) -> (r: Vec<u8>)
    ensures
        r@.len() == len,
{
    let mut out = vec![0u8; len];
    rand::thread_rng().fill(out.as_mut_slice());
    out
}

/// Relies on rand's `Rng::gen_ratio`: `true` with probability
/// `numerator / denominator`. Its source returns `false` for a zero numerator
/// and `true` when the two are equal, and panics where the ratio is above one
/// or the denominator is zero.
#[verifier::external_body]
pub(crate) fn random_ratio(numerator: u32, denominator: u32) -> (r: bool)
    requires
        0 < denominator,
        numerator <= denominator,
    ensures
        numerator == 0 ==> !r,
        numerator == denominator ==> r,
{
    rand::thread_rng().gen_ratio(numerator, denominator)
}

} // verus!
