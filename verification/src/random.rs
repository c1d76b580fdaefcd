//! The pseudorandom source of the simulation.
//!
//! The generator is `fastrand::Rng`. What it returns is not modelled: the
//! contracts below state only the range that each draw falls in.

use vstd::prelude::*;
use fastrand::Rng;

verus! {

#[verifier::external_type_specification]
#[verifier::external_body]
pub struct ExRng(Rng);

/// Draws a boolean with `fastrand::Rng::bool`. Nothing is claimed of the value.
#[verifier::external_body]
pub(crate) fn random_bool(rng: &mut Rng) -> (b: bool) {
    rng.bool()
}

/// Draws a byte with `fastrand::Rng::u8` over `0..=max`: the result lies in that
/// range.
#[verifier::external_body]
pub(crate) fn random_u8(rng: &mut Rng, max: u8) -> (n: u8)
    ensures
        n <= max,
{
    rng.u8(0..=max)
}

/// Draws an integer with `fastrand::Rng::i32` over `low..=high`: the result lies
/// in that range. The generator panics on an empty range, which `requires`
/// leaves out.
#[verifier::external_body]
pub(crate) fn random_i32(rng: &mut Rng, low: i32, high: i32) -> (n: i32)
    requires
        low <= high,
    ensures
        low <= n <= high,
{
    rng.i32(low..=high)
}

} // verus!
