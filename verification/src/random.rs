//! The two sources of chance the library draws from.
//!
//! Nothing here is proved: each function is a call into an outside crate,
//! and its contract states only what holds of every outcome.

use rand::Rng;
use random_color::RandomColor;
use vstd::prelude::*;

verus! {

/// Draws a number from `0..bound` with the thread-local generator.
///
/// Trusted. The body is `rand::thread_rng()` followed by `Rng::gen_range`
/// on the half-open range `0..bound`. rand promises a value inside the
/// range and panics on an empty one, which the precondition excludes.
/// Nothing is claimed about which value comes back.
#[verifier::external_body]
pub(crate) fn random_below(bound: u64) -> (drawn: u64)
    requires
        bound > 0,
    ensures
        drawn < bound,
{
    rand::thread_rng().gen_range(0..bound)
}

/// A random colour as CSS text.
///
/// Trusted. The body is `RandomColor::new()` followed by `to_rgb_string`,
/// which picks a hue, a saturation and a brightness at random and formats
/// them. Nothing is claimed about the text: the library only stores it and
/// hands it back.
#[verifier::external_body]
pub(crate) fn random_rgb_string() -> (color: String) {
    RandomColor::new().to_rgb_string()
}

} // verus!
