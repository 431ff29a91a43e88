//! Random draws from the thread-local generator of the `rand` crate.

use vstd::prelude::*;
use rand::Rng;

verus! {

/// Draws a number in `[low, high)` with `rand::Rng::gen_range` on
/// `rand::thread_rng()`. The `rand` documentation states that the value lies in
/// that range and that the call panics when `low >= high`; which value comes
/// out is left to chance, so nothing more is stated.
#[verifier::external_body]
pub(crate) fn random_in(low: u32, high: u32) -> (r: u32)
    requires
        low < high,
    ensures
        low <= r < high,
{
    rand::thread_rng().gen_range(low, high)
}

} // verus!
