//! The one source of chance: the height of the opening of a pipe.

use rand::Rng;
use vstd::prelude::*;

verus! {

/// Draws a number from `low` up to, but not including, `high`.
///
/// Trusted: the body calls `rand::thread_rng` for the generator of the
/// current thread and `rand::Rng::gen_range` on it with the range
/// `low..high`. That method panics on an empty range, which `requires` leaves
/// out. On every other range it adds to `low` the upper half of the product
/// of a random 32-bit number and the width of the range, which is less than
/// the width, so the result lies in the range. Nothing else is claimed: two
/// calls with the same bounds may return different numbers. The method draws
/// again while a draw falls into a small rejected zone, and `thread_rng`
/// panics on a system that gives it no seed.
#[verifier::external_body]
pub(crate) fn random_in(low: i32, high: i32) -> (n: i32)
    requires
        low < high,
    ensures
        low <= n < high,
{
    rand::thread_rng().gen_range(low..high)
}

} // verus!
