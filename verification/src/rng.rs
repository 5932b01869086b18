//! The only randomness the core consumes. Every caller states what
//! holds of each possible outcome; nothing depends on the draw beyond
//! its stated range.

use vstd::prelude::*;

use rand::Rng;

verus! {

/// Relies on `rand::Rng::gen_range` over the exclusive range
/// `low..high`: the sample is uniform in `[low, high)`. The call
/// panics only on an empty range, which the precondition rules out.
#[verifier::external_body]
pub(crate) fn rand_range_i32(low: i32, high: i32) -> (r: i32)
    requires
        low < high,
    ensures
        low <= r < high,
{
    rand::thread_rng().gen_range(low..high)
}

/// Relies on `rand::random::<bool>()`: a fair coin. Nothing is
/// promised of the outcome.
#[verifier::external_body]
pub(crate) fn rand_bool() -> bool {
    rand::random::<bool>()
}

} // verus!
