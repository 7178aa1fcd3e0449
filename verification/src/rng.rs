//! Trusted access to the process-wide random number generator.

use vstd::prelude::*;
use rand::Rng;

verus! {

/// Relies on rand::Rng::gen_range over `low..high`: the result lies in the
/// half-open range.  The call panics on an empty range, which the
/// precondition rules out.
#[verifier::external_body]
pub(crate) fn rand_range(low: i64, high: i64) -> (r: i64)
    requires
        low < high,
    ensures
        low <= r < high,
{
    rand::thread_rng().gen_range(low..high)
}

/// Relies on rand::Rng::gen::<usize>: an arbitrary machine word; nothing
/// is promised of its value.
#[verifier::external_body]
pub(crate) fn rand_word() -> usize {
    rand::thread_rng().gen::<usize>()
}

} // verus!
