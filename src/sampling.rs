//! The source of randomness.

use vstd::prelude::*;

verus! {

/// Relies on `fastrand::i64`, which returns a value of the given range and
/// panics only when the range is empty.
#[verifier::external_body]
pub(crate) fn random_range(low: i64, high: i64) -> (r: i64)
    requires
        low < high,
    ensures
        low <= r < high,
{
    fastrand::i64(low..high)
}

} // verus!
