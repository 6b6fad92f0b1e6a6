//! Trusted access to the process random number generator.
//!
//! Nothing can be promised about a random value beyond its range, so the
//! contracts here state only that; every function that consumes such a value
//! is verified for all values the range admits.

use vstd::prelude::*;

verus! {

/// Relies on `rand::Rng::gen_range` over an inclusive range: the result lies
/// in `[lo, hi]`; the call panics on an empty range, so `lo <= hi` is
/// required.
#[verifier::external_body]
pub(crate) fn random_u64_in(lo: u64, hi: u64) -> (r: u64)
    requires
        lo <= hi,
    ensures
        lo <= r <= hi,
{
    rand::Rng::gen_range(&mut rand::thread_rng(), lo..=hi)
}

} // verus!
