//! Randomness for the humanized motor, behind trusted wrappers.
//!
//! Every consumer states what holds of every outcome: the wrappers promise
//! only the documented range of the sample, never a particular value.

use vstd::prelude::*;
use rand::RngExt;

verus! {

/// Relies on rand's `Rng::random_range` over a thread-local generator: the
/// sample lies in the half-open range. The empty range, on which it
/// panics, is excluded.
#[verifier::external_body]
pub fn rand_range_u64(lo: u64, hi: u64) -> (r: u64)
    requires
        lo < hi,
    ensures
        lo <= r < hi,
{
    rand::rng().random_range(lo..hi)
}

/// Relies on rand's `Rng::random_range` over a thread-local generator: the
/// sample lies in the half-open range. The empty range, on which it
/// panics, is excluded.
#[verifier::external_body]
pub fn rand_range_i64(lo: i64, hi: i64) -> (r: i64)
    requires
        lo < hi,
    ensures
        lo <= r < hi,
{
    rand::rng().random_range(lo..hi)
}

} // verus!
