//! Random retry jitter.
//!
//! A waiting take adds a small random delay to each computed wake-up
//! instant, so that competing callers whose deadlines coincide do not all
//! retry at the same moment.

use rand::Rng;

use vstd::prelude::*;

verus! {

/// Exclusive upper bound, in microseconds, of the random jitter added to a
/// computed wake-up instant.
pub const JITTER_BOUND_MICROS: u64 = 10_000;

/// A fresh jitter draw.
///
/// Relies on `rand::thread_rng` for the thread-local generator and on
/// `rand::Rng::gen_range`, whose documentation guarantees a value drawn
/// uniformly from the given non-empty half-open range; nothing is assumed
/// here beyond the range bound.
#[verifier::external_body]
pub(crate) fn sample_jitter() -> (r: u64)
    ensures
        r < JITTER_BOUND_MICROS,
{
    rand::thread_rng().gen_range(0..JITTER_BOUND_MICROS)
}

} // verus!
