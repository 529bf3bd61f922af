//! What the cache takes from its surroundings: a monotonic clock and a
//! uniform sampler of distinct indices.

use std::time::Instant;
use vstd::prelude::*;

verus! {

#[verifier::external_type_specification]
#[verifier::external_body]
pub struct ExInstant(std::time::Instant);

/// Relies on std::time::Instant::now: a reading of the monotonic clock, kept
/// as the epoch from which a cache counts time.
#[verifier::external_body]
pub(crate) fn clock_now() -> (r: Instant) {
    Instant::now()
}

/// Relies on std::time::Instant::elapsed: the time since `epoch`, as a whole
/// number of nanoseconds. Nothing is promised of the reading itself.
#[verifier::external_body]
pub(crate) fn nanos_since(epoch: &Instant) -> (r: u128) {
    epoch.elapsed().as_nanos()
}

/// Relies on rand::seq::index::sample, drawn with the thread-local generator:
/// exactly `amount` distinct indices, each below `length`. It panics where
/// `amount > length`, which `requires` leaves out.
#[verifier::external_body]
pub(crate) fn sample_indices(length: usize, amount: usize) -> (r: Vec<usize>)
    requires
        amount <= length,
    ensures
        r@.len() == amount,
        r@.no_duplicates(),
        forall|j: int| 0 <= j < r@.len() ==> r@[j] < length,
{
    rand::seq::index::sample(&mut rand::thread_rng(), length, amount).into_vec()
}

} // verus!
