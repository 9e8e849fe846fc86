//! The time source of the queue: std's monotonic clock, read as a whole
//! number of nanoseconds. Nothing here is proved; each item says what it
//! takes on trust from std.

use std::collections::VecDeque;
use std::time::{Duration, Instant};
use vstd::prelude::*;

verus! {

/// std's `Instant`, a point on the monotonic clock. Opaque to the proofs:
/// the queue only keeps one as the origin from which it measures time.
#[verifier::external_type_specification]
#[verifier::external_body]
pub struct ExInstant(Instant);

/// The length of a `Duration` in whole nanoseconds, as `Duration::as_nanos`
/// reports it.
pub uninterp spec fn duration_nanos(d: Duration) -> nat;

/// Calls `Instant::now`. Nothing is claimed of the instant that comes back.
#[verifier::external_body]
pub(crate) fn clock_origin() -> (origin: Instant) {
    Instant::now()
}

/// Calls `Instant::elapsed`: the time that has passed since `origin`, which
/// std gives as zero where the clock reads earlier than `origin`. Nothing is
/// claimed of the duration that comes back.
#[verifier::external_body]
pub(crate) fn elapsed(origin: &Instant) -> (d: Duration) {
    origin.elapsed()
}

/// Calls `Duration::as_nanos`. The result is a function of the duration
/// alone, and is what `duration_nanos` names.
#[verifier::external_body]
pub(crate) fn nanos_of(d: Duration) -> (n: u128)
    ensures
        n == duration_nanos(d),
{
    d.as_nanos()
}

/// Calls `VecDeque::capacity`. std keeps the capacity of a deque at or above
/// its length; how far above is the allocator's choice and is left open.
#[verifier::external_body]
pub(crate) fn deque_capacity<T>(v: &VecDeque<T>) -> (c: usize)
    ensures
        c >= v@.len(),
{
    v.capacity()
}

} // verus!
