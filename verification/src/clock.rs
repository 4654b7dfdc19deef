//! The monotonic clock, read through `std::time::Instant`.

use std::time::{Duration, Instant};

use vstd::prelude::*;

verus! {

#[verifier::external_type_specification]
#[verifier::external_body]
pub struct ExInstant(Instant);

/// `Instant::now`. The value is the time of the call; nothing is stated of it.
#[verifier::external_body]
pub(crate) fn instant_now() -> Instant {
    Instant::now()
}

/// `Instant::elapsed`: the time since `start`. It depends on the clock;
/// nothing is stated of it.
#[verifier::external_body]
fn time_since(start: &Instant) -> Duration {
    start.elapsed()
}

/// `Instant::duration_since`: the time from `earlier` to `later`, zero if
/// `later` is the earlier one. The instants carry no view; nothing is stated
/// of it.
#[verifier::external_body]
fn time_between(later: &Instant, earlier: &Instant) -> Duration {
    later.duration_since(*earlier)
}

/// `Duration::as_nanos`: the duration in whole nanoseconds. A `Duration`
/// carries no view; nothing is stated of it.
#[verifier::external_body]
fn whole_nanos(d: &Duration) -> u128 {
    d.as_nanos()
}

/// The time since `start`, in whole nanoseconds.
pub(crate) fn elapsed_nanos(start: &Instant) -> u128 {
    let d = time_since(start);
    whole_nanos(&d)
}

/// The time from `earlier` to `later`, in whole nanoseconds.
pub(crate) fn nanos_between(later: &Instant, earlier: &Instant) -> u128 {
    let d = time_between(later, earlier);
    whole_nanos(&d)
}

/// A nanosecond count clamped to 64 bits (about 584 years).
pub(crate) fn clamp_nanos(d: u128) -> (r: u64)
    ensures
        r == if d > u64::MAX as u128 { u64::MAX } else { d as u64 },
{
    if d > u64::MAX as u128 {
        u64::MAX
    } else {
        d as u64
    }
}

/// `Instant::clone`: `Instant` is `Copy`, so its `clone` returns the same
/// instant (used by the derived `Clone` of snapshots).
pub assume_specification[ <Instant as Clone>::clone ](i: &Instant) -> (r: Instant)
    ensures
        r == *i,
;

} // verus!
