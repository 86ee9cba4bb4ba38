//! The monotonic clock, as the standard library gives it.

use std::time::Duration;
use std::time::Instant;
use vstd::prelude::*;

verus! {

#[verifier::external_type_specification]
#[verifier::external_body]
pub struct ExInstant(Instant);

/// A moment that the clock showed: marks the reading of which a contract
/// speaks.
pub open spec fn moment(now: u64) -> bool {
    true
}

/// `Instant::now`: the present moment on the monotonic clock. Nothing is
/// claimed of it.
#[verifier::external_body]
pub(crate) fn instant_now() -> Instant {
    Instant::now()
}

/// `Instant::elapsed`: the time that has passed since `since`. Nothing is
/// claimed of it.
#[verifier::external_body]
pub(crate) fn elapsed(since: &Instant) -> Duration {
    since.elapsed()
}

/// `Duration::as_millis`: the whole milliseconds in `d`. Nothing is claimed
/// of the number.
#[verifier::external_body]
pub(crate) fn as_millis(d: &Duration) -> u128 {
    d.as_millis()
}

/// `Duration::as_secs`: the whole seconds in `d`. Nothing is claimed of the
/// number.
#[verifier::external_body]
pub(crate) fn as_secs(d: &Duration) -> u64 {
    d.as_secs()
}

/// Milliseconds since `since`, cut to 64 bits.
pub(crate) fn millis_since(since: &Instant) -> u64 {
    let d = elapsed(since);
    let ms: u128 = as_millis(&d);
    (ms & 0xffff_ffff_ffff_ffff) as u64
}

/// Whole seconds since `since`.
pub(crate) fn secs_since(since: &Instant) -> u64 {
    let d = elapsed(since);
    as_secs(&d)
}

} // verus!
