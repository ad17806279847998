//! Reading the machine's monotonic clock as whole nanoseconds.

use std::time::Duration;
use std::time::Instant;
use vstd::prelude::*;

verus! {

/// `std::time::Instant`, a point on the monotonic clock. Nothing inside it is
/// visible to the verifier.
#[verifier::external_type_specification]
#[verifier::external_body]
pub struct ExInstant(Instant);

/// Trusted: `Instant::now` returns the current reading of the clock. Nothing
/// is claimed about the value.
pub assume_specification[ Instant::now ]() -> (now: Instant)
;

/// Trusted: `Instant::saturating_duration_since` returns the time from
/// `earlier` to `later`, or zero when `earlier` is the later one. It does not
/// panic. Nothing is claimed about the value.
pub assume_specification[ Instant::saturating_duration_since ](
    later: &Instant,
    earlier: Instant,
) -> (span: Duration)
;

/// Trusted: `Duration::as_nanos` returns the span in whole nanoseconds.
/// Nothing is claimed about the value.
pub assume_specification[ Duration::as_nanos ](span: &Duration) -> (nanos: u128)
;

/// A clock that counts nanoseconds from the moment it was started.
pub struct Stopwatch {
    origin: Instant,
}

impl Stopwatch {
    /// Starts a clock at the present moment.
    pub fn start() -> (watch: Stopwatch) {
        Stopwatch { origin: Instant::now() }
    }

    /// Nanoseconds since the clock was started, held at `u64::MAX` when the
    /// count no longer fits (after some 584 years).
    pub fn elapsed_nanos(&self) -> (nanos: u64) {
        let now = Instant::now();
        let span = now.saturating_duration_since(self.origin);
        clamp_nanos(span.as_nanos())
    }
}

/// The value of `nanos` held to the range of `u64`.
pub open spec fn clamped(nanos: u128) -> u64 {
    if nanos > u64::MAX as u128 {
        u64::MAX
    } else {
        nanos as u64
    }
}

/// Narrows a nanosecond count to `u64`, holding it at `u64::MAX` when it does
/// not fit.
pub fn clamp_nanos(nanos: u128) -> (held: u64)
    ensures
        held == clamped(nanos),
{
    if nanos > 0xffff_ffff_ffff_ffffu128 {
        u64::MAX
    } else {
        #[verifier::truncate]
        (nanos as u64)
    }
}

} // verus!
