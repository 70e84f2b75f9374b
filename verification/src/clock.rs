//! The clock that gives events their time: nanoseconds since the clock was
//! started, on the machine's monotonic clock.

use std::time::{Duration, Instant};
use vstd::prelude::*;

verus! {

/// `std::time::Instant`, a reading of the monotonic clock. Nothing is stated
/// of what it holds.
#[verifier::external_type_specification]
#[verifier::external_body]
pub struct ExInstant(Instant);

/// A clock that counts from the moment it was made.
pub struct Clock {
    start: Instant,
}

/// `Instant::now`: the monotonic clock at this moment. The result depends on
/// when the call is made, so nothing is promised of it.
#[verifier::external_body]
fn instant_now() -> Instant {
    Instant::now()
}

/// `Instant::elapsed`: the time from `start` to this moment. The result
/// depends on when the call is made, so nothing is promised of it.
#[verifier::external_body]
fn instant_elapsed(start: &Instant) -> Duration {
    start.elapsed()
}

/// `Duration::as_nanos`: the nanoseconds of `duration`, all of them. Nothing
/// is promised of the result: a `Duration` is opaque here.
#[verifier::external_body]
fn duration_as_nanos(duration: &Duration) -> u128 {
    duration.as_nanos()
}

impl Clock {
    /// A clock that starts now.
    pub fn new() -> Self {
        Self { start: instant_now() }
    }

    /// The nanoseconds since the clock was started; `u64::MAX` where there
    /// are more.
    pub fn now(&self) -> u64 {
        let elapsed = instant_elapsed(&self.start);
        let nanos = duration_as_nanos(&elapsed);
        saturate(nanos)
    }
}

/// The time that a clock shows for `nanos` nanoseconds: `nanos` itself, or
/// `u64::MAX` where it is more than that.
pub open spec fn saturated(nanos: nat) -> nat {
    if nanos <= u64::MAX {
        nanos
    } else {
        u64::MAX as nat
    }
}

/// Brings a count of nanoseconds into the range of a clock, as `saturated`
/// says.
pub fn saturate(nanos: u128) -> (now: u64)
    ensures
        now == saturated(nanos as nat),
{
    if nanos > u64::MAX as u128 {
        u64::MAX
    } else {
        nanos as u64
    }
}

} // verus!
