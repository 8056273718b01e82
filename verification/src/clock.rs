//! The loop's clock: whole milliseconds since the loop was made, read from
//! the machine's monotonic clock.
use std::time::{Duration, Instant};
use vstd::prelude::*;

verus! {

/// `std::time::Instant`, a point on the machine's monotonic clock. Nothing
/// is known of what one holds.
#[verifier::external_type_specification]
#[verifier::external_body]
pub struct ExInstant(Instant);

/// `Instant::now` reads the clock. Nothing is claimed of what it reads.
pub assume_specification[ Instant::now ]() -> Instant;

/// `Instant::saturating_duration_since` gives the time from `earlier` to
/// `this`, zero if `earlier` is the later one. Nothing is claimed of it here.
pub assume_specification[ Instant::saturating_duration_since ](
    this: &Instant,
    earlier: Instant,
) -> Duration;

/// `Duration::as_millis` gives a duration's whole milliseconds. Nothing is
/// claimed of the number.
pub assume_specification[ Duration::as_millis ](this: &Duration) -> u128;

/// Tells the time in whole milliseconds since it was started.
pub struct Clock {
    epoch: Instant,
}

impl Clock {
    /// A clock that starts now.
    pub fn start() -> Clock {
        Clock { epoch: Instant::now() }
    }

    /// The milliseconds since the clock was started, or the largest `u64`
    /// if they do not fit in one.
    pub fn now(&self) -> u64 {
        let elapsed: Duration = Instant::now().saturating_duration_since(self.epoch);
        Clock::reading(elapsed.as_millis())
    }

    /// The clock's reading for `millis` elapsed milliseconds: the number
    /// itself, or the largest `u64` if it does not fit in one.
    pub fn reading(millis: u128) -> (r: u64)
        ensures
            r == (if millis > u64::MAX {
                u64::MAX as int
            } else {
                millis as int
            }),
    {
        if millis > u64::MAX as u128 {
            u64::MAX
        } else {
            millis as u64
        }
    }
}

} // verus!
