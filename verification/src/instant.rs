//! Absolute points in time.

use vstd::prelude::*;

verus! {

/// Number of nanoseconds in one second.
pub const NANOS_PER_SECOND: i128 = 1_000_000_000;

/// An absolute point in time, counted in nanoseconds from the Unix epoch.
///
/// Two instants are the same point in time exactly when their counts agree;
/// the offset a date was written with plays no part in ordering.
#[derive(Clone, Copy, Debug, PartialEq, Eq, Structural)]
pub struct Instant {
    pub nanos: i128,
}

impl View for Instant {
    type V = int;

    open spec fn view(&self) -> int {
        self.nanos as int
    }
}

impl Instant {
    /// The instant `seconds` whole seconds after the epoch.
    pub fn from_unix_seconds(seconds: i64) -> (r: Instant)
        ensures
            r@ == seconds * NANOS_PER_SECOND,
    {
        let wide: i128 = seconds as i128;
        Instant { nanos: wide * NANOS_PER_SECOND }
    }

    /// Whether an entry scheduled at `self` is due at `now`.
    pub fn is_due(&self, now: Instant) -> (r: bool)
        ensures
            r == (self@ <= now@),
    {
        self.nanos <= now.nanos
    }

    /// The seconds that a timer started at `now` is to run so as not to run
    /// out before `self`: the time from `now` until `self` rounded up to
    /// whole seconds, zero when `self` is not in the future, and capped at
    /// `u64::MAX`.
    pub open spec fn spec_wait_seconds(self, now: Instant) -> int {
        if self@ <= now@ {
            0
        } else if (self@ - now@ + NANOS_PER_SECOND - 1) / (NANOS_PER_SECOND as int) > u64::MAX {
            u64::MAX as int
        } else {
            (self@ - now@ + NANOS_PER_SECOND - 1) / (NANOS_PER_SECOND as int)
        }
    }

    /// The seconds that a timer started at `now` for `self` is to run: at
    /// least one for an instant still to come.
    pub fn wait_seconds(&self, now: Instant) -> (r: u64)
        ensures
            r == self.spec_wait_seconds(now),
            self@ > now@ ==> r >= 1,
    {
        if self.nanos <= now.nanos {
            return 0;
        }
        let gap: u128 = if now.nanos >= 0 {
            (self.nanos - now.nanos) as u128
        } else if self.nanos < 0 {
            (self.nanos - now.nanos) as u128
        } else {
            let below: u128 = (-(now.nanos + 1)) as u128 + 1;
            self.nanos as u128 + below
        };
        assert(gap == self@ - now@);
        let whole: u128 = gap / 1_000_000_000u128;
        let secs: u128 = if gap % 1_000_000_000u128 == 0 {
            whole
        } else {
            whole + 1
        };
        assert(secs == (gap + 1_000_000_000 - 1) / 1_000_000_000);
        if secs > u64::MAX as u128 {
            u64::MAX
        } else {
            secs as u64
        }
    }
}

} // verus!
