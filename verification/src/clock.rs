//! A clock that counts nanoseconds from the moment it was started, and whose
//! readings never decrease.

use vstd::prelude::*;

verus! {

/// `tokio::time::Instant`, a reading of the monotonic clock. It is carried
/// around as it is: nothing inside it is looked at.
#[verifier::external_type_specification]
#[verifier::external_body]
pub struct ExInstant(tokio::time::Instant);

/// `tokio::time::Instant::now`: the present reading of the monotonic clock.
/// Nothing is claimed of the reading.
#[verifier::external_body]
fn instant_now() -> (now: tokio::time::Instant) {
    tokio::time::Instant::now()
}

/// `tokio::time::Instant::elapsed`, in whole nanoseconds: the time that has
/// passed since `origin` was read. Nothing is claimed of the amount.
#[verifier::external_body]
fn elapsed_nanos(origin: &tokio::time::Instant) -> (nanos: u128) {
    origin.elapsed().as_nanos()
}

/// The reading that follows `latest` when `elapsed` nanoseconds have passed
/// since the clock was started: the elapsed time, but never less than
/// `latest` and never more than the largest reading.
pub open spec fn next_reading(latest: u64, elapsed: u128) -> u64 {
    if elapsed <= latest {
        latest
    } else if elapsed > u64::MAX {
        u64::MAX
    } else {
        elapsed as u64
    }
}

/// A clock that counts the nanoseconds since it was started and never reads
/// less than it has read before.
pub struct Clock {
    origin: tokio::time::Instant,
    latest: u64,
}

impl Clock {
    /// The latest reading that the clock has given, zero before the first.
    pub closed spec fn latest(&self) -> u64 {
        self.latest
    }

    /// Starts a clock at the present moment. It has given no reading yet.
    pub fn start() -> (clock: Clock)
        ensures
            clock.latest() == 0,
    {
        Clock { origin: instant_now(), latest: 0 }
    }

    /// Takes note that `elapsed` nanoseconds have passed since the clock was
    /// started, and gives the reading for it. An amount below the latest
    /// reading gives the latest reading again; one that no longer fits gives
    /// the largest reading.
    pub fn advance(&mut self, elapsed: u128) -> (now: u64)
        ensures
            now == next_reading(old(self).latest(), elapsed),
            final(self).latest() == now,
    {
        if elapsed > self.latest as u128 {
            self.latest = if elapsed > u64::MAX as u128 {
                u64::MAX
            } else {
                elapsed as u64
            };
        }
        self.latest
    }

    /// Reads the clock: the nanoseconds that have passed since it was
    /// started, as `advance` turns them into a reading. Whatever time has
    /// passed, the reading is not less than the one before, and it is the
    /// latest from now on.
    pub fn nanos(&mut self) -> (now: u64)
        ensures
            now >= old(self).latest(),
            final(self).latest() == now,
    {
        let elapsed: u128 = elapsed_nanos(&self.origin);
        self.advance(elapsed)
    }
}

} // verus!
