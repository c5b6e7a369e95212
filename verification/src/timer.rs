//! The test clock.
//!
//! Times are nanoseconds read from one monotonic clock; the reading is
//! handed to each method, so that everything here is a function of it.
use vstd::prelude::*;

verus! {

#[verifier::external_type_specification]
#[verifier::external_body]
pub struct ExInstant(std::time::Instant);

/// Takes a fresh instant from the monotonic clock (`std::time::Instant::now`).
/// Nothing is stated of it: it depends on the time.
#[verifier::external_body]
pub(crate) fn clock_origin() -> std::time::Instant {
    std::time::Instant::now()
}

/// Nanoseconds elapsed since `origin` on the monotonic clock
/// (`std::time::Instant::elapsed`, read as `Duration::as_nanos`). Nothing is
/// stated of the reading: it depends on the time.
#[verifier::external_body]
pub(crate) fn nanos_since(origin: &std::time::Instant) -> u128 {
    origin.elapsed().as_nanos()
}

/// Nanoseconds in `secs` seconds.
pub open spec fn secs_to_nanos(secs: nat) -> nat {
    secs * 1_000_000_000
}

/// When a test started and how long it may run.
#[derive(Debug, Clone, Copy, PartialEq, Eq, Structural)]
pub struct TestTimer {
    /// The clock reading at the first key press, if there was one.
    pub started_at: Option<u128>,
    /// The time limit in nanoseconds, for timed tests.
    pub limit: Option<u128>,
}

impl TestTimer {
    /// The time since the start, at clock reading `now`; zero before the start.
    pub open spec fn elapsed_at(self, now: u128) -> u128 {
        match self.started_at {
            Some(start) => if now >= start {
                (now - start) as u128
            } else {
                0
            },
            None => 0,
        }
    }

    /// The time left of the limit at `now`, never below zero; none without a limit.
    pub open spec fn remaining_at(self, now: u128) -> Option<u128> {
        match self.limit {
            Some(limit) => Some(
                if limit >= self.elapsed_at(now) {
                    (limit - self.elapsed_at(now)) as u128
                } else {
                    0
                },
            ),
            None => None,
        }
    }

    /// Whether a started, limited test has used up its time at `now`.
    pub open spec fn expired_at(self, now: u128) -> bool {
        &&& self.limit is Some
        &&& self.started_at is Some
        &&& self.elapsed_at(now) >= self.limit->0
    }

    /// A timer that has not started, with the given limit.
    pub fn new(limit: Option<u128>) -> (t: TestTimer)
        ensures
            t.started_at is None,
            t.limit == limit,
    {
        TestTimer { started_at: None, limit }
    }

    /// Starts the timer at `now`, unless it has started already.
    pub fn start(&mut self, now: u128)
        ensures
            final(self).limit == old(self).limit,
            final(self).started_at == match old(self).started_at {
                Some(s) => Some(s),
                None => Some(now),
            },
    {
        if self.started_at.is_none() {
            self.started_at = Some(now);
        }
    }

    /// The time since the start at `now`; zero before the start.
    pub fn elapsed(&self, now: u128) -> (e: u128)
        ensures
            e == self.elapsed_at(now),
    {
        match self.started_at {
            Some(start) => now.saturating_sub(start),
            None => 0,
        }
    }

    /// The time left at `now`, for a timer with a limit.
    pub fn remaining(&self, now: u128) -> (r: Option<u128>)
        ensures
            r == self.remaining_at(now),
    {
        match self.limit {
            Some(limit) => Some(limit.saturating_sub(self.elapsed(now))),
            None => None,
        }
    }

    /// Whether the timer has a limit, has started and has reached the limit at `now`.
    pub fn expired(&self, now: u128) -> (b: bool)
        ensures
            b == self.expired_at(now),
    {
        match self.limit {
            Some(limit) => self.started_at.is_some() && self.elapsed(now) >= limit,
            None => false,
        }
    }

    /// Whether the timer has started.
    pub fn is_started(&self) -> (b: bool)
        ensures
            b == self.started_at is Some,
    {
        self.started_at.is_some()
    }
}

/// A timer that has not started has used no time, has its whole limit left
/// and has not expired, whatever the clock reads.
pub proof fn law_timer_unstarted(t: TestTimer, now: u128)
    requires
        t.started_at is None,
    ensures
        t.elapsed_at(now) == 0,
        !t.expired_at(now),
        t.remaining_at(now) == t.limit,
{
}

/// Once started, the time left and the time used add up to the limit until
/// the limit is reached, and the timer has expired exactly when nothing is left.
pub proof fn law_timer_remaining(t: TestTimer, now: u128)
    requires
        t.started_at is Some,
        t.limit is Some,
    ensures
        t.expired_at(now) <==> t.remaining_at(now) == Some(0u128),
        !t.expired_at(now) ==> t.remaining_at(now)->0 + t.elapsed_at(now) == t.limit->0,
{
}

} // verus!
