//! Spans of time and points in time, at the granularity the timer driver
//! works at: whole milliseconds.

use vstd::prelude::*;

verus! {

/// Number of nanoseconds in one millisecond.
pub const NANOS_PER_MILLI: u32 = 1_000_000;

/// Number of milliseconds in one second.
pub const MILLIS_PER_SEC: u64 = 1_000;

/// Number of nanoseconds in one second.
pub const NANOS_PER_SEC: u32 = 1_000_000_000;

/// A span of time: whole seconds plus a sub-second nanosecond part.
#[derive(Clone, Copy, Debug)]
pub struct Duration {
    secs: u64,
    nanos: u32,
}

/// Which way a sub-millisecond remainder is rounded when a `Duration` is
/// converted to milliseconds.
#[derive(Clone, Copy, Debug, PartialEq, Eq, Structural)]
pub enum Round {
    Up,
    Down,
}

impl Duration {
    /// A `Duration` is well formed when its nanosecond part is a proper
    /// sub-second remainder.
    pub open spec fn wf(self) -> bool {
        self.spec_nanos() < NANOS_PER_SEC
    }

    pub closed spec fn spec_secs(self) -> u64 {
        self.secs
    }

    pub closed spec fn spec_nanos(self) -> u32 {
        self.nanos
    }

    pub fn new(secs: u64, nanos: u32) -> (d: Duration)
        requires
            nanos < NANOS_PER_SEC,
        ensures
            d.wf(),
            d.spec_secs() == secs,
            d.spec_nanos() == nanos,
    {
        Duration { secs, nanos }
    }

    pub fn from_secs(secs: u64) -> (d: Duration)
        ensures
            d.wf(),
            d.spec_secs() == secs,
            d.spec_nanos() == 0,
    {
        Duration { secs, nanos: 0 }
    }

    pub fn from_millis(millis: u64) -> (d: Duration)
        ensures
            d.wf(),
            d.spec_secs() == millis / MILLIS_PER_SEC,
            d.spec_nanos() == (millis % MILLIS_PER_SEC) * NANOS_PER_MILLI,
    {
        proof {
            assert((millis % 1_000) * 1_000_000 < 1_000_000_000) by (nonlinear_arith)
                requires millis % 1_000 < 1_000;
        }
        Duration { secs: millis / MILLIS_PER_SEC, nanos: ((millis % MILLIS_PER_SEC) as u32) * NANOS_PER_MILLI }
    }

    /// Whether the span is empty.
    pub fn is_zero(&self) -> (z: bool)
        ensures
            z == (self.spec_secs() == 0 && self.spec_nanos() == 0),
    {
        self.secs == 0 && self.nanos == 0
    }
}

/// The sub-second part of a duration, in milliseconds, rounded the given way.
pub open spec fn spec_subsec_millis(nanos: u32, round: Round) -> int {
    match round {
        Round::Up => (nanos + NANOS_PER_MILLI - 1) as int / NANOS_PER_MILLI as int,
        Round::Down => nanos as int / NANOS_PER_MILLI as int,
    }
}

/// A duration as milliseconds, rounded the given way and saturating at
/// `u64::MAX`.
pub open spec fn spec_ms(d: Duration, round: Round) -> u64 {
    let total = d.spec_secs() * MILLIS_PER_SEC + spec_subsec_millis(d.spec_nanos(), round);
    if total > u64::MAX {
        u64::MAX
    } else {
        total as u64
    }
}

/// Convert a `Duration` to milliseconds, rounding the sub-millisecond part
/// the given way and saturating at `u64::MAX`.
///
/// The saturation is harmless: `u64::MAX` milliseconds are still many
/// million years.
pub fn ms(duration: Duration, round: Round) -> (r: u64)
    requires
        duration.wf(),
    ensures
        r == spec_ms(duration, round),
{
    let nanos = duration.subsec_nanos();
    let millis: u32 = match round {
        Round::Up => (nanos + NANOS_PER_MILLI - 1) / NANOS_PER_MILLI,
        Round::Down => nanos / NANOS_PER_MILLI,
    };
    let base = match duration.secs().checked_mul(MILLIS_PER_SEC) {
        Some(b) => b,
        None => u64::MAX,
    };
    proof {
        assert(duration.spec_secs() * 1_000 >= duration.spec_secs()) by (nonlinear_arith);
        if duration.spec_secs() * MILLIS_PER_SEC > u64::MAX {
            assert(duration.spec_secs() * MILLIS_PER_SEC + spec_subsec_millis(duration.spec_nanos(), round) > u64::MAX);
        }
    }
    base.saturating_add(millis as u64)
}

impl Duration {
    /// The seconds part.
    pub fn secs(&self) -> (s: u64)
        ensures
            s == self.spec_secs(),
    {
        self.secs
    }

    /// The sub-second nanosecond part.
    pub fn subsec_nanos(&self) -> (n: u32)
        ensures
            n == self.spec_nanos(),
    {
        self.nanos
    }
}

/// A point in time, measured in whole milliseconds from the timer driver's
/// epoch.
#[derive(Clone, Copy, Debug, PartialEq, Eq, Structural)]
pub struct Instant {
    pub millis: u64,
}

impl Instant {
    pub fn from_millis(millis: u64) -> (i: Instant)
        ensures
            i.millis == millis,
    {
        Instant { millis }
    }

    /// This instant advanced by a duration, rounding the duration up to
    /// whole milliseconds and saturating at `u64::MAX`.
    pub fn plus(self, d: Duration) -> (i: Instant)
        requires
            d.wf(),
        ensures
            i.millis == self.millis + spec_ms(d, Round::Up)
                || (self.millis + spec_ms(d, Round::Up) > u64::MAX && i.millis == u64::MAX),
    {
        Instant { millis: self.millis.saturating_add(ms(d, Round::Up)) }
    }
}

} // verus!
