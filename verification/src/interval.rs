//! A stream of instants at a fixed period, backed by one delay that is
//! rescheduled after each tick.
//!
//! The next deadline is computed from the instant that just fired, not
//! from the current time, so no drift accumulates across ticks.

use vstd::prelude::*;
use crate::delay::{delay_until, Delay};
use crate::driver::{DriverView, EntryState, TimerDriver, TimerEntry};
use crate::poll::Poll;
use crate::time::{spec_ms, Duration, Instant, Round};

verus! {

/// Stream yielding one instant per elapsed period.
#[derive(Clone, Copy, Debug)]
pub struct Interval {
    /// Completes the next time the interval yields a value.
    delay: Delay,
    /// The duration between yielded values.
    period: Duration,
}

impl Interval {
    /// The delay the interval waits on.
    pub closed spec fn spec_delay(self) -> Delay {
        self.delay
    }

    /// An interval is valid for a driver when its delay is, and its
    /// period is a well-formed, non-empty span.
    pub open spec fn valid(self, d: DriverView) -> bool {
        &&& self.spec_delay().valid(d)
        &&& self.spec_period().wf()
        &&& !(self.spec_period().spec_secs() == 0 && self.spec_period().spec_nanos() == 0)
    }

    pub open spec fn spec_id(self) -> int {
        self.spec_delay().spec_id()
    }

    /// The deadline of the next tick, in driver milliseconds.
    pub open spec fn spec_deadline(self) -> u64 {
        self.spec_delay().spec_deadline()
    }

    pub closed spec fn spec_period(self) -> Duration {
        self.period
    }

    /// The next tick's deadline after one fires at `now`: one period
    /// later, saturating at the end of representable time.
    pub open spec fn spec_next_deadline(self, now: u64) -> u64 {
        if now + spec_ms(self.spec_period(), Round::Up) > u64::MAX {
            u64::MAX
        } else {
            (now + spec_ms(self.spec_period(), Round::Up)) as u64
        }
    }

    /// Poll for the next tick. Once the driver has fired the current
    /// deadline, the interval yields that deadline's instant and
    /// reschedules itself exactly one period after it — not one period
    /// after the current time — so ticks do not drift.
    pub fn poll_tick(&mut self, driver: &mut TimerDriver) -> (r: Poll<Instant>)
        requires
            old(self).valid(old(driver)@),
            !old(driver)@.shutdown,
        ensures
            final(self).valid(final(driver)@),
            final(self).spec_period() == old(self).spec_period(),
            final(self).spec_id() == old(self).spec_id(),
            final(driver)@.now == old(driver)@.now,
            final(driver)@.shutdown == old(driver)@.shutdown,
            old(driver)@.entries[old(self).spec_id()].state is Fired ==> {
                &&& r == Poll::<Instant>::Ready(Instant { millis: old(self).spec_deadline() })
                &&& final(self).spec_deadline() == old(self).spec_next_deadline(old(self).spec_deadline())
                &&& final(driver)@.entries =~= old(driver)@.entries.update(
                    old(self).spec_id(),
                    TimerEntry {
                        state: EntryState::Scheduled,
                        deadline: old(self).spec_next_deadline(old(self).spec_deadline()),
                    })
            },
            !(old(driver)@.entries[old(self).spec_id()].state is Fired) ==> {
                &&& r is Pending
                &&& *final(self) == *old(self)
                &&& final(driver)@.entries =~= old(driver)@.entries
            },
    {
        match self.delay.poll_elapsed(driver) {
            Poll::Pending => Poll::Pending,
            Poll::Ready(_) => {
                // The instant the interval yields is the deadline that
                // just fired, read back from the delay.
                let now = self.delay.deadline();
                let next = now.plus(self.period);
                self.delay.reset(driver, next);
                Poll::Ready(now)
            }
        }
    }

    /// Cancel the interval's driver entry, as letting the interval go
    /// does: no further tick will fire. Cancelling twice is a no-op.
    pub fn cancel(&self, driver: &mut TimerDriver)
        requires
            self.valid(old(driver)@),
        ensures
            final(driver)@.entries =~= crate::driver::spec_cancel(old(driver)@.entries, self.spec_id()),
            final(driver)@.now == old(driver)@.now,
            final(driver)@.shutdown == old(driver)@.shutdown,
            self.valid(final(driver)@),
    {
        self.delay.cancel(driver);
    }
}

/// An interval of `period` whose first tick completes at the driver's
/// current instant.
///
/// The period must be non-empty.
pub fn interval(driver: &mut TimerDriver, period: Duration) -> (r: Interval)
    requires
        period.wf(),
        !(period.spec_secs() == 0 && period.spec_nanos() == 0),
    ensures
        r.valid(final(driver)@),
        r.spec_period() == period,
        r.spec_deadline() == old(driver)@.now,
        final(driver)@.entries =~= old(driver)@.entries.push(
            TimerEntry { state: EntryState::Scheduled, deadline: old(driver)@.now }),
        final(driver)@.now == old(driver)@.now,
        final(driver)@.shutdown == old(driver)@.shutdown,
{
    let start = Instant { millis: driver.now() };
    interval_at(driver, start, period)
}

/// An interval of `period` whose first tick completes at `start`.
///
/// The period must be non-empty.
pub fn interval_at(driver: &mut TimerDriver, start: Instant, period: Duration) -> (r: Interval)
    requires
        period.wf(),
        !(period.spec_secs() == 0 && period.spec_nanos() == 0),
    ensures
        r.valid(final(driver)@),
        r.spec_period() == period,
        r.spec_deadline() == start.millis,
        final(driver)@.entries =~= old(driver)@.entries.push(
            TimerEntry { state: EntryState::Scheduled, deadline: start.millis }),
        final(driver)@.now == old(driver)@.now,
        final(driver)@.shutdown == old(driver)@.shutdown,
{
    Interval { delay: delay_until(driver, start), period }
}

} // verus!
