//! A future that does no work and completes at a specific instant: a
//! single registration with the timer driver, pollable and resettable.

use vstd::prelude::*;
use crate::driver::{DriverView, Registration, TimerDriver, TimerError};
use crate::poll::Poll;
use crate::time::Instant;

verus! {

/// A single deadline waiting on the timer driver.
#[derive(Clone, Copy, Debug)]
pub struct Delay {
    registration: Registration,
}

impl Delay {
    /// The registration this delay waits on.
    pub closed spec fn spec_registration(self) -> Registration {
        self.registration
    }

    /// The index of the driver entry this delay waits on.
    pub open spec fn spec_id(self) -> int {
        self.spec_registration().spec_id()
    }

    /// The deadline this delay completes at, in driver milliseconds.
    pub open spec fn spec_deadline(self) -> u64 {
        self.spec_registration().spec_deadline()
    }

    /// A delay is valid for a driver when its registration is.
    pub open spec fn valid(self, d: DriverView) -> bool {
        self.spec_registration().valid(d)
    }

    /// The deadline this delay completes at.
    pub fn deadline(&self) -> (i: Instant)
        ensures
            i.millis == self.spec_deadline(),
    {
        self.registration.deadline()
    }

    /// Whether the driver has fired this delay's entry.
    pub fn is_elapsed(&self, driver: &TimerDriver) -> (e: bool)
        requires
            self.valid(driver@),
        ensures
            e == (driver@.entries[self.spec_id()].state is Fired),
    {
        self.registration.is_elapsed(driver)
    }

    /// Poll the delay: ready once its deadline has been fired by the
    /// driver, an error once the driver is torn down, pending otherwise.
    pub fn poll_elapsed(&self, driver: &TimerDriver) -> (r: Poll<Result<(), TimerError>>)
        requires
            self.valid(driver@),
        ensures
            driver@.shutdown ==> r == Poll::<Result<(), TimerError>>::Ready(Err(TimerError::Shutdown)),
            !driver@.shutdown && driver@.entries[self.spec_id()].state is Fired
                ==> r == Poll::<Result<(), TimerError>>::Ready(Ok(())),
            !driver@.shutdown && !(driver@.entries[self.spec_id()].state is Fired)
                ==> r is Pending,
    {
        self.registration.poll_elapsed(driver)
    }

    /// Move the delay to a new deadline, rescheduling its driver entry.
    pub fn reset(&mut self, driver: &mut TimerDriver, deadline: Instant)
        requires
            old(self).valid(old(driver)@),
        ensures
            final(driver)@.entries =~= old(driver)@.entries.update(
                old(self).spec_id(),
                crate::driver::TimerEntry {
                    state: crate::driver::EntryState::Scheduled,
                    deadline: deadline.millis,
                }),
            final(driver)@.now == old(driver)@.now,
            final(driver)@.shutdown == old(driver)@.shutdown,
            final(self).spec_id() == old(self).spec_id(),
            final(self).spec_deadline() == deadline.millis,
            final(self).valid(final(driver)@),
    {
        self.registration.reset(driver, deadline);
    }

    /// Cancel the delay's driver entry; cancelling twice is a no-op.
    pub fn cancel(&self, driver: &mut TimerDriver)
        requires
            self.valid(old(driver)@),
        ensures
            final(driver)@.entries =~= crate::driver::spec_cancel(old(driver)@.entries, self.spec_id()),
            final(driver)@.now == old(driver)@.now,
            final(driver)@.shutdown == old(driver)@.shutdown,
            self.valid(final(driver)@),
    {
        self.registration.cancel(driver);
    }
}

/// A delay completing at the given instant.
pub fn delay_until(driver: &mut TimerDriver, deadline: Instant) -> (d: Delay)
    ensures
        final(driver)@.entries =~= old(driver)@.entries.push(
            crate::driver::TimerEntry {
                state: crate::driver::EntryState::Scheduled,
                deadline: deadline.millis,
            }),
        final(driver)@.now == old(driver)@.now,
        final(driver)@.shutdown == old(driver)@.shutdown,
        d.spec_id() == old(driver)@.entries.len(),
        d.spec_deadline() == deadline.millis,
        d.valid(final(driver)@),
{
    Delay { registration: Registration::new(driver, deadline) }
}

} // verus!
