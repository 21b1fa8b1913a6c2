//! The timer driver: the single owner of every pending deadline.
//!
//! The driver holds one entry per registration and is advanced by its
//! periodic tick. Advancing to an instant fires exactly the scheduled
//! entries whose deadline has been reached. A registration is a handle to
//! one entry; cancelling it is idempotent, and a fired entry left
//! unconsumed is harmless.

use vstd::prelude::*;
use crate::time::Instant;
use crate::poll::Poll;

verus! {

/// The lifecycle of one timer entry.
#[derive(Clone, Copy, Debug, PartialEq, Eq, Structural)]
pub enum EntryState {
    Scheduled,
    Fired,
    Cancelled,
}

/// One deadline tracked by the driver, in milliseconds from the driver's
/// epoch.
#[derive(Clone, Copy, Debug, PartialEq, Eq, Structural)]
pub struct TimerEntry {
    pub state: EntryState,
    pub deadline: u64,
}

/// The error a waiter sees when the driver has been torn down.
#[derive(Clone, Copy, Debug, PartialEq, Eq, Structural)]
pub enum TimerError {
    Shutdown,
}

/// The driver's whole state, as specifications see it.
#[verifier::ext_equal]
pub struct DriverView {
    pub entries: Seq<TimerEntry>,
    pub now: u64,
    pub shutdown: bool,
}

/// The timer driver.
pub struct TimerDriver {
    entries: Vec<TimerEntry>,
    now: u64,
    shutdown: bool,
}

/// What cancelling entry `id` leaves behind: a scheduled entry becomes
/// cancelled; a fired or already-cancelled entry is untouched.
pub open spec fn spec_cancel(entries: Seq<TimerEntry>, id: int) -> Seq<TimerEntry>
    recommends
        0 <= id < entries.len(),
{
    if entries[id].state is Scheduled {
        entries.update(id, TimerEntry { state: EntryState::Cancelled, deadline: entries[id].deadline })
    } else {
        entries
    }
}

/// What advancing the driver's clock to `now` leaves behind: every
/// scheduled entry whose deadline has been reached is fired, and nothing
/// else changes.
pub open spec fn spec_advance(entries: Seq<TimerEntry>, now: u64) -> Seq<TimerEntry> {
    entries.map(|i: int, e: TimerEntry|
        if e.state is Scheduled && e.deadline <= now {
            TimerEntry { state: EntryState::Fired, deadline: e.deadline }
        } else {
            e
        })
}

impl View for TimerDriver {
    type V = DriverView;

    closed spec fn view(&self) -> DriverView {
        DriverView { entries: self.entries@, now: self.now, shutdown: self.shutdown }
    }
}

impl TimerDriver {
    /// A fresh driver with no entries, at its epoch.
    pub fn new() -> (d: TimerDriver)
        ensures
            d@.entries =~= Seq::<TimerEntry>::empty(),
            d@.now == 0,
            !d@.shutdown,
    {
        TimerDriver { entries: Vec::new(), now: 0, shutdown: false }
    }

    /// The instant the driver has been advanced to.
    pub fn now(&self) -> (n: u64)
        ensures
            n == self@.now,
    {
        self.now
    }

    /// Whether the driver has been torn down.
    pub fn is_shutdown(&self) -> (s: bool)
        ensures
            s == self@.shutdown,
    {
        self.shutdown
    }

    /// Tear the driver down: every waiter polling after this observes
    /// `TimerError::Shutdown`.
    pub fn shutdown(&mut self)
        ensures
            final(self)@.entries == old(self)@.entries,
            final(self)@.now == old(self)@.now,
            final(self)@.shutdown,
    {
        self.shutdown = true;
    }

    /// Advance the driver's clock to `now`, firing every scheduled entry
    /// whose deadline has been reached.
    pub fn advance(&mut self, now: u64)
        requires
            old(self)@.now <= now,
        ensures
            final(self)@.entries =~= spec_advance(old(self)@.entries, now),
            final(self)@.now == now,
            final(self)@.shutdown == old(self)@.shutdown,
    {
        let n = self.entries.len();
        let mut i: usize = 0;
        while i < n
            invariant
                n == self.entries.len(),
                n == old(self)@.entries.len(),
                i <= n,
                self.now == old(self)@.now,
                self.shutdown == old(self)@.shutdown,
                forall|j: int| 0 <= j < i ==> self.entries@[j] == spec_advance(old(self)@.entries, now)[j],
                forall|j: int| i <= j < n ==> self.entries@[j] == old(self)@.entries[j],
            decreases n - i,
        {
            if self.entries[i].state == EntryState::Scheduled && self.entries[i].deadline <= now {
                let d = self.entries[i].deadline;
                self.entries[i] = TimerEntry { state: EntryState::Fired, deadline: d };
            }
            i = i + 1;
        }
        self.now = now;
    }
}

/// A registration with the timer: a handle to one driver entry.
#[derive(Clone, Copy, Debug)]
pub struct Registration {
    id: usize,
    deadline: u64,
}

impl Registration {
    /// The index of the entry this handle refers to.
    pub closed spec fn spec_id(self) -> int {
        self.id as int
    }

    /// A handle is valid for a driver when it points at an existing entry
    /// and carries that entry's deadline.
    pub open spec fn valid(self, d: DriverView) -> bool {
        &&& 0 <= self.spec_id() < d.entries.len()
        &&& d.entries[self.spec_id()].deadline == self.spec_deadline()
    }

    pub closed spec fn spec_deadline(self) -> u64 {
        self.deadline
    }

    /// Register a new deadline with the driver.
    pub fn new(driver: &mut TimerDriver, deadline: Instant) -> (r: Registration)
        ensures
            final(driver)@.entries =~= old(driver)@.entries.push(
                TimerEntry { state: EntryState::Scheduled, deadline: deadline.millis }),
            final(driver)@.now == old(driver)@.now,
            final(driver)@.shutdown == old(driver)@.shutdown,
            r.spec_id() == old(driver)@.entries.len(),
            r.spec_deadline() == deadline.millis,
            r.valid(final(driver)@),
    {
        let id = driver.entries.len();
        driver.entries.push(TimerEntry { state: EntryState::Scheduled, deadline: deadline.millis });
        Registration { id, deadline: deadline.millis }
    }

    /// The deadline this registration waits for.
    pub fn deadline(&self) -> (i: Instant)
        ensures
            i.millis == self.spec_deadline(),
    {
        Instant { millis: self.deadline }
    }

    /// Cancel the registration's entry. Cancelling a fired or an
    /// already-cancelled entry is a no-op.
    pub fn cancel(&self, driver: &mut TimerDriver)
        requires
            self.valid(old(driver)@),
        ensures
            final(driver)@.entries =~= spec_cancel(old(driver)@.entries, self.spec_id()),
            final(driver)@.now == old(driver)@.now,
            final(driver)@.shutdown == old(driver)@.shutdown,
            self.valid(final(driver)@),
    {
        if driver.entries[self.id].state == EntryState::Scheduled {
            let d = driver.entries[self.id].deadline;
            driver.entries[self.id] = TimerEntry { state: EntryState::Cancelled, deadline: d };
        }
    }

    /// Whether the entry has fired.
    pub fn is_elapsed(&self, driver: &TimerDriver) -> (e: bool)
        requires
            self.valid(driver@),
        ensures
            e == (driver@.entries[self.spec_id()].state is Fired),
    {
        driver.entries[self.id].state == EntryState::Fired
    }

    /// Poll the entry: ready once the driver has fired it, an error once
    /// the driver has been torn down, pending otherwise. A cancelled entry
    /// never becomes ready.
    pub fn poll_elapsed(&self, driver: &TimerDriver) -> (r: Poll<Result<(), TimerError>>)
        requires
            self.valid(driver@),
        ensures
            driver@.shutdown ==> r == Poll::<Result<(), TimerError>>::Ready(Err(TimerError::Shutdown)),
            !driver@.shutdown && driver@.entries[self.spec_id()].state is Fired
                ==> r == Poll::<Result<(), TimerError>>::Ready(Ok(())),
            !driver@.shutdown && !(driver@.entries[self.spec_id()].state is Fired)
                ==> r is Pending,
    {
        if driver.shutdown {
            Poll::Ready(Err(TimerError::Shutdown))
        } else if driver.entries[self.id].state == EntryState::Fired {
            Poll::Ready(Ok(()))
        } else {
            Poll::Pending
        }
    }

    /// Move the registration to a new deadline, rescheduling its entry
    /// atomically from the waiter's point of view: whatever state the
    /// entry was in, afterwards it is scheduled for the new deadline.
    pub fn reset(&mut self, driver: &mut TimerDriver, deadline: Instant)
        requires
            old(self).valid(old(driver)@),
        ensures
            final(driver)@.entries =~= old(driver)@.entries.update(
                old(self).spec_id(),
                TimerEntry { state: EntryState::Scheduled, deadline: deadline.millis }),
            final(driver)@.now == old(driver)@.now,
            final(driver)@.shutdown == old(driver)@.shutdown,
            final(self).spec_id() == old(self).spec_id(),
            final(self).spec_deadline() == deadline.millis,
            final(self).valid(final(driver)@),
    {
        driver.entries[self.id] = TimerEntry { state: EntryState::Scheduled, deadline: deadline.millis };
        self.deadline = deadline.millis;
    }
}

/// Cancelling a registration twice leaves exactly the state one
/// cancellation leaves: cancellation is idempotent.
pub proof fn lemma_cancel_idempotent(entries: Seq<TimerEntry>, id: int)
    requires
        0 <= id < entries.len(),
    ensures
        spec_cancel(spec_cancel(entries, id), id) =~= spec_cancel(entries, id),
{
}

/// An entry scheduled for `deadline` fires on an advance to `now` exactly
/// when the deadline has been reached, and is left untouched otherwise.
pub proof fn lemma_fires_at_deadline(entries: Seq<TimerEntry>, id: int, now: u64)
    requires
        0 <= id < entries.len(),
        entries[id].state is Scheduled,
    ensures
        entries[id].deadline <= now ==> spec_advance(entries, now)[id].state is Fired,
        entries[id].deadline > now ==> spec_advance(entries, now)[id] == entries[id],
{
}

} // verus!
