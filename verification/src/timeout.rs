//! The timeout combinator: a wrapped operation raced against a deadline.
//!
//! The inner operation and a delay run concurrently; whichever completes
//! first decides the outcome. An inner completion wins even at the
//! deadline; a fired delay over a still-pending inner operation resolves
//! to `Timeout`, and the inner attempt is abandoned, not aborted.

use vstd::prelude::*;
use crate::connect::ConnectError;
use crate::delay::{delay_until, Delay};
use crate::driver::{spec_advance, TimerDriver, TimerEntry};
use crate::poll::Poll;
use crate::time::{spec_ms, Duration, Instant, Round};

verus! {

/// The error union a timeout-wrapped operation resolves to.
#[derive(Debug)]
pub enum TimeoutError<E> {
    /// The wrapped operation failed first.
    Service(E),
    /// The deadline fired first.
    Timeout,
}

/// How one poll of the race resolves: an inner completion is passed
/// through (its error wrapped as `Service`); a pending inner operation
/// times out exactly when the delay has fired.
pub open spec fn spec_race<T, E>(
    inner: Poll<Result<T, E>>,
    delay_elapsed: bool,
) -> Poll<Result<T, TimeoutError<E>>> {
    match inner {
        Poll::Ready(Ok(v)) => Poll::Ready(Ok(v)),
        Poll::Ready(Err(e)) => Poll::Ready(Err(TimeoutError::Service(e))),
        Poll::Pending => if delay_elapsed {
            Poll::Ready(Err(TimeoutError::Timeout))
        } else {
            Poll::Pending
        },
    }
}

/// Resolve one poll of the race between the wrapped operation and its
/// deadline.
pub fn resolve_race<T, E>(inner: Poll<Result<T, E>>, delay_elapsed: bool) -> (r: Poll<
    Result<T, TimeoutError<E>>,
>)
    ensures
        r == spec_race(inner, delay_elapsed),
{
    match inner {
        Poll::Ready(Ok(v)) => Poll::Ready(Ok(v)),
        Poll::Ready(Err(e)) => Poll::Ready(Err(TimeoutError::Service(e))),
        Poll::Pending => if delay_elapsed {
            Poll::Ready(Err(TimeoutError::Timeout))
        } else {
            Poll::Pending
        },
    }
}

/// Flatten the connect path's error union: a deadline becomes
/// `ConnectError::Timeout`, an inner error passes through unchanged.
pub fn flatten_error(e: TimeoutError<ConnectError>) -> (r: ConnectError)
    ensures
        e matches TimeoutError::Service(inner) ==> r == inner,
        e is Timeout ==> r is Timeout,
{
    match e {
        TimeoutError::Service(inner) => inner,
        TimeoutError::Timeout => ConnectError::Timeout,
    }
}

/// The timeout combinator's configuration: the deadline granted to each
/// wrapped call.
#[derive(Clone, Copy, Debug)]
pub struct TimeoutService {
    timeout: Duration,
}

impl TimeoutService {
    /// The deadline granted to each call.
    pub closed spec fn spec_timeout(self) -> Duration {
        self.timeout
    }

    pub open spec fn wf(self) -> bool {
        self.spec_timeout().wf()
    }

    pub fn new(timeout: Duration) -> (s: TimeoutService)
        requires
            timeout.wf(),
        ensures
            s.spec_timeout() == timeout,
            s.wf(),
    {
        TimeoutService { timeout }
    }

    /// The deadline granted to each call.
    pub fn timeout(&self) -> (t: Duration)
        ensures
            t == self.spec_timeout(),
    {
        self.timeout
    }

    /// The timer is engaged only once a call begins: arm the deadline,
    /// one timeout from `now`.
    pub fn start(&self, driver: &mut TimerDriver, now: Instant) -> (d: Delay)
        requires
            self.wf(),
        ensures
            d.spec_deadline() == (if now.millis + spec_ms(self.spec_timeout(), Round::Up) > u64::MAX {
                u64::MAX
            } else {
                (now.millis + spec_ms(self.spec_timeout(), Round::Up)) as u64
            }),
            final(driver)@.entries =~= old(driver)@.entries.push(
                TimerEntry {
                    state: crate::driver::EntryState::Scheduled,
                    deadline: d.spec_deadline(),
                }),
            final(driver)@.now == old(driver)@.now,
            final(driver)@.shutdown == old(driver)@.shutdown,
            d.spec_id() == old(driver)@.entries.len(),
            d.valid(final(driver)@),
    {
        let deadline = now.plus(self.timeout);
        delay_until(driver, deadline)
    }
}

/// The timeout race, end to end: an attempt whose transport never
/// resolves (its poll stays pending) is forced to fail with `Timeout`
/// exactly when the driver's clock reaches the armed deadline, and not
/// before.
pub proof fn lemma_timeout_race<T, E>(entries: Seq<TimerEntry>, id: int, now: u64)
    requires
        0 <= id < entries.len(),
        entries[id].state is Scheduled,
    ensures
        entries[id].deadline <= now ==> spec_race::<T, E>(
            Poll::Pending,
            spec_advance(entries, now)[id].state is Fired,
        ) == Poll::<Result<T, TimeoutError<E>>>::Ready(Err(TimeoutError::Timeout)),
        entries[id].deadline > now ==> spec_race::<T, E>(
            Poll::Pending,
            spec_advance(entries, now)[id].state is Fired,
        ) is Pending,
{
}

} // verus!
