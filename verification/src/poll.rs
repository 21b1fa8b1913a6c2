//! The readiness type of the cooperative, poll-based scheduling model:
//! every operation either completes with a value or reports that it is
//! pending and will be tried again.

use vstd::prelude::*;

verus! {

/// Either a completed value or "not ready yet".
#[derive(Clone, Copy, Debug, PartialEq, Eq, Structural)]
pub enum Poll<T> {
    Ready(T),
    Pending,
}

impl<T> Poll<T> {
    /// Whether this is a completed value.
    pub open spec fn spec_is_ready(self) -> bool {
        self is Ready
    }

    pub fn is_ready(&self) -> (r: bool)
        ensures
            r == self.spec_is_ready(),
    {
        match self {
            Poll::Ready(_) => true,
            Poll::Pending => false,
        }
    }

    pub fn is_pending(&self) -> (r: bool)
        ensures
            r == !self.spec_is_ready(),
    {
        match self {
            Poll::Ready(_) => false,
            Poll::Pending => true,
        }
    }
}

} // verus!
