//! The outcome of polling something once.

use vstd::prelude::*;

verus! {

/// Whether a value is available now or the caller has to come back later.
#[derive(Debug, PartialEq, Eq)]
pub enum Poll<T> {
    /// The value is available.
    Ready(T),
    /// The value is not available yet; the caller's wake callback was
    /// registered where the operation says so.
    Pending,
}

impl<T> Poll<T> {
    /// Returns `true` for `Ready`.
    pub fn is_ready(&self) -> (ready: bool)
        ensures
            ready == (self is Ready),
    {
        match self {
            Poll::Ready(_) => true,
            Poll::Pending => false,
        }
    }

    /// Returns `true` for `Pending`.
    pub fn is_pending(&self) -> (pending: bool)
        ensures
            pending == (self is Pending),
    {
        !self.is_ready()
    }
}

} // verus!
