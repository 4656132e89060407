//! Implements the [`MaybeFuture`] utility.

use crate::task::Poll;
use vstd::prelude::*;

verus! {

/// A future which may not be present.
///
/// This is a single type which may optionally contain a future. If there is
/// no inner future, polling is always pending. When the inner future is set
/// and completes, the poll returns its value and the state is set to
/// [`MaybeFuture::Empty`] again.
#[derive(Debug)]
pub enum MaybeFuture<T> {
    /// The state in which it wraps a future to be polled.
    Future(T),
    /// The state in which there's no future set, and polling is always
    /// pending.
    Empty,
}

impl<T> Default for MaybeFuture<T> {
    /// A `MaybeFuture` without an inner future.
    fn default() -> (maybe: MaybeFuture<T>)
        ensures
            maybe == MaybeFuture::<T>::Empty,
    {
        MaybeFuture::Empty
    }
}

impl<T> MaybeFuture<T> {
    /// What a poll returns when polling the inner future, if one is set,
    /// gave `inner`.
    pub open spec fn poll_outcome<O>(self, inner: Poll<O>) -> Poll<O> {
        match self {
            MaybeFuture::Future(_) => inner,
            MaybeFuture::Empty => Poll::Pending,
        }
    }

    /// The state after a poll in which polling the inner future, if one is
    /// set, gave `inner`: a future that completed is dropped.
    pub open spec fn after_poll<O>(self, inner: Poll<O>) -> MaybeFuture<T> {
        if self is Future && inner is Ready {
            MaybeFuture::Empty
        } else {
            self
        }
    }

    /// Sets the future to `Empty` again.
    pub fn set_none(&mut self)
        ensures
            *final(self) == MaybeFuture::<T>::Empty,
    {
        *self = MaybeFuture::Empty;
    }

    /// Sets a new future.
    pub fn set_future(&mut self, fut: T)
        ensures
            *final(self) == MaybeFuture::Future(fut),
    {
        *self = MaybeFuture::Future(fut);
    }

    /// Returns `true` if the inner is empty.
    pub fn is_none(&self) -> (none: bool)
        ensures
            none == (self is Empty),
    {
        match self {
            MaybeFuture::Empty => true,
            MaybeFuture::Future(_) => false,
        }
    }

    /// Returns `true` if the inner contains a future.
    pub fn is_some(&self) -> (some: bool)
        ensures
            some == (self is Future),
    {
        match self {
            MaybeFuture::Future(_) => true,
            MaybeFuture::Empty => false,
        }
    }

    /// One poll, after the inner future, if one is set, was polled and gave
    /// `inner`.
    ///
    /// Without an inner future the poll is pending, whatever `inner` is.
    /// With one, `inner` is returned, and a future that completed is
    /// dropped, so that the next poll is pending until a new future is set.
    pub fn poll<O>(&mut self, inner: Poll<O>) -> (outcome: Poll<O>)
        ensures
            outcome == old(self).poll_outcome(inner),
            *final(self) == old(self).after_poll(inner),
    {
        let polled = match self {
            MaybeFuture::Future(_) => inner,
            MaybeFuture::Empty => Poll::Pending,
        };
        match polled {
            Poll::Ready(value) => {
                self.set_none();
                Poll::Ready(value)
            },
            Poll::Pending => Poll::Pending,
        }
    }
}

} // verus!
