//! Combinators for futures.

use crate::task::Poll;
use vstd::prelude::*;

verus! {

/// The output of a future that was polled once, if it was ready.
///
/// `polled` is what the first poll of the future gave. A ready future hands
/// its output over; for one that is still pending the result is `None`, and
/// the future is given up.
pub fn now_or_never<T>(polled: Poll<T>) -> (output: Option<T>)
    ensures
        output == match polled {
            Poll::Ready(value) => Some(value),
            Poll::Pending => None,
        },
{
    match polled {
        Poll::Ready(value) => Some(value),
        Poll::Pending => None,
    }
}

} // verus!
