//! The wake callbacks of the host, which the task records store and fire.

use std::task::Waker;
use vstd::prelude::*;

verus! {

/// `std::task::Waker`, carried through as an opaque value.
#[verifier::external_type_specification]
#[verifier::external_body]
pub struct ExWaker(Waker);

/// Calls `Waker::wake`, which consumes the waker and notifies whoever
/// registered it. Nothing is claimed of what the notification does.
#[verifier::external_body]
pub(crate) fn wake(waker: Waker) {
    waker.wake()
}

/// Calls `Waker::clone`. Nothing is claimed of the copy.
#[verifier::external_body]
pub(crate) fn clone_waker(waker: &Waker) -> (copy: Waker) {
    waker.clone()
}

} // verus!
