//! The record of one task's identity, flags and pending wake callbacks.

use super::id::Id;
use super::waker::{clone_waker, wake};
use std::task::Waker;
use vstd::prelude::*;

verus! {

/// What a [`State`] holds, with each wake callback reduced to whether one is
/// registered.
pub struct StateView {
    /// The task's identity; it never changes.
    pub id: Id,
    /// Cancellation was requested. Goes from `false` to `true` only.
    pub cancelled: bool,
    /// The driver is done with the task: either the unit of work ran to its
    /// end and its value was stored, or the driver saw the cancellation and
    /// gave the work up. Goes from `false` to `true` only.
    pub completed: bool,
    /// Whoever awaits the join handle has a wake callback registered.
    pub waiting_on_result: bool,
    /// The driver has a wake callback registered, so that the host polls it
    /// again.
    pub waiting_on_drive: bool,
}

impl StateView {
    /// The state of a task that was just created.
    pub open spec fn fresh(id: Id) -> StateView {
        StateView {
            id,
            cancelled: false,
            completed: false,
            waiting_on_result: false,
            waiting_on_drive: false,
        }
    }

    /// Both wake callbacks fired and left their slots.
    pub open spec fn wake(self) -> StateView {
        StateView { waiting_on_result: false, waiting_on_drive: false, ..self }
    }

    /// A request to cancel: the first one sets the flag and fires both
    /// callbacks, any later one changes nothing.
    pub open spec fn cancel(self) -> StateView {
        if self.cancelled {
            self
        } else {
            StateView { cancelled: true, ..self.wake() }
        }
    }

    /// The driver finished: the flag is set and both callbacks fire.
    pub open spec fn complete(self) -> StateView {
        StateView { completed: true, ..self.wake() }
    }

    /// The finished-check of a join handle: cancelled or completed.
    pub open spec fn is_complete(self) -> bool {
        self.completed || self.cancelled
    }

    /// The stricter finished-check of an abort handle: cancelled and
    /// completed.
    pub open spec fn is_aborted_and_complete(self) -> bool {
        self.cancelled && self.completed
    }

    /// The awaiting side registered its wake callback.
    pub open spec fn register_handler(self) -> StateView {
        StateView { waiting_on_result: true, ..self }
    }

    /// The driver registered its wake callback.
    pub open spec fn register_spawn_fn(self) -> StateView {
        StateView { waiting_on_drive: true, ..self }
    }

    /// `later` can be reached from `self`: the identity is the same and no
    /// flag went back from `true` to `false`.
    pub open spec fn precedes(self, later: StateView) -> bool {
        &&& later.id == self.id
        &&& self.cancelled ==> later.cancelled
        &&& self.completed ==> later.completed
    }
}

/// The state shared by every handle of one task and by its driver.
pub struct State {
    id: Id,
    cancelled: bool,
    completed: bool,
    waker_handler: Option<Waker>,
    waker_spawn_fn: Option<Waker>,
}

impl View for State {
    type V = StateView;

    closed spec fn view(&self) -> StateView {
        StateView {
            id: self.id,
            cancelled: self.cancelled,
            completed: self.completed,
            waiting_on_result: self.waker_handler is Some,
            waiting_on_drive: self.waker_spawn_fn is Some,
        }
    }
}

impl State {
    /// The state of a new task with identity `id`: not cancelled, not
    /// completed, nobody waiting.
    pub fn new(id: Id) -> (state: State)
        ensures
            state@ == StateView::fresh(id),
    {
        State { id, cancelled: false, completed: false, waker_handler: None, waker_spawn_fn: None }
    }

    /// The task's identity.
    pub fn id(&self) -> (id: Id)
        ensures
            id == self@.id,
    {
        self.id
    }

    /// Whether cancellation was requested.
    pub fn is_cancelled(&self) -> (cancelled: bool)
        ensures
            cancelled == self@.cancelled,
    {
        self.cancelled
    }

    /// Whether the driver is done with the task.
    pub fn is_completed(&self) -> (completed: bool)
        ensures
            completed == self@.completed,
    {
        self.completed
    }

    /// Whether the awaiting side has a wake callback registered.
    pub fn has_handler_waker(&self) -> (waiting: bool)
        ensures
            waiting == self@.waiting_on_result,
    {
        self.waker_handler.is_some()
    }

    /// Whether the driver has a wake callback registered.
    pub fn has_spawn_fn_waker(&self) -> (waiting: bool)
        ensures
            waiting == self@.waiting_on_drive,
    {
        self.waker_spawn_fn.is_some()
    }

    /// Requests cancellation. The first request sets the flag and wakes both
    /// registered callbacks; repeated requests are no-ops.
    pub fn cancel(&mut self)
        ensures
            final(self)@ == old(self)@.cancel(),
    {
        if !self.cancelled {
            self.cancelled = true;
            self.wake();
        }
    }

    /// Marks the task as completed and wakes both registered callbacks.
    pub fn complete(&mut self)
        ensures
            final(self)@ == old(self)@.complete(),
    {
        self.completed = true;
        self.wake();
    }

    /// The finished-check of a join handle: cancelled or completed.
    pub fn is_complete(&self) -> (finished: bool)
        ensures
            finished == self@.is_complete(),
    {
        self.completed || self.cancelled
    }

    /// Fires each registered wake callback and empties its slot, so that no
    /// callback fires twice.
    pub fn wake(&mut self)
        ensures
            final(self)@ == old(self)@.wake(),
    {
        if let Some(waker) = self.waker_handler.take() {
            wake(waker);
        }
        if let Some(waker) = self.waker_spawn_fn.take() {
            wake(waker);
        }
    }

    /// Registers a copy of `waker` as the callback of the awaiting side,
    /// in place of the one registered before.
    pub fn register_handler(&mut self, waker: &Waker)
        ensures
            final(self)@ == old(self)@.register_handler(),
    {
        self.waker_handler = Some(clone_waker(waker));
    }

    /// Registers a copy of `waker` as the callback of the driver, in place of
    /// the one registered before.
    pub fn register_spawn_fn(&mut self, waker: &Waker)
        ensures
            final(self)@ == old(self)@.register_spawn_fn(),
    {
        self.waker_spawn_fn = Some(clone_waker(waker));
    }
}

} // verus!
