//! The table of task records that handles and drivers act on.

use super::error::JoinError;
use super::id::Id;
use super::poll::Poll;
use super::state::{State, StateView};
use std::task::Waker;
use vstd::prelude::*;

verus! {

/// One task record: its state and the slot for the value it produces.
pub struct TaskView<T> {
    /// Identity, flags and registered callbacks.
    pub state: StateView,
    /// The produced value, from the moment the driver stores it until a join
    /// handle takes it out.
    pub result: Option<T>,
}

impl<T> TaskView<T> {
    /// The record of a task that was just created.
    pub open spec fn fresh(id: Id) -> TaskView<T> {
        TaskView { state: StateView::fresh(id), result: None }
    }

    /// A request to cancel the task. The result slot is left as it is.
    pub open spec fn cancel(self) -> TaskView<T> {
        TaskView { state: self.state.cancel(), ..self }
    }

    /// A join handle can resolve now: the task is cancelled or a value waits
    /// in the slot.
    pub open spec fn join_ready(self) -> bool {
        self.state.cancelled || self.result is Some
    }

    /// What a poll of the join handle yields. Cancellation is looked at
    /// first, whatever the slot holds.
    pub open spec fn join_outcome(self) -> Poll<Result<T, JoinError>> {
        if self.state.cancelled {
            Poll::Ready(Err(JoinError::cancelled(self.state.id)))
        } else {
            match self.result {
                Some(value) => Poll::Ready(Ok(value)),
                None => Poll::Pending,
            }
        }
    }

    /// The record after a poll of the join handle: a cancelled task is left
    /// alone, a stored value is taken out, and otherwise the caller's wake
    /// callback is registered.
    pub open spec fn after_join(self) -> TaskView<T> {
        if self.state.cancelled {
            self
        } else if self.result is Some {
            TaskView { result: None, ..self }
        } else {
            TaskView { state: self.state.register_handler(), ..self }
        }
    }

    /// The driver has to poll the unit of work: the task is neither
    /// cancelled nor completed.
    pub open spec fn polls_work(self) -> bool {
        !self.state.cancelled && !self.state.completed
    }

    /// The record after a poll of the driver that does not poll the unit of
    /// work. A completed task is left alone. A task that was cancelled
    /// before it completed is marked completed, as the driver has now acted
    /// on the cancellation; nothing is stored, and a wake callback that is
    /// still registered fires, as on every completion.
    pub open spec fn after_stop(self) -> TaskView<T> {
        if self.state.completed {
            self
        } else {
            TaskView { state: self.state.complete(), ..self }
        }
    }

    /// What a poll of the driver reports to the host when polling the unit
    /// of work gave `work`: finished, unless the task goes on running.
    pub open spec fn drive_outcome(self, work: Poll<T>) -> Poll<()> {
        if !self.polls_work() || work is Ready {
            Poll::Ready(())
        } else {
            Poll::Pending
        }
    }

    /// The record after a poll of the driver when polling the unit of work
    /// gave `work`. A task that is cancelled or completed is stopped,
    /// whatever `work` is: the slot is written once at most, and never for
    /// a cancelled task. Otherwise a value is stored and the task marked
    /// completed, or, without a value, the driver's wake callback is
    /// registered.
    pub open spec fn after_drive(self, work: Poll<T>) -> TaskView<T> {
        if !self.polls_work() {
            self.after_stop()
        } else {
            match work {
                Poll::Ready(value) => TaskView {
                    state: self.state.complete(),
                    result: Some(value),
                },
                Poll::Pending => TaskView { state: self.state.register_spawn_fn(), ..self },
            }
        }
    }

    /// A task that completed without being cancelled holds its value: no
    /// join handle has taken it out.
    pub open spec fn holds_its_value(self) -> bool {
        self.state.completed && !self.state.cancelled ==> self.result is Some
    }

    /// On the way from `self` to `later` no value was taken out of the slot:
    /// if `later` is a completed, uncancelled record with an empty slot,
    /// `self` was one already.
    pub open spec fn keeps_value(self, later: TaskView<T>) -> bool {
        later.state.completed && !later.state.cancelled && later.result is None ==> {
            &&& self.state.completed
            &&& !self.state.cancelled
            &&& self.result is None
        }
    }
}

/// `after` can be reached from `before`: no record was removed, and each
/// record kept its identity and every flag that was set.
pub open spec fn tasks_precede<T>(before: Seq<TaskView<T>>, after: Seq<TaskView<T>>) -> bool {
    &&& before.len() <= after.len()
    &&& forall|slot: int|
        0 <= slot < before.len() ==> (#[trigger] before[slot]).state.precedes(after[slot].state)
}

/// On the way from `before` to `after` no value was taken out of a slot.
/// That is so of every step but the poll of a join handle that delivers a
/// value.
pub open spec fn values_kept<T>(before: Seq<TaskView<T>>, after: Seq<TaskView<T>>) -> bool {
    forall|slot: int|
        0 <= slot < before.len() && slot < after.len() ==> (#[trigger] before[slot]).keeps_value(
            after[slot],
        )
}

/// The record of one task as the runtime holds it.
struct Task<T> {
    state: State,
    result: Option<T>,
}

impl<T> View for Task<T> {
    type V = TaskView<T>;

    closed spec fn view(&self) -> TaskView<T> {
        TaskView { state: self.state@, result: self.result }
    }
}

impl<T> Task<T> {
    fn new(id: Id) -> (task: Task<T>)
        ensures
            task@ == TaskView::<T>::fresh(id),
    {
        Task { state: State::new(id), result: None }
    }

    fn poll_join(&mut self, waker: &Waker) -> (outcome: Poll<Result<T, JoinError>>)
        ensures
            outcome == old(self)@.join_outcome(),
            final(self)@ == old(self)@.after_join(),
    {
        if self.state.is_cancelled() {
            return Poll::Ready(Err(JoinError::new_cancelled(self.state.id())));
        }
        if let Some(value) = self.result.take() {
            return Poll::Ready(Ok(value));
        }
        self.state.register_handler(waker);
        Poll::Pending
    }

    fn polls_work(&self) -> (polls: bool)
        ensures
            polls == self@.polls_work(),
    {
        !self.state.is_cancelled() && !self.state.is_completed()
    }

    fn stop(&mut self)
        ensures
            final(self)@ == old(self)@.after_stop(),
    {
        if !self.state.is_completed() {
            self.state.complete();
        }
    }

    fn drive(&mut self, work: Poll<T>, waker: &Waker) -> (outcome: Poll<()>)
        ensures
            outcome == old(self)@.drive_outcome(work),
            final(self)@ == old(self)@.after_drive(work),
    {
        if !self.polls_work() {
            self.stop();
            return Poll::Ready(());
        }
        match work {
            Poll::Ready(value) => {
                self.result = Some(value);
                self.state.complete();
                Poll::Ready(())
            },
            Poll::Pending => {
                self.state.register_spawn_fn(waker);
                Poll::Pending
            },
        }
    }

    fn holds_its_value(&self) -> (holds: bool)
        ensures
            holds == self@.holds_its_value(),
    {
        !self.state.is_completed() || self.state.is_cancelled() || self.result.is_some()
    }
}

/// The records of all tasks spawned onto one host, in spawn order.
///
/// A record stays where it is for as long as the runtime lives, so a handle
/// names its task by the record's position.
pub struct Runtime<T> {
    tasks: Vec<Task<T>>,
}

impl<T> View for Runtime<T> {
    type V = Seq<TaskView<T>>;

    closed spec fn view(&self) -> Seq<TaskView<T>> {
        self.tasks@.map_values(|task: Task<T>| task@)
    }
}

impl<T> Runtime<T> {
    /// Whether the record at `slot` exists and belongs to task `id`.
    pub open spec fn hosts(&self, slot: int, id: Id) -> bool {
        0 <= slot < self@.len() && self@[slot].state.id == id
    }

    /// A runtime without tasks.
    pub fn new() -> (runtime: Runtime<T>)
        ensures
            runtime@ == Seq::<TaskView<T>>::empty(),
    {
        let runtime = Runtime { tasks: Vec::new() };
        assert(runtime@ =~= Seq::<TaskView<T>>::empty());
        runtime
    }

    /// The number of tasks spawned onto this runtime so far.
    pub fn len(&self) -> (len: usize)
        ensures
            len == self@.len(),
    {
        self.tasks.len()
    }

    /// Adds the record of a new task with identity `id` and returns its
    /// position.
    pub(crate) fn insert(&mut self, id: Id) -> (slot: usize)
        ensures
            slot == old(self)@.len(),
            final(self)@ == old(self)@.push(TaskView::<T>::fresh(id)),
    {
        let slot = self.tasks.len();
        self.tasks.push(Task::new(id));
        assert(self@ =~= old(self)@.push(TaskView::<T>::fresh(id)));
        slot
    }

    /// Whether the record at `slot` exists and belongs to task `id`.
    pub(crate) fn has(&self, slot: usize, id: Id) -> (has: bool)
        ensures
            has == self.hosts(slot as int, id),
    {
        slot < self.tasks.len() && self.tasks[slot].state.id() == id
    }

    /// The state of the task at `slot`.
    pub(crate) fn state(&self, slot: usize) -> (state: &State)
        requires
            slot < self@.len(),
        ensures
            state@ == self@[slot as int].state,
    {
        &self.tasks[slot].state
    }

    /// Requests cancellation of the task at `slot`.
    pub(crate) fn cancel(&mut self, slot: usize)
        requires
            slot < old(self)@.len(),
        ensures
            final(self)@ == old(self)@.update(slot as int, old(self)@[slot as int].cancel()),
    {
        self.tasks[slot].state.cancel();
        assert(self@ =~= old(self)@.update(slot as int, old(self)@[slot as int].cancel()));
    }

    /// Polls for the outcome of the task at `slot` on behalf of its join
    /// handle.
    pub(crate) fn poll_join(&mut self, slot: usize, waker: &Waker) -> (outcome: Poll<
        Result<T, JoinError>,
    >)
        requires
            slot < old(self)@.len(),
        ensures
            outcome == old(self)@[slot as int].join_outcome(),
            final(self)@ == old(self)@.update(slot as int, old(self)@[slot as int].after_join()),
    {
        let outcome = self.tasks[slot].poll_join(waker);
        assert(self@ =~= old(self)@.update(slot as int, old(self)@[slot as int].after_join()));
        outcome
    }

    /// Whether the record at `slot` holds the value of its task, if the task
    /// completed without being cancelled.
    pub(crate) fn holds_its_value(&self, slot: usize) -> (holds: bool)
        requires
            slot < self@.len(),
        ensures
            holds == self@[slot as int].holds_its_value(),
    {
        self.tasks[slot].holds_its_value()
    }

    /// Stops the driver of the task at `slot` without a poll of the unit of
    /// work.
    pub(crate) fn stop(&mut self, slot: usize)
        requires
            slot < old(self)@.len(),
        ensures
            final(self)@ == old(self)@.update(slot as int, old(self)@[slot as int].after_stop()),
    {
        self.tasks[slot].stop();
        assert(self@ =~= old(self)@.update(slot as int, old(self)@[slot as int].after_stop()));
    }

    /// Advances the task at `slot` on behalf of its driver, after polling the
    /// unit of work gave `work`.
    pub(crate) fn drive(&mut self, slot: usize, work: Poll<T>, waker: &Waker) -> (outcome: Poll<()>)
        requires
            slot < old(self)@.len(),
        ensures
            outcome == old(self)@[slot as int].drive_outcome(work),
            final(self)@ == old(self)@.update(
                slot as int,
                old(self)@[slot as int].after_drive(work),
            ),
    {
        let outcome = self.tasks[slot].drive(work, waker);
        assert(self@ =~= old(self)@.update(
            slot as int,
            old(self)@[slot as int].after_drive(work),
        ));
        outcome
    }
}

} // verus!
