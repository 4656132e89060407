//! Handles to a spawned task, and the driver that the host runs for it.

use super::error::JoinError;
use super::id::{next_task_id, nth_task_id, Id};
use super::poll::Poll;
use super::runtime::{tasks_precede, values_kept, Runtime, TaskView};
use super::state::State;
use std::marker::PhantomData;
use std::task::Waker;
use vstd::prelude::*;

verus! {

/// A handle to a spawned task: the capability to wait for its outcome and to
/// request its cancellation.
pub struct JoinHandle<T> {
    slot: usize,
    id: Id,
    marker: PhantomData<T>,
}

/// An owned permission to abort a spawned task, without access to its
/// outcome.
#[derive(Clone, Copy)]
pub struct AbortHandle {
    slot: usize,
    id: Id,
}

/// The driver of a task: what the host polls until the task is finished.
pub struct SpawnFuture<T> {
    handle: JoinHandle<T>,
}

/// Similar to a [`JoinHandle`], except that giving it up aborts the task.
#[must_use]
pub struct AbortOnDropHandle<T>(JoinHandle<T>);

impl<T> JoinHandle<T> {
    /// The position of the task's record in its runtime.
    pub closed spec fn slot(&self) -> int {
        self.slot as int
    }

    /// The identity of the task this handle was made for.
    pub closed spec fn task(&self) -> Id {
        self.id
    }

    /// Whether `rt` is the runtime that holds the task's record.
    pub fn belongs_to(&self, rt: &Runtime<T>) -> (belongs: bool)
        ensures
            belongs == rt.hosts(self.slot(), self.task()),
    {
        rt.has(self.slot, self.id)
    }

    /// Whether both handles name the same record.
    pub(crate) fn same_record(&self, other: &JoinHandle<T>) -> (same: bool)
        ensures
            same == (self.slot() == other.slot()),
    {
        self.slot == other.slot
    }

    /// Whether the task holds its value, if it completed without being
    /// cancelled.
    pub(crate) fn holds_its_value(&self, rt: &Runtime<T>) -> (holds: bool)
        requires
            rt.hosts(self.slot(), self.task()),
        ensures
            holds == rt@[self.slot()].holds_its_value(),
    {
        rt.holds_its_value(self.slot)
    }

    /// Creates the record of a new task in `rt`, with the next identifier of
    /// `counter`, and returns the handle to it.
    pub(crate) fn new(rt: &mut Runtime<T>, counter: &mut u64) -> (handle: JoinHandle<T>)
        requires
            *old(counter) < u64::MAX,
        ensures
            *final(counter) == nth_task_id(*old(counter), 0),
            handle.task()@ == *final(counter),
            handle.slot() == old(rt)@.len(),
            final(rt)@ == old(rt)@.push(TaskView::<T>::fresh(handle.task())),
    {
        let id = Id::new(next_task_id(counter));
        let slot = rt.insert(id);
        JoinHandle { slot, id, marker: PhantomData }
    }

    /// A second handle to the same task.
    pub(crate) fn duplicate(&self) -> (handle: JoinHandle<T>)
        ensures
            handle == *self,
    {
        JoinHandle { slot: self.slot, id: self.id, marker: PhantomData }
    }

    /// Aborts the task: the cancellation flag is set and whoever waits on
    /// the task is woken. The unit of work is not stopped on the spot; its
    /// driver sees the flag on its next poll.
    pub fn abort(&self, rt: &mut Runtime<T>)
        requires
            old(rt).hosts(self.slot(), self.task()),
        ensures
            final(rt)@ == old(rt)@.update(self.slot(), old(rt)@[self.slot()].cancel()),
            tasks_precede(old(rt)@, final(rt)@),
            values_kept(old(rt)@, final(rt)@),
    {
        rt.cancel(self.slot);
    }

    /// Returns a new [`AbortHandle`] that can be used to remotely abort the
    /// task.
    pub fn abort_handle(&self) -> (handle: AbortHandle)
        ensures
            handle.slot() == self.slot(),
            handle.task() == self.task(),
    {
        AbortHandle { slot: self.slot, id: self.id }
    }

    /// Returns the task ID that identifies the task relative to the other
    /// tasks.
    pub fn id(&self) -> (id: Id)
        ensures
            id == self.task(),
    {
        self.id
    }

    /// The state of the task, to look at.
    pub fn state<'a>(&self, rt: &'a Runtime<T>) -> (state: &'a State)
        requires
            rt.hosts(self.slot(), self.task()),
        ensures
            state@ == rt@[self.slot()].state,
    {
        rt.state(self.slot)
    }

    /// Checks if the task associated with this `JoinHandle` has finished:
    /// it was cancelled or its unit of work ran to its end.
    pub fn is_finished(&self, rt: &Runtime<T>) -> (finished: bool)
        requires
            rt.hosts(self.slot(), self.task()),
        ensures
            finished == rt@[self.slot()].state.is_complete(),
    {
        rt.state(self.slot).is_complete()
    }

    /// The opposite of [`JoinHandle::is_finished`].
    pub(crate) fn is_running(&self, rt: &Runtime<T>) -> (running: bool)
        requires
            rt.hosts(self.slot(), self.task()),
        ensures
            running == !rt@[self.slot()].state.is_complete(),
    {
        !self.is_finished(rt)
    }

    /// Polls for the task's outcome.
    ///
    /// A cancelled task yields the cancellation error, even if its value was
    /// stored before. Otherwise a stored value is taken out and returned.
    /// Otherwise a copy of `waker` is registered and the poll is pending.
    pub fn poll(&self, rt: &mut Runtime<T>, waker: &Waker) -> (outcome: Poll<Result<T, JoinError>>)
        requires
            old(rt).hosts(self.slot(), self.task()),
        ensures
            outcome == old(rt)@[self.slot()].join_outcome(),
            final(rt)@ == old(rt)@.update(self.slot(), old(rt)@[self.slot()].after_join()),
            tasks_precede(old(rt)@, final(rt)@),
    {
        rt.poll_join(self.slot, waker)
    }

    /// Polls for the task's outcome, with the task's identity beside a
    /// delivered value.
    pub(crate) fn poll_with_id(&self, rt: &mut Runtime<T>, waker: &Waker) -> (outcome: Poll<
        Result<(Id, T), JoinError>,
    >)
        requires
            old(rt).hosts(self.slot(), self.task()),
        ensures
            outcome == with_id(self.task(), old(rt)@[self.slot()].join_outcome()),
            final(rt)@ == old(rt)@.update(self.slot(), old(rt)@[self.slot()].after_join()),
            tasks_precede(old(rt)@, final(rt)@),
    {
        match self.poll(rt, waker) {
            Poll::Ready(Ok(value)) => Poll::Ready(Ok((self.id, value))),
            Poll::Ready(Err(error)) => Poll::Ready(Err(error)),
            Poll::Pending => Poll::Pending,
        }
    }
}

/// `outcome` with the task's identity put beside a delivered value.
pub open spec fn with_id<T>(id: Id, outcome: Poll<Result<T, JoinError>>) -> Poll<
    Result<(Id, T), JoinError>,
> {
    match outcome {
        Poll::Ready(Ok(value)) => Poll::Ready(Ok((id, value))),
        Poll::Ready(Err(error)) => Poll::Ready(Err(error)),
        Poll::Pending => Poll::Pending,
    }
}

impl AbortHandle {
    /// The position of the task's record in its runtime.
    pub closed spec fn slot(&self) -> int {
        self.slot as int
    }

    /// The identity of the task this handle was made for.
    pub closed spec fn task(&self) -> Id {
        self.id
    }

    /// Whether `rt` is the runtime that holds the task's record.
    pub fn belongs_to<T>(&self, rt: &Runtime<T>) -> (belongs: bool)
        ensures
            belongs == rt.hosts(self.slot(), self.task()),
    {
        rt.has(self.slot, self.id)
    }

    /// Abort the task associated with the handle.
    pub fn abort<T>(&self, rt: &mut Runtime<T>)
        requires
            old(rt).hosts(self.slot(), self.task()),
        ensures
            final(rt)@ == old(rt)@.update(self.slot(), old(rt)@[self.slot()].cancel()),
            tasks_precede(old(rt)@, final(rt)@),
            values_kept(old(rt)@, final(rt)@),
    {
        rt.cancel(self.slot);
    }

    /// Returns the task ID that identifies the task relative to the other
    /// tasks.
    pub fn id(&self) -> (id: Id)
        ensures
            id == self.task(),
    {
        self.id
    }

    /// The state of the task, to look at.
    pub fn state<'a, T>(&self, rt: &'a Runtime<T>) -> (state: &'a State)
        requires
            rt.hosts(self.slot(), self.task()),
        ensures
            state@ == rt@[self.slot()].state,
    {
        rt.state(self.slot)
    }

    /// Checks if the task associated with this `AbortHandle` has finished:
    /// it was cancelled and its driver is done with it, either because the
    /// unit of work had run to its end or because the driver has acted on
    /// the cancellation. A request to cancel alone does not make a task
    /// finished in this sense.
    pub fn is_finished<T>(&self, rt: &Runtime<T>) -> (finished: bool)
        requires
            rt.hosts(self.slot(), self.task()),
        ensures
            finished == rt@[self.slot()].state.is_aborted_and_complete(),
    {
        let state = rt.state(self.slot);
        state.is_cancelled() && state.is_completed()
    }
}

impl<T> SpawnFuture<T> {
    /// The driver of the task that `handle` names.
    pub(crate) fn new(handle: JoinHandle<T>) -> (driver: SpawnFuture<T>)
        ensures
            driver.slot() == handle.slot(),
            driver.task() == handle.task(),
    {
        SpawnFuture { handle }
    }

    /// The position of the task's record in its runtime.
    pub closed spec fn slot(&self) -> int {
        self.handle.slot()
    }

    /// The identity of the task that this driver runs.
    pub closed spec fn task(&self) -> Id {
        self.handle.task()
    }

    /// Whether `rt` is the runtime that holds the task's record.
    pub fn belongs_to(&self, rt: &Runtime<T>) -> (belongs: bool)
        ensures
            belongs == rt.hosts(self.slot(), self.task()),
    {
        self.handle.belongs_to(rt)
    }

    /// Returns the ID of the task that this driver runs.
    pub fn id(&self) -> (id: Id)
        ensures
            id == self.task(),
    {
        self.handle.id()
    }

    /// Whether the task was cancelled, so that its unit of work is not to be
    /// polled any more.
    pub fn is_cancelled(&self, rt: &Runtime<T>) -> (cancelled: bool)
        requires
            rt.hosts(self.slot(), self.task()),
        ensures
            cancelled == rt@[self.slot()].state.cancelled,
    {
        rt.state(self.handle.slot).is_cancelled()
    }

    /// Whether the driver is to poll the unit of work: the task is neither
    /// cancelled nor completed.
    pub fn polls_work(&self, rt: &Runtime<T>) -> (polls: bool)
        requires
            rt.hosts(self.slot(), self.task()),
        ensures
            polls == rt@[self.slot()].polls_work(),
    {
        let state = rt.state(self.handle.slot);
        !state.is_cancelled() && !state.is_completed()
    }

    /// Advances the task after its unit of work was polled and gave `work`.
    ///
    /// A task that is cancelled or completed is stopped without a look at
    /// `work`: a cancelled task is marked completed, now that its driver has
    /// acted on the cancellation, and nothing is stored. Otherwise a value
    /// is stored in the result slot, the task is marked completed and
    /// everyone waiting is woken; a unit of work that is not ready yet gets a
    /// copy of `waker` registered for the driver.
    pub fn resume(&self, rt: &mut Runtime<T>, work: Poll<T>, waker: &Waker) -> (outcome: Poll<()>)
        requires
            old(rt).hosts(self.slot(), self.task()),
        ensures
            outcome == old(rt)@[self.slot()].drive_outcome(work),
            final(rt)@ == old(rt)@.update(self.slot(), old(rt)@[self.slot()].after_drive(work)),
            tasks_precede(old(rt)@, final(rt)@),
            values_kept(old(rt)@, final(rt)@),
    {
        rt.drive(self.handle.slot, work, waker)
    }

    /// One poll of the driver by the host.
    ///
    /// A task that is cancelled or completed is stopped at once and `work`,
    /// which polls the unit of work, is not called: a cancelled task is
    /// marked completed and nothing is stored. Otherwise `work` is called
    /// once and the task advances by what it gave, as
    /// [`SpawnFuture::resume`] says.
    pub fn poll<F: FnOnce() -> Poll<T>>(
        &self,
        rt: &mut Runtime<T>,
        work: F,
        waker: &Waker,
    ) -> (outcome: Poll<()>)
        requires
            old(rt).hosts(self.slot(), self.task()),
            old(rt)@[self.slot()].polls_work() ==> call_requires(work, ()),
        ensures
            !old(rt)@[self.slot()].polls_work() ==> {
                &&& outcome == Poll::Ready(())
                &&& final(rt)@ == old(rt)@.update(self.slot(), old(rt)@[self.slot()].after_stop())
            },
            old(rt)@[self.slot()].polls_work() ==> exists|polled: Poll<T>|
                {
                    &&& #[trigger] call_ensures(work, (), polled)
                    &&& outcome == old(rt)@[self.slot()].drive_outcome(polled)
                    &&& final(rt)@ == old(rt)@.update(
                        self.slot(),
                        old(rt)@[self.slot()].after_drive(polled),
                    )
                },
            tasks_precede(old(rt)@, final(rt)@),
            values_kept(old(rt)@, final(rt)@),
    {
        if !self.polls_work(rt) {
            rt.stop(self.handle.slot);
            return Poll::Ready(());
        }
        let polled = work();
        self.resume(rt, polled, waker)
    }
}

impl<T> AbortOnDropHandle<T> {
    /// The position of the task's record in its runtime.
    pub closed spec fn slot(&self) -> int {
        self.0.slot()
    }

    /// The identity of the task this handle was made for.
    pub closed spec fn task(&self) -> Id {
        self.0.task()
    }

    /// Converts a `JoinHandle` into one that aborts the task when it is
    /// given up.
    pub fn new(task: JoinHandle<T>) -> (handle: AbortOnDropHandle<T>)
        ensures
            handle.slot() == task.slot(),
            handle.task() == task.task(),
    {
        AbortOnDropHandle(task)
    }

    /// Whether `rt` is the runtime that holds the task's record.
    pub fn belongs_to(&self, rt: &Runtime<T>) -> (belongs: bool)
        ensures
            belongs == rt.hosts(self.slot(), self.task()),
    {
        self.0.belongs_to(rt)
    }

    /// Returns a new [`AbortHandle`] that can be used to remotely abort the
    /// task, equivalent to [`JoinHandle::abort_handle`].
    pub fn abort_handle(&self) -> (handle: AbortHandle)
        ensures
            handle.slot() == self.slot(),
            handle.task() == self.task(),
    {
        self.0.abort_handle()
    }

    /// Abort the task associated with this handle, equivalent to
    /// [`JoinHandle::abort`].
    pub fn abort(&self, rt: &mut Runtime<T>)
        requires
            old(rt).hosts(self.slot(), self.task()),
        ensures
            final(rt)@ == old(rt)@.update(self.slot(), old(rt)@[self.slot()].cancel()),
            tasks_precede(old(rt)@, final(rt)@),
            values_kept(old(rt)@, final(rt)@),
    {
        self.0.abort(rt)
    }

    /// Returns the task ID, equivalent to [`JoinHandle::id`].
    pub fn id(&self) -> (id: Id)
        ensures
            id == self.task(),
    {
        self.0.id()
    }

    /// The state of the task, to look at, equivalent to
    /// [`JoinHandle::state`].
    pub fn state<'a>(&self, rt: &'a Runtime<T>) -> (state: &'a State)
        requires
            rt.hosts(self.slot(), self.task()),
        ensures
            state@ == rt@[self.slot()].state,
    {
        self.0.state(rt)
    }

    /// Checks if the task associated with this handle is finished,
    /// equivalent to [`JoinHandle::is_finished`].
    pub fn is_finished(&self, rt: &Runtime<T>) -> (finished: bool)
        requires
            rt.hosts(self.slot(), self.task()),
        ensures
            finished == rt@[self.slot()].state.is_complete(),
    {
        self.0.is_finished(rt)
    }

    /// Polls for the task's outcome, exactly as [`JoinHandle::poll`] does.
    pub fn poll(&self, rt: &mut Runtime<T>, waker: &Waker) -> (outcome: Poll<Result<T, JoinError>>)
        requires
            old(rt).hosts(self.slot(), self.task()),
        ensures
            outcome == old(rt)@[self.slot()].join_outcome(),
            final(rt)@ == old(rt)@.update(self.slot(), old(rt)@[self.slot()].after_join()),
            tasks_precede(old(rt)@, final(rt)@),
    {
        self.0.poll(rt, waker)
    }

    /// Gives the handle up. The task is aborted, once, whether or not the
    /// handle was ever polled.
    pub fn drop(self, rt: &mut Runtime<T>)
        requires
            old(rt).hosts(self.slot(), self.task()),
        ensures
            final(rt)@ == old(rt)@.update(self.slot(), old(rt)@[self.slot()].cancel()),
            tasks_precede(old(rt)@, final(rt)@),
            values_kept(old(rt)@, final(rt)@),
    {
        self.0.abort(rt);
    }
}

/// Spawns a task onto `rt`.
///
/// The task gets the next identifier of `counter` and a fresh record at the
/// end of `rt`. Returned are the handle to the task and its driver, which is
/// to be handed to the host together with the unit of work.
pub fn spawn<T>(rt: &mut Runtime<T>, counter: &mut u64) -> (spawned: (
    JoinHandle<T>,
    SpawnFuture<T>,
))
    requires
        *old(counter) < u64::MAX,
    ensures
        *final(counter) == nth_task_id(*old(counter), 0),
        spawned.0.task()@ == *final(counter),
        spawned.0.slot() == old(rt)@.len(),
        spawned.1.task() == spawned.0.task(),
        spawned.1.slot() == spawned.0.slot(),
        final(rt)@ == old(rt)@.push(TaskView::<T>::fresh(spawned.0.task())),
        final(rt).hosts(spawned.0.slot(), spawned.0.task()),
        tasks_precede(old(rt)@, final(rt)@),
        values_kept(old(rt)@, final(rt)@),
{
    let handle = JoinHandle::new(rt, counter);
    let driver = SpawnFuture::new(handle.duplicate());
    (handle, driver)
}

} // verus!
