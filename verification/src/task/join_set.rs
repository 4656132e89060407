//! A collection of tasks spawned on a runtime, joined in the order in which
//! they are found finished.

use super::error::JoinError;
use super::handle::{AbortHandle, JoinHandle, SpawnFuture};
use super::id::{nth_task_id, Id};
use super::passes::{
    distinct_records, lemma_collecting_pass, lemma_filter_none, lemma_first_cancelled,
    lemma_not_listed_before, lemma_pass, lemma_pruned_again, lemma_tasks_precede_transitive,
};
use super::poll::Poll;
use super::runtime::{tasks_precede, values_kept, Runtime, TaskView};
use super::set_model::{
    cancel_each, delivered, first_cancellation, first_cancelled, first_ready, is_running,
    is_running_in, is_unresolved_in, join_each, lemma_cancel_each_keeps_values,
    lemma_cancel_each_precedes, lemma_cancel_each_step, lemma_first_cancelled_is_first,
    lemma_first_ready,
    lemma_join_each_precedes, lemma_join_each_step, lemma_lists_belong_after_pass,
    lemma_lists_belong_later, lemma_lists_belong_spawned, lemma_hosted_later,
    lemma_values_kept_of, lists,
    lists_belong, next_outcome, next_waiting, polled, running, unresolved, without_id,
};
use std::task::Waker;
use vstd::prelude::*;

verus! {

/// Whether each of `handles` has its record in `rt`.
fn all_hosted<T>(handles: &Vec<JoinHandle<T>>, rt: &Runtime<T>) -> (hosted: bool)
    ensures
        hosted == forall|i: int|
            0 <= i < handles@.len() ==> rt.hosts((#[trigger] handles@[i]).slot(), handles@[i].task()),
{
    let mut i: usize = 0;
    while i < handles.len()
        invariant
            i <= handles.len(),
            forall|j: int|
                0 <= j < i ==> rt.hosts((#[trigger] handles@[j]).slot(), handles@[j].task()),
        decreases handles.len() - i,
    {
        if !handles[i].belongs_to(rt) {
            return false;
        }
        i += 1;
    }
    true
}

/// Whether no two of `handles` name the same record.
fn all_distinct<T>(handles: &Vec<JoinHandle<T>>) -> (distinct: bool)
    ensures
        distinct == forall|i: int, j: int|
            0 <= i < j < handles@.len() ==> (#[trigger] handles@[i]).slot() != (
            #[trigger] handles@[j]).slot(),
{
    let mut j: usize = 0;
    while j < handles.len()
        invariant
            j <= handles.len(),
            forall|a: int, b: int|
                0 <= a < b < j ==> (#[trigger] handles@[a]).slot() != (#[trigger] handles@[b]).slot(),
        decreases handles.len() - j,
    {
        let mut i: usize = 0;
        while i < j
            invariant
                i <= j < handles.len(),
                forall|a: int|
                    0 <= a < i ==> (#[trigger] handles@[a]).slot() != handles@[j as int].slot(),
            decreases j - i,
        {
            if handles[i].same_record(&handles[j]) {
                return false;
            }
            i += 1;
        }
        j += 1;
    }
    true
}

/// Whether one of `handles` names the record that `handle` names.
fn names<T>(handles: &Vec<JoinHandle<T>>, handle: &JoinHandle<T>) -> (named: bool)
    ensures
        named == lists(handles@, handle.slot()),
{
    let mut j: usize = 0;
    while j < handles.len()
        invariant
            j <= handles.len(),
            forall|m: int| 0 <= m < j ==> (#[trigger] handles@[m]).slot() != handle.slot(),
        decreases handles.len() - j,
    {
        if handles[j].same_record(handle) {
            return true;
        }
        j += 1;
    }
    false
}

/// Whether each of `handles` whose task is running is named by `listed`.
fn all_covered<T>(
    handles: &Vec<JoinHandle<T>>,
    listed: &Vec<JoinHandle<T>>,
    rt: &Runtime<T>,
) -> (covered: bool)
    requires
        forall|i: int|
            0 <= i < handles@.len() ==> rt.hosts((#[trigger] handles@[i]).slot(), handles@[i].task()),
    ensures
        covered == forall|i: int|
            0 <= i < handles@.len() && is_running(rt@, #[trigger] handles@[i]) ==> lists(
                listed@,
                handles@[i].slot(),
            ),
{
    let mut i: usize = 0;
    while i < handles.len()
        invariant
            i <= handles.len(),
            forall|j: int|
                0 <= j < handles@.len() ==> rt.hosts(
                    (#[trigger] handles@[j]).slot(),
                    handles@[j].task(),
                ),
            forall|j: int|
                0 <= j < i && is_running(rt@, #[trigger] handles@[j]) ==> lists(
                    listed@,
                    handles@[j].slot(),
                ),
        decreases handles.len() - i,
    {
        if handles[i].is_running(rt) && !names(listed, &handles[i]) {
            return false;
        }
        i += 1;
    }
    true
}

/// Whether each task of `handles` that completed without being cancelled
/// holds its value.
fn all_hold_values<T>(handles: &Vec<JoinHandle<T>>, rt: &Runtime<T>) -> (hold: bool)
    requires
        forall|i: int|
            0 <= i < handles@.len() ==> rt.hosts((#[trigger] handles@[i]).slot(), handles@[i].task()),
    ensures
        hold == forall|i: int|
            0 <= i < handles@.len() ==> rt@[(#[trigger] handles@[i]).slot()].holds_its_value(),
{
    let mut i: usize = 0;
    while i < handles.len()
        invariant
            i <= handles.len(),
            forall|j: int|
                0 <= j < handles@.len() ==> rt.hosts(
                    (#[trigger] handles@[j]).slot(),
                    handles@[j].task(),
                ),
            forall|j: int| 0 <= j < i ==> rt@[(#[trigger] handles@[j]).slot()].holds_its_value(),
        decreases handles.len() - i,
    {
        if !handles[i].holds_its_value(rt) {
            return false;
        }
        i += 1;
    }
    true
}

/// A collection of tasks spawned on a runtime.
///
/// The set keeps two lists: the tasks whose outcome was not handed out yet,
/// and the tasks that `abort_all` will cancel. The second list loses the
/// tasks that are found finished whenever the set is polled.
pub struct JoinSet<T> {
    handles: Vec<JoinHandle<T>>,
    to_cancel: Vec<JoinHandle<T>>,
}

impl<T> Default for JoinSet<T> {
    /// An empty `JoinSet`.
    fn default() -> (set: JoinSet<T>)
        ensures
            set.waiting() == Seq::<JoinHandle<T>>::empty(),
            set.cancel_list() == Seq::<JoinHandle<T>>::empty(),
    {
        JoinSet::new()
    }
}

impl<T> JoinSet<T> {
    /// The tasks whose outcome was not handed out yet, in spawn order.
    pub closed spec fn waiting(&self) -> Seq<JoinHandle<T>> {
        self.handles@
    }

    /// The tasks that `abort_all` cancels.
    pub closed spec fn cancel_list(&self) -> Seq<JoinHandle<T>> {
        self.to_cancel@
    }

    /// The set belongs to `rt`: each task it lists has its record there, and
    /// no task waits twice.
    pub open spec fn wf(&self, rt: &Runtime<T>) -> bool {
        lists_belong(rt, self.waiting(), self.cancel_list())
    }

    /// Creates a new, empty `JoinSet`.
    pub fn new() -> (set: JoinSet<T>)
        ensures
            set.waiting() == Seq::<JoinHandle<T>>::empty(),
            set.cancel_list() == Seq::<JoinHandle<T>>::empty(),
    {
        JoinSet { handles: Vec::new(), to_cancel: Vec::new() }
    }

    /// Spawns a task onto `rt` and into this `JoinSet`.
    ///
    /// Returned are the permission to abort the task and its driver, which
    /// is to be handed to the host together with the unit of work.
    pub fn spawn(&mut self, rt: &mut Runtime<T>, counter: &mut u64) -> (spawned: (
        AbortHandle,
        SpawnFuture<T>,
    ))
        requires
            old(self).wf(old(rt)),
            *old(counter) < u64::MAX,
        ensures
            *final(counter) == nth_task_id(*old(counter), 0),
            spawned.0.task()@ == *final(counter),
            spawned.0.slot() == old(rt)@.len(),
            spawned.1.task() == spawned.0.task(),
            spawned.1.slot() == spawned.0.slot(),
            final(rt)@ == old(rt)@.push(TaskView::<T>::fresh(spawned.0.task())),
            final(rt).hosts(spawned.0.slot(), spawned.0.task()),
            final(self).waiting().len() == old(self).waiting().len() + 1,
            final(self).waiting().drop_last() == old(self).waiting(),
            final(self).waiting().last().slot() == spawned.0.slot(),
            final(self).waiting().last().task() == spawned.0.task(),
            final(self).cancel_list().len() == old(self).cancel_list().len() + 1,
            final(self).cancel_list().drop_last() == old(self).cancel_list(),
            final(self).cancel_list().last().slot() == spawned.0.slot(),
            final(self).cancel_list().last().task() == spawned.0.task(),
            final(self).wf(final(rt)),
            tasks_precede(old(rt)@, final(rt)@),
            values_kept(old(rt)@, final(rt)@),
    {
        let handle = JoinHandle::new(rt, counter);
        let abort = handle.abort_handle();
        let driver = SpawnFuture::new(handle.duplicate());
        let handle_for_cancel = handle.duplicate();
        proof {
            lemma_lists_belong_spawned(old(rt), rt, self.waiting(), self.cancel_list(), handle);
        }
        self.handles.push(handle);
        self.to_cancel.push(handle_for_cancel);
        assert(self.waiting().drop_last() =~= old(self).waiting());
        assert(self.cancel_list().drop_last() =~= old(self).cancel_list());
        (abort, driver)
    }

    /// Whether the set belongs to `rt`, as every operation on the set's tasks
    /// asks for.
    pub fn belongs_to(&self, rt: &Runtime<T>) -> (belongs: bool)
        ensures
            belongs == self.wf(rt),
    {
        all_hosted(&self.handles, rt) && all_hosted(&self.to_cancel, rt) && all_distinct(
            &self.handles,
        ) && all_covered(&self.handles, &self.to_cancel, rt) && all_hold_values(&self.handles, rt)
    }

    /// Returns whether no task waits in this `JoinSet`: every outcome was
    /// handed out.
    pub fn is_empty(&self) -> (empty: bool)
        ensures
            empty == (self.waiting().len() == 0),
    {
        self.handles.is_empty()
    }

    /// Returns the number of tasks that are either still running or have an
    /// outcome that was not handed out yet.
    pub fn len(&self) -> (len: usize)
        ensures
            len == self.waiting().len(),
    {
        self.handles.len()
    }

    /// Drops from the cancel list the tasks that are cancelled or completed.
    fn prune(&mut self, rt: &Runtime<T>)
        requires
            forall|i: int|
                0 <= i < old(self).cancel_list().len() ==> rt.hosts(
                    (#[trigger] old(self).cancel_list()[i]).slot(),
                    old(self).cancel_list()[i].task(),
                ),
        ensures
            final(self).waiting() == old(self).waiting(),
            final(self).cancel_list() == running(rt@, old(self).cancel_list()),
            forall|i: int|
                0 <= i < final(self).cancel_list().len() ==> rt.hosts(
                    (#[trigger] final(self).cancel_list()[i]).slot(),
                    final(self).cancel_list()[i].task(),
                ),
    {
        let mut kept: Vec<JoinHandle<T>> = Vec::new();
        let mut i: usize = 0;
        assert(self.cancel_list().take(0) =~= Seq::<JoinHandle<T>>::empty());
        assert(running(rt@, Seq::<JoinHandle<T>>::empty()) =~= Seq::<JoinHandle<T>>::empty()) by {
            reveal(Seq::filter);
        }
        while i < self.to_cancel.len()
            invariant
                i <= self.to_cancel.len(),
                self.to_cancel@ == old(self).cancel_list(),
                self.handles@ == old(self).waiting(),
                forall|j: int|
                    0 <= j < self.cancel_list().len() ==> rt.hosts(
                        (#[trigger] self.cancel_list()[j]).slot(),
                        self.cancel_list()[j].task(),
                    ),
                kept@ == running(rt@, self.cancel_list().take(i as int)),
                forall|j: int|
                    0 <= j < kept@.len() ==> rt.hosts(
                        (#[trigger] kept@[j]).slot(),
                        kept@[j].task(),
                    ),
            decreases self.to_cancel.len() - i,
        {
            let ghost done = self.cancel_list().take(i as int);
            let ghost handle = self.cancel_list()[i as int];
            proof {
                assert(self.cancel_list().take(i + 1) =~= done.push(handle));
                done.lemma_filter_push(handle, is_running_in(rt@));
            }
            if self.to_cancel[i].is_running(rt) {
                kept.push(self.to_cancel[i].duplicate());
            }
            i += 1;
        }
        assert(self.cancel_list().take(i as int) =~= self.cancel_list());
        self.to_cancel = kept;
    }

    /// Polls for the next task of this `JoinSet` that is found finished, and
    /// returns its outcome along with its task ID.
    ///
    /// Gives `Ready(None)` if and only if no task waits in the set. The
    /// waiting tasks are polled in their order up to the first whose join
    /// handle resolves; that task leaves the set and its outcome is
    /// returned. Each task polled before it gets a copy of `waker`
    /// registered, and if none resolves the poll is pending. Whenever the set
    /// is polled, the cancel list loses the tasks that are cancelled or
    /// completed.
    ///
    /// A task that is spawned into the set after a pending poll is seen by
    /// the next poll only: poll again after each `spawn`.
    pub fn join_next_with_id(&mut self, rt: &mut Runtime<T>, waker: &Waker) -> (outcome: Poll<
        Option<Result<(Id, T), JoinError>>,
    >)
        requires
            old(self).wf(old(rt)),
        ensures
            outcome == next_outcome(old(rt)@, old(self).waiting()),
            final(rt)@ == join_each(old(rt)@, polled(old(rt)@, old(self).waiting())),
            final(self).waiting() == next_waiting(old(rt)@, old(self).waiting()),
            final(self).cancel_list() == running(final(rt)@, old(self).cancel_list()),
            final(self).wf(final(rt)),
            tasks_precede(old(rt)@, final(rt)@),
    {
        let ghost waiting = self.waiting();
        let mut i: usize = 0;
        assert(rt@ =~= join_each(old(rt)@, waiting.take(0)));
        while i < self.handles.len()
            invariant
                i <= self.handles.len(),
                self.handles@ == waiting,
                self.to_cancel@ == old(self).cancel_list(),
                waiting == old(self).waiting(),
                old(self).wf(old(rt)),
                forall|j: int|
                    0 <= j < i ==> !old(rt)@[(#[trigger] waiting[j]).slot()].join_ready(),
                rt@ == join_each(old(rt)@, waiting.take(i as int)),
            decreases self.handles.len() - i,
        {
            proof {
                assert(old(rt).hosts(waiting[i as int].slot(), waiting[i as int].task()));
                lemma_not_listed_before(old(rt)@, waiting, i as int, i as int);
                lemma_join_each_step(old(rt)@, waiting, i as int);
            }
            match self.handles[i].poll_with_id(rt, waker) {
                Poll::Ready(found) => {
                    self.handles.remove(i);
                    proof {
                        lemma_first_ready(old(rt)@, waiting, i as int);
                        lemma_join_each_precedes(old(rt)@, waiting.take(i + 1));
                        lemma_lists_belong_after_pass(
                            old(rt),
                            rt,
                            waiting,
                            old(self).cancel_list(),
                        );
                        lemma_hosted_later(old(rt), rt, self.cancel_list());
                    }
                    self.prune(rt);
                    return Poll::Ready(Some(found));
                },
                Poll::Pending => {
                    i += 1;
                },
            }
        }
        proof {
            assert(waiting.take(i as int) =~= waiting);
            lemma_first_ready(old(rt)@, waiting, i as int);
            lemma_join_each_precedes(old(rt)@, waiting);
            lemma_lists_belong_after_pass(old(rt), rt, waiting, old(self).cancel_list());
            lemma_hosted_later(old(rt), rt, self.cancel_list());
        }
        self.prune(rt);
        if self.handles.is_empty() {
            Poll::Ready(None)
        } else {
            Poll::Pending
        }
    }

    /// Polls for the next task of this `JoinSet` that is found finished, and
    /// returns its outcome.
    ///
    /// Does what [`JoinSet::join_next_with_id`] does and leaves the task ID
    /// out of a delivered value.
    pub fn join_next(&mut self, rt: &mut Runtime<T>, waker: &Waker) -> (outcome: Poll<
        Option<Result<T, JoinError>>,
    >)
        requires
            old(self).wf(old(rt)),
        ensures
            outcome == without_id(next_outcome(old(rt)@, old(self).waiting())),
            final(rt)@ == join_each(old(rt)@, polled(old(rt)@, old(self).waiting())),
            final(self).waiting() == next_waiting(old(rt)@, old(self).waiting()),
            final(self).cancel_list() == running(final(rt)@, old(self).cancel_list()),
            final(self).wf(final(rt)),
            tasks_precede(old(rt)@, final(rt)@),
    {
        match self.join_next_with_id(rt, waker) {
            Poll::Ready(Some(Ok((_, value)))) => Poll::Ready(Some(Ok(value))),
            Poll::Ready(Some(Err(error))) => Poll::Ready(Some(Err(error))),
            Poll::Ready(None) => Poll::Ready(None),
            Poll::Pending => Poll::Pending,
        }
    }

    /// Aborts all tasks and then takes their outcomes, which are dropped.
    ///
    /// Every task on the cancel list is aborted. After that each waiting
    /// task can be joined: it was cancelled just now or before, or it
    /// completed and holds its value. So the waiting tasks are joined one
    /// after another until none is left, and the result is always `Ready`:
    /// the set is empty, and so is its cancel list.
    pub fn shutdown(&mut self, rt: &mut Runtime<T>, waker: &Waker) -> (outcome: Poll<()>)
        requires
            old(self).wf(old(rt)),
        ensures
            outcome == Poll::Ready(()),
            final(rt)@ == join_each(
                cancel_each(old(rt)@, old(self).cancel_list()),
                old(self).waiting(),
            ),
            final(self).waiting() == Seq::<JoinHandle<T>>::empty(),
            final(self).cancel_list() == Seq::<JoinHandle<T>>::empty(),
            final(self).wf(final(rt)),
            tasks_precede(old(rt)@, final(rt)@),
    {
        self.abort_all(rt);
        let ghost aborted = rt@;
        let ghost all = self.waiting();
        let ghost mut p: int = 0;
        proof {
            assert(all.take(0) =~= Seq::<JoinHandle<T>>::empty());
            assert(rt@ =~= join_each(aborted, all.take(0)));
            lemma_filter_none(all.take(0), is_unresolved_in(aborted));
            assert(self.waiting() =~= unresolved(aborted, all.take(0)) + all.skip(0));
            assert forall|j: int| 0 <= j < self.cancel_list().len() implies rt@[(
            #[trigger] self.cancel_list()[j]).slot()].state.cancelled by {
                assert(lists(self.cancel_list(), self.cancel_list()[j].slot()));
            }
            assert forall|i: int| 0 <= i < all.len() implies !is_unresolved_in(aborted)(
                #[trigger] all[i],
            ) by {
                let slot = all[i].slot();
                assert(old(rt).hosts(slot, all[i].task()));
                assert(old(rt)@[slot].holds_its_value());
                assert(is_running(old(rt)@, all[i]) ==> lists(self.cancel_list(), slot));
            }
            lemma_filter_none(all, is_unresolved_in(aborted));
        }
        loop
            invariant
                self.wf(rt),
                distinct_records(aborted, all),
                0 <= p <= all.len(),
                rt@ == join_each(aborted, all.take(p)),
                self.waiting() == unresolved(aborted, all.take(p)) + all.skip(p),
                unresolved(aborted, all) == Seq::<JoinHandle<T>>::empty(),
                forall|j: int|
                    0 <= j < self.cancel_list().len() ==> rt@[(
                    #[trigger] self.cancel_list()[j]).slot()].state.cancelled,
                tasks_precede(old(rt)@, rt@),
                aborted == cancel_each(old(rt)@, old(self).cancel_list()),
                all == old(self).waiting(),
            decreases all.len() - p,
        {
            let ghost before = rt@;
            let ghost listed = self.cancel_list();
            proof {
                lemma_pass(aborted, all, p);
            }
            let next = self.join_next(rt, waker);
            proof {
                lemma_tasks_precede_transitive(old(rt)@, before, rt@);
                assert forall|j: int| 0 <= j < listed.len() implies !is_running_in(rt@)(
                    #[trigger] listed[j],
                ) by {
                    assert(before[listed[j].slot()].state.precedes(rt@[listed[j].slot()].state));
                }
                lemma_filter_none(listed, is_running_in(rt@));
            }
            match next {
                Poll::Ready(Some(_)) => {
                    proof {
                        p = p + first_ready(aborted, all.skip(p)) + 1;
                    }
                },
                Poll::Ready(None) => {
                    return Poll::Ready(());
                },
                Poll::Pending => {
                    // Every waiting task can be joined, so no poll is pending.
                    return unreached();
                },
            }
        }
    }

    /// Starts to wait for all tasks of the set, which is used up: the
    /// returned state is to be polled until it is ready.
    pub fn join_all(self) -> (all: JoinAll<T>)
        ensures
            all.waiting() == self.waiting(),
            all.cancel_list() == self.cancel_list(),
            all.collected() == Seq::<T>::empty(),
    {
        JoinAll { set: self, output: Vec::new() }
    }

    /// Gives the set up: every task on its cancel list is aborted.
    pub fn drop(self, rt: &mut Runtime<T>)
        requires
            self.wf(old(rt)),
        ensures
            final(rt)@ == cancel_each(old(rt)@, self.cancel_list()),
            tasks_precede(old(rt)@, final(rt)@),
            values_kept(old(rt)@, final(rt)@),
    {
        self.abort_all(rt)
    }

    /// Aborts all tasks on the cancel list of this `JoinSet`.
    pub fn abort_all(&self, rt: &mut Runtime<T>)
        requires
            self.wf(old(rt)),
        ensures
            final(rt)@ == cancel_each(old(rt)@, self.cancel_list()),
            self.wf(final(rt)),
            tasks_precede(old(rt)@, final(rt)@),
            values_kept(old(rt)@, final(rt)@),
    {
        let mut i: usize = 0;
        assert(rt@ =~= cancel_each(old(rt)@, self.cancel_list().take(0)));
        while i < self.to_cancel.len()
            invariant
                i <= self.to_cancel.len(),
                self.wf(old(rt)),
                rt@ == cancel_each(old(rt)@, self.cancel_list().take(i as int)),
            decreases self.to_cancel.len() - i,
        {
            proof {
                assert(old(rt).hosts(
                    self.cancel_list()[i as int].slot(),
                    self.cancel_list()[i as int].task(),
                ));
                lemma_cancel_each_step(old(rt)@, self.cancel_list(), i as int);
            }
            self.to_cancel[i].abort(rt);
            i += 1;
        }
        proof {
            assert(self.cancel_list().take(i as int) =~= self.cancel_list());
            lemma_cancel_each_precedes(old(rt)@, self.cancel_list());
            lemma_cancel_each_keeps_values(old(rt)@, self.cancel_list());
            lemma_values_kept_of(old(rt)@, rt@, self.waiting());
            lemma_lists_belong_later(old(rt), rt, self.waiting(), self.cancel_list());
        }
    }
}

/// The state of [`JoinSet::join_all`] between polls: the set and the values
/// collected so far.
pub struct JoinAll<T> {
    set: JoinSet<T>,
    output: Vec<T>,
}

impl<T> JoinAll<T> {
    /// The tasks whose outcome was not collected yet.
    pub closed spec fn waiting(&self) -> Seq<JoinHandle<T>> {
        self.set.waiting()
    }

    /// The tasks that the set would cancel.
    pub closed spec fn cancel_list(&self) -> Seq<JoinHandle<T>> {
        self.set.cancel_list()
    }

    /// The values collected so far, in the order in which the tasks were
    /// joined.
    pub closed spec fn collected(&self) -> Seq<T> {
        self.output@
    }

    /// The set that is being joined belongs to `rt`.
    pub open spec fn wf(&self, rt: &Runtime<T>) -> bool {
        lists_belong(rt, self.waiting(), self.cancel_list())
    }

    /// Whether the set that is being joined belongs to `rt`.
    pub fn belongs_to(&self, rt: &Runtime<T>) -> (belongs: bool)
        ensures
            belongs == self.wf(rt),
    {
        self.set.belongs_to(rt)
    }

    /// Gives the operation up, and the set with it: every task on the cancel
    /// list is aborted.
    pub fn drop(self, rt: &mut Runtime<T>)
        requires
            self.wf(old(rt)),
        ensures
            final(rt)@ == cancel_each(old(rt)@, self.cancel_list()),
            tasks_precede(old(rt)@, final(rt)@),
            values_kept(old(rt)@, final(rt)@),
    {
        self.set.abort_all(rt)
    }

    /// The error of the first waiting task that is cancelled, if there is
    /// one.
    ///
    /// A cancelled task makes the whole operation fail: with such a task in
    /// the set [`JoinAll::poll`] must not be called, and the caller has to
    /// give up with this error instead.
    pub fn cancelled(&self, rt: &Runtime<T>) -> (error: Option<JoinError>)
        requires
            self.wf(rt),
        ensures
            error == first_cancellation(rt@, self.waiting()),
    {
        let mut i: usize = 0;
        while i < self.set.handles.len()
            invariant
                i <= self.set.handles.len(),
                self.wf(rt),
                forall|j: int|
                    0 <= j < i ==> !rt@[(#[trigger] self.waiting()[j]).slot()].state.cancelled,
            decreases self.set.handles.len() - i,
        {
            assert(rt.hosts(self.waiting()[i as int].slot(), self.waiting()[i as int].task()));
            if self.set.handles[i].state(rt).is_cancelled() {
                proof {
                    lemma_first_cancelled(rt@, self.waiting(), i as int);
                }
                return Some(JoinError::new_cancelled(self.set.handles[i].id()));
            }
            i += 1;
        }
        proof {
            lemma_first_cancelled(rt@, self.waiting(), i as int);
        }
        None
    }

    /// Waits for all tasks to finish and collects their values.
    ///
    /// No waiting task may be cancelled: a cancelled task fails the whole
    /// operation, see [`JoinAll::cancelled`]. The waiting tasks are joined
    /// one after another for as long as one is found finished. The result is
    /// the collected values once no task waits any more, and `Pending` while
    /// unfinished tasks wait; each of them then has a copy of `waker`
    /// registered.
    pub fn poll(&mut self, rt: &mut Runtime<T>, waker: &Waker) -> (outcome: Poll<Vec<T>>)
        requires
            old(self).wf(old(rt)),
            first_cancellation(old(rt)@, old(self).waiting()) is None,
        ensures
            final(rt)@ == join_each(old(rt)@, old(self).waiting()),
            final(self).waiting() == unresolved(old(rt)@, old(self).waiting()),
            final(self).waiting().len() == 0 ==> {
                &&& outcome matches Poll::Ready(values)
                &&& values@ == old(self).collected() + delivered(old(rt)@, old(self).waiting())
                &&& final(self).collected() == Seq::<T>::empty()
            },
            final(self).waiting().len() != 0 ==> {
                &&& outcome is Pending
                &&& final(self).collected() == old(self).collected() + delivered(
                    old(rt)@,
                    old(self).waiting(),
                )
            },
            final(self).cancel_list() == running(final(rt)@, old(self).cancel_list()),
            final(self).wf(final(rt)),
            tasks_precede(old(rt)@, final(rt)@),
    {
        let ghost start = rt@;
        let ghost all = self.waiting();
        let ghost listed = self.cancel_list();
        let ghost mut p: int = 0;
        proof {
            assert(all.take(0) =~= Seq::<JoinHandle<T>>::empty());
            assert(rt@ =~= join_each(start, all.take(0)));
            lemma_filter_none(all.take(0), is_unresolved_in(start));
            assert(self.waiting() =~= unresolved(start, all.take(0)) + all.skip(0));
            assert(self.collected() =~= old(self).collected() + delivered(start, all.take(0)));
            lemma_first_cancelled_is_first(start, all);
        }
        loop
            invariant
                self.set.wf(rt),
                distinct_records(start, all),
                first_cancelled(start, all) == all.len(),
                0 <= p <= all.len(),
                rt@ == join_each(start, all.take(p)),
                self.set.waiting() == unresolved(start, all.take(p)) + all.skip(p),
                self.output@ == old(self).collected() + delivered(start, all.take(p)),
                self.set.cancel_list() == listed || self.set.cancel_list() == running(rt@, listed),
                forall|i: int|
                    0 <= i < listed.len() ==> 0 <= (#[trigger] listed[i]).slot() < rt@.len(),
                tasks_precede(old(rt)@, rt@),
                start == old(rt)@,
                all == old(self).waiting(),
                listed == old(self).cancel_list(),
            decreases all.len() - p,
        {
            let ghost before = rt@;
            let ghost q = p + first_ready(start, all.skip(p));
            proof {
                lemma_collecting_pass(start, all, p);
                lemma_pruned_again(
                    before,
                    polled(before, self.set.waiting()),
                    listed,
                    self.set.cancel_list(),
                );
            }
            let next = self.set.join_next(rt, waker);
            proof {
                lemma_tasks_precede_transitive(old(rt)@, before, rt@);
            }
            match next {
                Poll::Ready(Some(Ok(value))) => {
                    self.output.push(value);
                    proof {
                        p = q + 1;
                    }
                },
                Poll::Ready(Some(Err(_))) => {
                    // No waiting task is cancelled, so none resolves to an error.
                    return unreached();
                },
                Poll::Ready(None) => {
                    let mut values: Vec<T> = Vec::new();
                    std::mem::swap(&mut values, &mut self.output);
                    return Poll::Ready(values);
                },
                Poll::Pending => {
                    return Poll::Pending;
                },
            }
        }
    }
}

} // verus!
