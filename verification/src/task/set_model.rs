//! What the operations of a join set do, as functions on the sequence of task
//! records and on the set's lists of handles.

use super::error::JoinError;
use super::handle::{with_id, JoinHandle};
use super::id::Id;
use super::poll::Poll;
use super::runtime::{tasks_precede, values_kept, Runtime, TaskView};
use vstd::prelude::*;

verus! {

/// Whether `slot` is the record of one of `handles`.
pub open spec fn lists<T>(handles: Seq<JoinHandle<T>>, slot: int) -> bool {
    exists|i: int| 0 <= i < handles.len() && #[trigger] handles[i].slot() == slot
}

/// The records after a request to cancel each task of `handles`.
pub open spec fn cancel_each<T>(tasks: Seq<TaskView<T>>, handles: Seq<JoinHandle<T>>) -> Seq<
    TaskView<T>,
> {
    Seq::new(
        tasks.len(),
        |slot: int|
            if lists(handles, slot) {
                tasks[slot].cancel()
            } else {
                tasks[slot]
            },
    )
}

/// The records after one poll of the join handle of each task of `handles`.
pub open spec fn join_each<T>(tasks: Seq<TaskView<T>>, handles: Seq<JoinHandle<T>>) -> Seq<
    TaskView<T>,
> {
    Seq::new(
        tasks.len(),
        |slot: int|
            if lists(handles, slot) {
                tasks[slot].after_join()
            } else {
                tasks[slot]
            },
    )
}

/// Whether the task of `handle` is neither cancelled nor completed.
pub open spec fn is_running<T>(tasks: Seq<TaskView<T>>, handle: JoinHandle<T>) -> bool {
    !tasks[handle.slot()].state.is_complete()
}

/// The test that `running` keeps a handle by.
pub open spec fn is_running_in<T>(tasks: Seq<TaskView<T>>) -> spec_fn(JoinHandle<T>) -> bool {
    |handle: JoinHandle<T>| is_running(tasks, handle)
}

/// Those of `handles` whose task is neither cancelled nor completed, in
/// their order.
pub open spec fn running<T>(tasks: Seq<TaskView<T>>, handles: Seq<JoinHandle<T>>) -> Seq<
    JoinHandle<T>,
> {
    handles.filter(is_running_in(tasks))
}

/// The test that `unresolved` keeps a handle by.
pub open spec fn is_unresolved_in<T>(tasks: Seq<TaskView<T>>) -> spec_fn(JoinHandle<T>) -> bool {
    |handle: JoinHandle<T>| !tasks[handle.slot()].join_ready()
}

/// Those of `handles` whose join handle cannot resolve yet, in their order.
pub open spec fn unresolved<T>(tasks: Seq<TaskView<T>>, handles: Seq<JoinHandle<T>>) -> Seq<
    JoinHandle<T>,
> {
    handles.filter(is_unresolved_in(tasks))
}

/// The position in `handles` of the first task that is cancelled, or the
/// length of `handles` if there is none.
pub open spec fn first_cancelled<T>(tasks: Seq<TaskView<T>>, handles: Seq<JoinHandle<T>>) -> int
    decreases handles.len(),
{
    if handles.len() == 0 {
        0
    } else if tasks[handles[0].slot()].state.cancelled {
        0
    } else {
        1 + first_cancelled(tasks, handles.skip(1))
    }
}

/// The values that the tasks of `handles` hold, in the order of `handles`.
pub open spec fn delivered<T>(tasks: Seq<TaskView<T>>, handles: Seq<JoinHandle<T>>) -> Seq<T>
    decreases handles.len(),
{
    if handles.len() == 0 {
        Seq::empty()
    } else {
        let before = delivered(tasks, handles.drop_last());
        match tasks[handles.last().slot()].result {
            Some(value) => before.push(value),
            None => before,
        }
    }
}

/// The handles that one pass over `handles` polls: all up to and including
/// the first whose task is ready, or all of them if none is.
pub open spec fn polled<T>(tasks: Seq<TaskView<T>>, handles: Seq<JoinHandle<T>>) -> Seq<
    JoinHandle<T>,
> {
    let k = first_ready(tasks, handles);
    if k < handles.len() {
        handles.take(k + 1)
    } else {
        handles
    }
}

/// What one pass over `handles` yields: nothing more to come if there are no
/// handles, the outcome of the first ready task if there is one, and
/// otherwise the request to come back later.
pub open spec fn next_outcome<T>(tasks: Seq<TaskView<T>>, handles: Seq<JoinHandle<T>>) -> Poll<
    Option<Result<(Id, T), JoinError>>,
> {
    let k = first_ready(tasks, handles);
    if handles.len() == 0 {
        Poll::Ready(None)
    } else if k < handles.len() {
        match with_id(handles[k].task(), tasks[handles[k].slot()].join_outcome()) {
            Poll::Ready(outcome) => Poll::Ready(Some(outcome)),
            Poll::Pending => Poll::Pending,
        }
    } else {
        Poll::Pending
    }
}

/// The handles that still wait after one pass over `handles`: all but the
/// first whose task is ready.
pub open spec fn next_waiting<T>(tasks: Seq<TaskView<T>>, handles: Seq<JoinHandle<T>>) -> Seq<
    JoinHandle<T>,
> {
    let k = first_ready(tasks, handles);
    if k < handles.len() {
        handles.remove(k)
    } else {
        handles
    }
}

/// `outcome` without the task identities beside the delivered values.
pub open spec fn without_id<T>(outcome: Poll<Option<Result<(Id, T), JoinError>>>) -> Poll<
    Option<Result<T, JoinError>>,
> {
    match outcome {
        Poll::Ready(Some(Ok((_, value)))) => Poll::Ready(Some(Ok(value))),
        Poll::Ready(Some(Err(error))) => Poll::Ready(Some(Err(error))),
        Poll::Ready(None) => Poll::Ready(None),
        Poll::Pending => Poll::Pending,
    }
}

/// Polling one more handle, whose task none of the first `i` handles names,
/// extends `join_each` by that handle.
pub proof fn lemma_join_each_step<T>(tasks: Seq<TaskView<T>>, handles: Seq<JoinHandle<T>>, i: int)
    requires
        0 <= i < handles.len(),
        0 <= handles[i].slot() < tasks.len(),
        !lists(handles.take(i), handles[i].slot()),
    ensures
        join_each(tasks, handles.take(i))[handles[i].slot()] == tasks[handles[i].slot()],
        join_each(tasks, handles.take(i + 1)) == join_each(tasks, handles.take(i)).update(
            handles[i].slot(),
            tasks[handles[i].slot()].after_join(),
        ),
{
    let done = handles.take(i);
    let next = handles.take(i + 1);
    let slot = handles[i].slot();
    let stepped = join_each(tasks, done).update(slot, tasks[slot].after_join());
    assert(next[i].slot() == slot);
    assert forall|s: int| 0 <= s < tasks.len() implies stepped[s] == join_each(tasks, next)[s] by {
        if s == slot {
            assert(lists(next, s));
        } else if lists(done, s) {
            let w = choose|w: int| 0 <= w < done.len() && #[trigger] done[w].slot() == s;
            assert(next[w].slot() == s);
        } else if lists(next, s) {
            let w = choose|w: int| 0 <= w < next.len() && #[trigger] next[w].slot() == s;
            assert(w < i);
            assert(done[w].slot() == s);
        }
    }
    assert(stepped =~= join_each(tasks, next));
}

/// The position in `handles` of the first task whose join handle can
/// resolve, or the length of `handles` if there is none.
pub open spec fn first_ready<T>(tasks: Seq<TaskView<T>>, handles: Seq<JoinHandle<T>>) -> int
    decreases handles.len(),
{
    if handles.len() == 0 {
        0
    } else if tasks[handles[0].slot()].join_ready() {
        0
    } else {
        1 + first_ready(tasks, handles.skip(1))
    }
}

/// `first_ready` is the one position before which nothing is ready and at
/// which, if it is a position of `handles`, a ready task stands.
pub proof fn lemma_first_ready<T>(tasks: Seq<TaskView<T>>, handles: Seq<JoinHandle<T>>, k: int)
    requires
        0 <= k <= handles.len(),
        forall|i: int| 0 <= i < k ==> !tasks[(#[trigger] handles[i]).slot()].join_ready(),
        k < handles.len() ==> tasks[handles[k].slot()].join_ready(),
    ensures
        first_ready(tasks, handles) == k,
    decreases handles.len(),
{
    if handles.len() == 0 {
    } else if k == 0 {
    } else {
        assert(!tasks[handles[0].slot()].join_ready());
        let rest = handles.skip(1);
        assert forall|i: int| 0 <= i < k - 1 implies !tasks[(#[trigger] rest[i]).slot()].join_ready() by {
            assert(rest[i] == handles[i + 1]);
        }
        lemma_first_ready(tasks, rest, k - 1);
    }
}

/// The position that `first_ready` gives is such a position: nothing before
/// it is ready, and a ready task stands at it if it is a position of `handles`.
pub proof fn lemma_first_ready_is_first<T>(tasks: Seq<TaskView<T>>, handles: Seq<JoinHandle<T>>)
    ensures
        0 <= first_ready(tasks, handles) <= handles.len(),
        forall|i: int|
            0 <= i < first_ready(tasks, handles) ==> !tasks[(
            #[trigger] handles[i]).slot()].join_ready(),
        first_ready(tasks, handles) < handles.len() ==> tasks[handles[first_ready(
            tasks,
            handles,
        )].slot()].join_ready(),
    decreases handles.len(),
{
    if handles.len() == 0 {
    } else if tasks[handles[0].slot()].join_ready() {
    } else {
        let rest = handles.skip(1);
        lemma_first_ready_is_first(tasks, rest);
        let k = first_ready(tasks, rest);
        assert forall|i: int| 0 <= i < k + 1 implies !tasks[(#[trigger] handles[i]).slot()].join_ready() by {
            if i > 0 {
                assert(rest[i - 1] == handles[i]);
            }
        }
        if k < rest.len() {
            assert(rest[k] == handles[k + 1]);
        }
    }
}

/// The two lists of a set belong to `rt`.
///
/// Each task they list has its record there, and no task waits twice. A task
/// enters both lists together and leaves the cancel list only when it is
/// found finished, so each waiting task that is still running is on the
/// cancel list. And the outcome of a waiting task is handed out by the set
/// alone: one that completed without being cancelled still holds its value.
pub open spec fn lists_belong<T>(
    rt: &Runtime<T>,
    waiting: Seq<JoinHandle<T>>,
    cancel_list: Seq<JoinHandle<T>>,
) -> bool {
    &&& forall|i: int|
        0 <= i < waiting.len() ==> rt.hosts((#[trigger] waiting[i]).slot(), waiting[i].task())
    &&& forall|i: int|
        0 <= i < cancel_list.len() ==> rt.hosts(
            (#[trigger] cancel_list[i]).slot(),
            cancel_list[i].task(),
        )
    &&& forall|i: int, j: int|
        0 <= i < j < waiting.len() ==> (#[trigger] waiting[i]).slot() != (
        #[trigger] waiting[j]).slot()
    &&& forall|i: int|
        0 <= i < waiting.len() && is_running(rt@, #[trigger] waiting[i]) ==> lists(
            cancel_list,
            waiting[i].slot(),
        )
    &&& forall|i: int|
        0 <= i < waiting.len() ==> rt@[(#[trigger] waiting[i]).slot()].holds_its_value()
}

/// No value was taken from a task of `handles` on the way from `before` to
/// `after`.
pub open spec fn values_kept_of<T>(
    before: Seq<TaskView<T>>,
    after: Seq<TaskView<T>>,
    handles: Seq<JoinHandle<T>>,
) -> bool {
    forall|i: int|
        0 <= i < handles.len() ==> before[(#[trigger] handles[i]).slot()].keeps_value(
            after[handles[i].slot()],
        )
}

/// Cancelling one more task extends `cancel_each` by its handle.
pub proof fn lemma_cancel_each_step<T>(tasks: Seq<TaskView<T>>, handles: Seq<JoinHandle<T>>, i: int)
    requires
        0 <= i < handles.len(),
        0 <= handles[i].slot() < tasks.len(),
    ensures
        cancel_each(tasks, handles.take(i + 1)) == cancel_each(tasks, handles.take(i)).update(
            handles[i].slot(),
            cancel_each(tasks, handles.take(i))[handles[i].slot()].cancel(),
        ),
{
    let done = handles.take(i);
    let next = handles.take(i + 1);
    let slot = handles[i].slot();
    let before = cancel_each(tasks, done);
    let stepped = before.update(slot, before[slot].cancel());
    assert(next[i].slot() == slot);
    assert forall|s: int| 0 <= s < tasks.len() implies stepped[s] == cancel_each(tasks, next)[s] by {
        if s == slot {
            assert(lists(next, s));
        } else if lists(done, s) {
            let w = choose|w: int| 0 <= w < done.len() && #[trigger] done[w].slot() == s;
            assert(next[w].slot() == s);
        } else if lists(next, s) {
            let w = choose|w: int| 0 <= w < next.len() && #[trigger] next[w].slot() == s;
            assert(w < i);
            assert(done[w].slot() == s);
        }
    }
    assert(stepped =~= cancel_each(tasks, next));
}

/// Cancelling tasks takes no record away, keeps every identity and clears
/// no flag.
pub proof fn lemma_cancel_each_precedes<T>(tasks: Seq<TaskView<T>>, handles: Seq<JoinHandle<T>>)
    ensures
        tasks_precede(tasks, cancel_each(tasks, handles)),
{
}

/// A poll of join handles takes no record away and leaves every identity and
/// every flag as it is.
pub proof fn lemma_join_each_precedes<T>(tasks: Seq<TaskView<T>>, handles: Seq<JoinHandle<T>>)
    ensures
        tasks_precede(tasks, join_each(tasks, handles)),
{
}

/// What holds of all records holds of the records of `handles`.
pub proof fn lemma_values_kept_of<T>(
    before: Seq<TaskView<T>>,
    after: Seq<TaskView<T>>,
    handles: Seq<JoinHandle<T>>,
)
    requires
        values_kept(before, after),
        before.len() <= after.len(),
        forall|i: int| 0 <= i < handles.len() ==> 0 <= (#[trigger] handles[i]).slot() < before.len(),
    ensures
        values_kept_of(before, after, handles),
{
    assert forall|i: int| 0 <= i < handles.len() implies before[(
    #[trigger] handles[i]).slot()].keeps_value(after[handles[i].slot()]) by {
        let slot = handles[i].slot();
        assert(before[slot].keeps_value(after[slot]));
    }
}

/// The error that `join_all` fails with: the cancellation of the first
/// waiting task that is cancelled, if there is one.
pub open spec fn first_cancellation<T>(
    tasks: Seq<TaskView<T>>,
    handles: Seq<JoinHandle<T>>,
) -> Option<JoinError> {
    let c = first_cancelled(tasks, handles);
    if c < handles.len() {
        Some(JoinError::cancelled(handles[c].task()))
    } else {
        None
    }
}

/// Cancelling tasks takes no value out of a slot.
pub proof fn lemma_cancel_each_keeps_values<T>(tasks: Seq<TaskView<T>>, handles: Seq<JoinHandle<T>>)
    ensures
        values_kept(tasks, cancel_each(tasks, handles)),
{
}

/// Lists that belong to a runtime belong to every state that the runtime
/// reaches without a value being taken from a waiting task.
pub proof fn lemma_lists_belong_later<T>(
    before: &Runtime<T>,
    after: &Runtime<T>,
    waiting: Seq<JoinHandle<T>>,
    cancel_list: Seq<JoinHandle<T>>,
)
    requires
        lists_belong(before, waiting, cancel_list),
        tasks_precede(before@, after@),
        values_kept_of(before@, after@, waiting),
    ensures
        lists_belong(after, waiting, cancel_list),
{
    assert forall|i: int| 0 <= i < waiting.len() implies {
        &&& after.hosts((#[trigger] waiting[i]).slot(), waiting[i].task())
        &&& is_running(after@, waiting[i]) ==> lists(cancel_list, waiting[i].slot())
        &&& after@[waiting[i].slot()].holds_its_value()
    } by {
        let slot = waiting[i].slot();
        assert(before.hosts(slot, waiting[i].task()));
        assert(before@[slot].state.precedes(after@[slot].state));
        assert(before@[slot].keeps_value(after@[slot]));
        assert(before@[slot].holds_its_value());
        assert(is_running(after@, waiting[i]) ==> is_running(before@, waiting[i]));
    }
    assert forall|i: int| 0 <= i < cancel_list.len() implies after.hosts(
        (#[trigger] cancel_list[i]).slot(),
        cancel_list[i].task(),
    ) by {
        assert(before.hosts(cancel_list[i].slot(), cancel_list[i].task()));
        assert(before@[cancel_list[i].slot()].state.precedes(after@[cancel_list[i].slot()].state));
    }
}

/// Handles that have their records in a runtime have them in every state
/// that the runtime reaches.
pub proof fn lemma_hosted_later<T>(
    before: &Runtime<T>,
    after: &Runtime<T>,
    handles: Seq<JoinHandle<T>>,
)
    requires
        forall|i: int|
            0 <= i < handles.len() ==> before.hosts((#[trigger] handles[i]).slot(), handles[i].task()),
        tasks_precede(before@, after@),
    ensures
        forall|i: int|
            0 <= i < handles.len() ==> after.hosts((#[trigger] handles[i]).slot(), handles[i].task()),
{
    assert forall|i: int| 0 <= i < handles.len() implies after.hosts(
        (#[trigger] handles[i]).slot(),
        handles[i].task(),
    ) by {
        assert(before.hosts(handles[i].slot(), handles[i].task()));
        assert(before@[handles[i].slot()].state.precedes(after@[handles[i].slot()].state));
    }
}

/// Lists that belong to a runtime still do when a task is spawned onto the
/// runtime and into both lists.
pub proof fn lemma_lists_belong_spawned<T>(
    before: &Runtime<T>,
    after: &Runtime<T>,
    waiting: Seq<JoinHandle<T>>,
    cancel_list: Seq<JoinHandle<T>>,
    handle: JoinHandle<T>,
)
    requires
        lists_belong(before, waiting, cancel_list),
        after@ == before@.push(TaskView::<T>::fresh(handle.task())),
        handle.slot() == before@.len(),
    ensures
        lists_belong(after, waiting.push(handle), cancel_list.push(handle)),
{
    let grown = waiting.push(handle);
    let listed = cancel_list.push(handle);
    assert(listed[cancel_list.len() as int].slot() == handle.slot());
    assert forall|i: int| 0 <= i < grown.len() implies {
        &&& after.hosts((#[trigger] grown[i]).slot(), grown[i].task())
        &&& is_running(after@, grown[i]) ==> lists(listed, grown[i].slot())
        &&& after@[grown[i].slot()].holds_its_value()
    } by {
        if i < waiting.len() {
            let slot = waiting[i].slot();
            assert(before.hosts(slot, waiting[i].task()));
            assert(before@[slot].holds_its_value());
            if is_running(before@, waiting[i]) {
                assert(lists(cancel_list, slot));
                let j = choose|j: int|
                    0 <= j < cancel_list.len() && #[trigger] cancel_list[j].slot() == slot;
                assert(listed[j].slot() == slot);
            }
        }
    }
    assert forall|i: int| 0 <= i < listed.len() implies after.hosts(
        (#[trigger] listed[i]).slot(),
        listed[i].task(),
    ) by {
        if i < cancel_list.len() {
            assert(before.hosts(cancel_list[i].slot(), cancel_list[i].task()));
        }
    }
    assert forall|i: int, j: int| 0 <= i < j < grown.len() implies (#[trigger] grown[i]).slot() != (
    #[trigger] grown[j]).slot() by {
        assert(before.hosts(waiting[i].slot(), waiting[i].task()));
    }
}

/// Lists that belong to a runtime still do when one handle stops waiting.
pub proof fn lemma_lists_belong_without<T>(
    rt: &Runtime<T>,
    waiting: Seq<JoinHandle<T>>,
    cancel_list: Seq<JoinHandle<T>>,
    k: int,
)
    requires
        lists_belong(rt, waiting, cancel_list),
        0 <= k < waiting.len(),
    ensures
        lists_belong(rt, waiting.remove(k), cancel_list),
{
    let left = waiting.remove(k);
    assert forall|i: int| 0 <= i < left.len() implies {
        &&& rt.hosts((#[trigger] left[i]).slot(), left[i].task())
        &&& is_running(rt@, left[i]) ==> lists(cancel_list, left[i].slot())
        &&& rt@[left[i].slot()].holds_its_value()
    } by {
        let from = if i < k { i } else { i + 1 };
        assert(left[i] == waiting[from]);
    }
    assert forall|i: int, j: int| 0 <= i < j < left.len() implies (#[trigger] left[i]).slot() != (
    #[trigger] left[j]).slot() by {
        let from_i = if i < k { i } else { i + 1 };
        let from_j = if j < k { j } else { j + 1 };
        assert(left[i] == waiting[from_i]);
        assert(left[j] == waiting[from_j]);
    }
}

/// Lists that belong to a runtime still do when the tasks that are cancelled
/// or completed leave the cancel list.
pub proof fn lemma_lists_belong_pruned<T>(
    rt: &Runtime<T>,
    waiting: Seq<JoinHandle<T>>,
    cancel_list: Seq<JoinHandle<T>>,
)
    requires
        lists_belong(rt, waiting, cancel_list),
    ensures
        lists_belong(rt, waiting, running(rt@, cancel_list)),
{
    let test = is_running_in(rt@);
    let kept = running(rt@, cancel_list);
    assert forall|i: int| 0 <= i < kept.len() implies rt.hosts(
        (#[trigger] kept[i]).slot(),
        kept[i].task(),
    ) by {
        assert(kept.contains(kept[i]));
        cancel_list.lemma_filter_contains_rev(test, kept[i]);
        let j = choose|j: int| 0 <= j < cancel_list.len() && cancel_list[j] == kept[i];
        assert(rt.hosts(cancel_list[j].slot(), cancel_list[j].task()));
    }
    assert forall|i: int| 0 <= i < waiting.len() && is_running(rt@, #[trigger] waiting[i]) implies lists(
        kept,
        waiting[i].slot(),
    ) by {
        let slot = waiting[i].slot();
        assert(lists(cancel_list, slot));
        let j = choose|j: int| 0 <= j < cancel_list.len() && #[trigger] cancel_list[j].slot() == slot;
        assert(test(cancel_list[j]));
        cancel_list.lemma_filter_contains(test, j);
        let m = choose|m: int| 0 <= m < kept.len() && kept[m] == cancel_list[j];
        assert(kept[m].slot() == slot);
    }
}

/// One pass over the waiting list leaves the lists belonging to the runtime:
/// the handle that resolved has left, the others were at most registered,
/// and the cancel list was pruned.
pub proof fn lemma_lists_belong_after_pass<T>(
    before: &Runtime<T>,
    after: &Runtime<T>,
    waiting: Seq<JoinHandle<T>>,
    cancel_list: Seq<JoinHandle<T>>,
)
    requires
        lists_belong(before, waiting, cancel_list),
        after@ == join_each(before@, polled(before@, waiting)),
    ensures
        lists_belong(after, next_waiting(before@, waiting), running(after@, cancel_list)),
{
    let k = first_ready(before@, waiting);
    let left = next_waiting(before@, waiting);
    let seen = polled(before@, waiting);
    lemma_first_ready_is_first(before@, waiting);
    lemma_join_each_precedes(before@, seen);
    if k < waiting.len() {
        lemma_lists_belong_without(before, waiting, cancel_list, k);
    }
    assert forall|i: int| 0 <= i < left.len() implies before@[(#[trigger] left[i]).slot()].keeps_value(
        after@[left[i].slot()],
    ) by {
        let from = if k < waiting.len() && i >= k { i + 1 } else { i };
        assert(left[i] == waiting[from]);
        let slot = left[i].slot();
        assert(before.hosts(waiting[from].slot(), waiting[from].task()));
        if lists(seen, slot) {
            let w = choose|w: int| 0 <= w < seen.len() && #[trigger] seen[w].slot() == slot;
            assert(seen[w] == waiting[w]);
            assert(w == from);
            assert(!before@[waiting[w].slot()].join_ready());
        }
    }
    lemma_lists_belong_later(before, after, left, cancel_list);
    lemma_lists_belong_pruned(after, left, cancel_list);
}

/// The position that `first_cancelled` gives is such a position: nothing
/// before it is cancelled, and a cancelled task stands at it if it is a
/// position of `handles`.
pub proof fn lemma_first_cancelled_is_first<T>(
    tasks: Seq<TaskView<T>>,
    handles: Seq<JoinHandle<T>>,
)
    ensures
        0 <= first_cancelled(tasks, handles) <= handles.len(),
        forall|i: int|
            0 <= i < first_cancelled(tasks, handles) ==> !tasks[(
            #[trigger] handles[i]).slot()].state.cancelled,
        first_cancelled(tasks, handles) < handles.len() ==> tasks[handles[first_cancelled(
            tasks,
            handles,
        )].slot()].state.cancelled,
    decreases handles.len(),
{
    if handles.len() == 0 {
    } else if tasks[handles[0].slot()].state.cancelled {
    } else {
        let rest = handles.skip(1);
        lemma_first_cancelled_is_first(tasks, rest);
        let c = first_cancelled(tasks, rest);
        assert forall|i: int| 0 <= i < c + 1 implies !tasks[(
        #[trigger] handles[i]).slot()].state.cancelled by {
            if i > 0 {
                assert(rest[i - 1] == handles[i]);
            }
        }
        if c < rest.len() {
            assert(rest[c] == handles[c + 1]);
        }
    }
}

} // verus!
