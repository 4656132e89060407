//! What holds of every task, whatever the order in which its handles and its
//! driver act on it.

use super::error::JoinError;
use super::handle::{with_id, JoinHandle};
use super::id::{nth_task_id, Id};
use super::passes::{distinct_records, lemma_not_listed_before};
use super::poll::Poll;
use super::runtime::{tasks_precede, Runtime, TaskView};
use super::set_model::{
    first_ready, join_each, lemma_first_ready_is_first, lists, next_outcome, next_waiting, polled,
};
use super::state::StateView;
use vstd::prelude::*;

verus! {

/// Identifiers drawn from one counter are strictly increasing in the order
/// in which they are drawn, and so pairwise distinct.
pub proof fn lemma_task_ids_increase(counter: u64, earlier: nat, later: nat)
    requires
        earlier < later,
    ensures
        nth_task_id(counter, earlier) < nth_task_id(counter, later),
        nth_task_id(counter, earlier) != nth_task_id(counter, later),
        counter < nth_task_id(counter, earlier),
{
}

/// Drawing from a counter that already gave one identifier continues the
/// sequence of the counter as it stood before: the `k`-th draw after the
/// first is the `k + 1`-th draw overall.
pub proof fn lemma_task_ids_continue(counter: u64, k: nat)
    requires
        counter < u64::MAX,
    ensures
        nth_task_id(nth_task_id(counter, 0) as u64, k) == nth_task_id(counter, k + 1),
{
}

/// Two handles whose tasks were given different counter values name
/// different tasks.
pub proof fn lemma_distinct_values_distinct_ids(a: Id, b: Id)
    requires
        a@ != b@,
    ensures
        a != b,
{
}

/// The flags of a task only ever go from `false` to `true`, and its identity
/// stays: every step that a handle or the driver can take leads to a state
/// that the state before it precedes.
pub proof fn lemma_steps_are_monotonic<T>(task: TaskView<T>, work: Poll<T>)
    ensures
        task.state.precedes(task.cancel().state),
        task.state.precedes(task.after_join().state),
        task.state.precedes(task.after_drive(work).state),
        task.state.precedes(task.state.complete()),
        task.state.precedes(task.state.wake()),
        task.state.precedes(task.state.register_handler()),
        task.state.precedes(task.state.register_spawn_fn()),
{
}

/// A handle keeps naming its task: whatever is done to a runtime, a record
/// that it holds stays at its place and keeps its identity.
pub proof fn lemma_hosts_is_stable<T>(before: &Runtime<T>, after: &Runtime<T>, slot: int, id: Id)
    requires
        before.hosts(slot, id),
        tasks_precede(before@, after@),
    ensures
        after.hosts(slot, id),
{
    assert(before@[slot].state.precedes(after@[slot].state));
}

/// Cancelling is idempotent: a second request changes nothing.
pub proof fn lemma_cancel_is_idempotent(state: StateView)
    ensures
        state.cancel().cancelled,
        state.cancel().cancel() == state.cancel(),
{
}

/// A task that is aborted before its unit of work completed resolves to the
/// cancellation error that carries its identity. That stays so whatever the
/// unit of work gives when the driver is polled after the abort: the driver
/// finishes without storing anything.
pub proof fn lemma_abort_before_completion<T>(task: TaskView<T>, work: Poll<T>)
    requires
        !task.state.completed,
    ensures
        task.cancel().join_outcome() == Poll::<Result<T, JoinError>>::Ready(
            Err(JoinError::cancelled(task.state.id)),
        ),
        task.cancel().drive_outcome(work) == Poll::Ready(()),
        task.cancel().after_drive(work).result == task.result,
        task.cancel().after_drive(work).join_outcome() == task.cancel().join_outcome(),
{
}

/// Cancellation takes precedence over a value: a task that is aborted after
/// its unit of work completed, and before a handle took the value out, still
/// resolves to the cancellation error. The value stays in its slot, where no
/// poll of the handle reaches it any more.
pub proof fn lemma_cancellation_takes_precedence<T>(task: TaskView<T>, value: T)
    requires
        task.state.completed,
        task.result == Some(value),
    ensures
        task.cancel().join_outcome() == Poll::<Result<T, JoinError>>::Ready(
            Err(JoinError::cancelled(task.state.id)),
        ),
        task.cancel().after_join() == task.cancel(),
        task.cancel().result == Some(value),
{
}

/// Without cancellation a stored value is delivered once: the poll that
/// returns it empties the slot, and the next poll is pending.
pub proof fn lemma_value_is_delivered_once<T>(task: TaskView<T>, value: T)
    requires
        !task.state.cancelled,
        task.result == Some(value),
    ensures
        task.join_outcome() == Poll::<Result<T, JoinError>>::Ready(Ok(value)),
        task.after_join().join_outcome() == Poll::<Result<T, JoinError>>::Pending,
{
}

/// The finished-check of an abort handle is false right after an abort of a
/// task whose unit of work had not completed, and a poll of a join handle
/// does not change that. It turns true with the next poll of the driver,
/// which sees the flag and marks the task completed, whatever the unit of
/// work would have given.
pub proof fn lemma_abort_handle_finished_after_drive<T>(task: TaskView<T>, work: Poll<T>)
    requires
        !task.state.completed,
    ensures
        !task.cancel().state.is_aborted_and_complete(),
        !task.cancel().after_join().state.is_aborted_and_complete(),
        task.cancel().after_drive(work).state.is_aborted_and_complete(),
        task.cancel().after_stop().state.is_aborted_and_complete(),
{
}

/// The finished-check of an abort handle is the stricter one: whenever it
/// holds, the finished-check of the join handle holds too.
pub proof fn lemma_abort_finished_is_stricter(state: StateView)
    ensures
        state.is_aborted_and_complete() ==> state.is_complete(),
{
}

/// The `completed` flag is written by the driver alone: no step of a handle
/// changes it. So the finished-check of an abort handle can turn true only
/// through a poll of the driver, or through the abort of a task that its
/// driver had completed before.
pub proof fn lemma_only_the_driver_completes<T>(task: TaskView<T>)
    ensures
        task.cancel().state.completed == task.state.completed,
        task.after_join().state.completed == task.state.completed,
        task.cancel().state.is_aborted_and_complete() ==> task.state.completed,
        task.after_join().state.is_aborted_and_complete() ==> task.state.completed,
{
}

/// The result slot is written once at most, and never for a cancelled task:
/// a poll of the driver stores a value only in the record of a task that is
/// neither cancelled nor completed, and a second poll leaves a finished
/// record as the first one left it.
pub proof fn lemma_slot_is_written_once<T>(task: TaskView<T>, work: Poll<T>, again: Poll<T>)
    ensures
        !task.polls_work() ==> task.after_drive(work).result == task.result,
        task.after_drive(work).state.completed ==> task.after_drive(work).after_drive(again)
            == task.after_drive(work),
        task.state.cancelled ==> task.after_drive(work).after_drive(again) == task.after_drive(
            work,
        ),
{
}

/// Giving up a handle that aborts its task does what one abort does, and
/// nothing else.
///
/// The task at `slot` is cancelled and no other record changes. An abort
/// handle to the task sees the cancellation, the join handle resolves to
/// the cancellation error, and the driver's next poll stops without
/// storing a value. If the task was cancelled before, nothing changes at
/// all, so that no callback fires a second time.
pub proof fn lemma_drop_aborts_once<T>(tasks: Seq<TaskView<T>>, slot: int, work: Poll<T>)
    requires
        0 <= slot < tasks.len(),
    ensures
        ({
            let after = tasks.update(slot, tasks[slot].cancel());
            &&& after[slot].state.cancelled
            &&& after[slot].state.is_complete()
            &&& after[slot].state.id == tasks[slot].state.id
            &&& after[slot].result == tasks[slot].result
            &&& forall|other: int|
                0 <= other < tasks.len() && other != slot ==> after[other] == tasks[other]
            &&& after[slot].join_outcome() == Poll::<Result<T, JoinError>>::Ready(
                Err(JoinError::cancelled(tasks[slot].state.id)),
            )
            &&& after[slot].drive_outcome(work) == Poll::Ready(())
            &&& after[slot].after_drive(work).result == tasks[slot].result
            &&& !after[slot].state.waiting_on_result || tasks[slot].state.cancelled
            &&& !after[slot].state.waiting_on_drive || tasks[slot].state.cancelled
            &&& tasks[slot].state.cancelled ==> after == tasks
        }),
{
    let after = tasks.update(slot, tasks[slot].cancel());
    if tasks[slot].state.cancelled {
        assert(after =~= tasks);
    }
}

/// Joining the next task of a set gives `Ready(None)` exactly when no task
/// waits in the set.
pub proof fn lemma_join_next_none_iff_empty<T>(
    tasks: Seq<TaskView<T>>,
    waiting: Seq<JoinHandle<T>>,
)
    ensures
        next_outcome(tasks, waiting) == Poll::<Option<Result<(Id, T), JoinError>>>::Ready(None)
            <==> waiting.len() == 0,
{
    lemma_first_ready_is_first(tasks, waiting);
}

/// Joining the next task of a set hands out each outcome exactly once.
///
/// If a waiting task is ready, the first such task is the one whose outcome
/// is returned, and it leaves the set, so that no later poll returns it
/// again. Every other task stays in the set, and what its join handle will
/// resolve to is what it was before. If no waiting task is ready, nothing is
/// returned and nothing leaves the set.
pub proof fn lemma_join_next_yields_once<T>(tasks: Seq<TaskView<T>>, waiting: Seq<JoinHandle<T>>)
    requires
        distinct_records(tasks, waiting),
    ensures
        ({
            let k = first_ready(tasks, waiting);
            let after = join_each(tasks, polled(tasks, waiting));
            let left = next_waiting(tasks, waiting);
            &&& 0 <= k <= waiting.len()
            &&& k < waiting.len() ==> {
                &&& next_outcome(tasks, waiting) matches Poll::Ready(Some(outcome))
                &&& Poll::<Result<(Id, T), JoinError>>::Ready(outcome) == with_id(
                    waiting[k].task(),
                    tasks[waiting[k].slot()].join_outcome(),
                )
                &&& left.len() == waiting.len() - 1
                &&& !lists(left, waiting[k].slot())
            }
            &&& k == waiting.len() ==> {
                &&& !(next_outcome(tasks, waiting) matches Poll::Ready(Some(_)))
                &&& left == waiting
            }
            &&& forall|i: int|
                0 <= i < waiting.len() && i != k ==> {
                    &&& lists(left, (#[trigger] waiting[i]).slot())
                    &&& after[waiting[i].slot()].join_outcome()
                        == tasks[waiting[i].slot()].join_outcome()
                }
        }),
{
    let k = first_ready(tasks, waiting);
    let after = join_each(tasks, polled(tasks, waiting));
    let left = next_waiting(tasks, waiting);
    lemma_first_ready_is_first(tasks, waiting);
    if k < waiting.len() {
        if lists(left, waiting[k].slot()) {
            let w = choose|w: int|
                0 <= w < left.len() && #[trigger] left[w].slot() == waiting[k].slot();
            let from = if w < k { w } else { w + 1 };
            assert(left[w] == waiting[from]);
        }
    }
    assert forall|i: int| 0 <= i < waiting.len() && i != k implies {
        &&& lists(left, (#[trigger] waiting[i]).slot())
        &&& after[waiting[i].slot()].join_outcome() == tasks[waiting[i].slot()].join_outcome()
    } by {
        if k < waiting.len() {
            let to = if i < k { i } else { i - 1 };
            assert(left[to] == waiting[i]);
            if i > k {
                lemma_not_listed_before(tasks, waiting, k + 1, i);
            }
        } else {
            assert(left[i] == waiting[i]);
        }
    }
}

} // verus!
