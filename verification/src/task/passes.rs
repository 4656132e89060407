//! How repeated passes over a waiting list add up.
//!
//! A pass polls the waiting handles in order up to the first that resolves,
//! and takes that one off the list. Whether a task is ready is not changed by
//! polling another task, so a run of passes works its way through the list
//! as it stood at the start: after each pass there is a frontier `p` such
//! that the handles before it were each polled once, those of them that did
//! not resolve still wait, and the handles from `p` on were not touched.

use super::handle::JoinHandle;
use super::poll::Poll;
use super::runtime::{tasks_precede, TaskView};
use super::set_model::{
    delivered, first_cancelled, first_ready, is_running, is_running_in, is_unresolved_in, join_each,
    lemma_first_cancelled_is_first, lemma_first_ready, lemma_first_ready_is_first, lists,
    next_outcome, next_waiting, polled, running, unresolved, without_id,
};
use vstd::prelude::*;

verus! {

/// Every handle has its record in `tasks`, and no two name the same record.
pub open spec fn distinct_records<T>(tasks: Seq<TaskView<T>>, handles: Seq<JoinHandle<T>>) -> bool {
    &&& forall|i: int|
        0 <= i < handles.len() ==> 0 <= (#[trigger] handles[i]).slot() < tasks.len()
    &&& forall|i: int, j: int|
        0 <= i < j < handles.len() ==> (#[trigger] handles[i]).slot() != (
        #[trigger] handles[j]).slot()
}

/// Reaching a later state is transitive.
pub proof fn lemma_tasks_precede_transitive<T>(
    first: Seq<TaskView<T>>,
    second: Seq<TaskView<T>>,
    third: Seq<TaskView<T>>,
)
    requires
        tasks_precede(first, second),
        tasks_precede(second, third),
    ensures
        tasks_precede(first, third),
{
    assert forall|slot: int| 0 <= slot < first.len() implies (#[trigger] first[slot]).state.precedes(
        third[slot].state,
    ) by {
        assert(first[slot].state.precedes(second[slot].state));
        assert(second[slot].state.precedes(third[slot].state));
    }
}

/// A filter that every element passes keeps the sequence as it is.
pub proof fn lemma_filter_all<A>(s: Seq<A>, pred: spec_fn(A) -> bool)
    requires
        forall|i: int| 0 <= i < s.len() ==> pred(#[trigger] s[i]),
    ensures
        s.filter(pred) == s,
    decreases s.len(),
{
    reveal(Seq::filter);
    if s.len() > 0 {
        lemma_filter_all(s.drop_last(), pred);
        assert(s.drop_last().push(s.last()) =~= s);
    }
}

/// A filter that no element passes leaves nothing.
pub proof fn lemma_filter_none<A>(s: Seq<A>, pred: spec_fn(A) -> bool)
    requires
        forall|i: int| 0 <= i < s.len() ==> !pred(#[trigger] s[i]),
    ensures
        s.filter(pred) == Seq::<A>::empty(),
    decreases s.len(),
{
    reveal(Seq::filter);
    if s.len() > 0 {
        lemma_filter_none(s.drop_last(), pred);
    }
}

/// Two tests that agree on every element filter alike.
pub proof fn lemma_filter_same<A>(s: Seq<A>, first: spec_fn(A) -> bool, second: spec_fn(A) -> bool)
    requires
        forall|i: int| 0 <= i < s.len() ==> first(#[trigger] s[i]) == second(s[i]),
    ensures
        s.filter(first) == s.filter(second),
    decreases s.len(),
{
    reveal(Seq::filter);
    if s.len() > 0 {
        lemma_filter_same(s.drop_last(), first, second);
    }
}

/// Pruning a cancel list a second time, when no task on it changed between
/// running and finished, gives what pruning it once gives.
pub proof fn lemma_running_again<T>(
    earlier: Seq<TaskView<T>>,
    later: Seq<TaskView<T>>,
    handles: Seq<JoinHandle<T>>,
)
    requires
        forall|i: int|
            0 <= i < handles.len() ==> is_running(earlier, #[trigger] handles[i]) == is_running(
                later,
                handles[i],
            ),
    ensures
        running(later, handles) == running(earlier, handles),
        running(later, running(earlier, handles)) == running(later, handles),
{
    let kept = running(earlier, handles);
    lemma_filter_same(handles, is_running_in(earlier), is_running_in(later));
    assert forall|i: int| 0 <= i < kept.len() implies is_running_in(later)(#[trigger] kept[i]) by {
        handles.lemma_filter_pred(is_running_in(earlier), i);
        assert(kept.contains(kept[i]));
        handles.lemma_filter_contains_rev(is_running_in(earlier), kept[i]);
        let j = choose|j: int| 0 <= j < handles.len() && handles[j] == kept[i];
        assert(is_running(earlier, handles[j]));
    }
    lemma_filter_all(kept, is_running_in(later));
}

/// `first_cancelled` is the one position before which nothing is cancelled
/// and at which, if it is a position of `handles`, a cancelled task stands.
pub proof fn lemma_first_cancelled<T>(tasks: Seq<TaskView<T>>, handles: Seq<JoinHandle<T>>, c: int)
    requires
        0 <= c <= handles.len(),
        forall|i: int| 0 <= i < c ==> !tasks[(#[trigger] handles[i]).slot()].state.cancelled,
        c < handles.len() ==> tasks[handles[c].slot()].state.cancelled,
    ensures
        first_cancelled(tasks, handles) == c,
    decreases handles.len(),
{
    if handles.len() == 0 {
    } else if c == 0 {
    } else {
        assert(!tasks[handles[0].slot()].state.cancelled);
        let rest = handles.skip(1);
        assert forall|i: int| 0 <= i < c - 1 implies !tasks[(#[trigger] rest[i]).slot()].state.cancelled by {
            assert(rest[i] == handles[i + 1]);
        }
        lemma_first_cancelled(tasks, rest, c - 1);
    }
}

/// Handles whose tasks hold no value add nothing to what is delivered.
pub proof fn lemma_delivered_skips_empty<T>(
    tasks: Seq<TaskView<T>>,
    handles: Seq<JoinHandle<T>>,
    p: int,
    n: int,
)
    requires
        0 <= p <= n <= handles.len(),
        forall|i: int| p <= i < n ==> tasks[(#[trigger] handles[i]).slot()].result is None,
    ensures
        delivered(tasks, handles.take(n)) == delivered(tasks, handles.take(p)),
    decreases n - p,
{
    if p < n {
        lemma_delivered_skips_empty(tasks, handles, p, n - 1);
        assert(handles.take(n).drop_last() =~= handles.take(n - 1));
        assert(handles.take(n).last() == handles[n - 1]);
    }
}

/// A handle whose task holds a value adds that value to what is delivered.
pub proof fn lemma_delivered_adds<T>(
    tasks: Seq<TaskView<T>>,
    handles: Seq<JoinHandle<T>>,
    n: int,
    value: T,
)
    requires
        0 <= n < handles.len(),
        tasks[handles[n].slot()].result == Some(value),
    ensures
        delivered(tasks, handles.take(n + 1)) == delivered(tasks, handles.take(n)).push(value),
{
    assert(handles.take(n + 1).drop_last() =~= handles.take(n));
    assert(handles.take(n + 1).last() == handles[n]);
}

/// Each handle that `unresolved` keeps is one of `handles`, and its task is
/// not ready.
pub proof fn lemma_unresolved_member<T>(
    tasks: Seq<TaskView<T>>,
    handles: Seq<JoinHandle<T>>,
    i: int,
) -> (j: int)
    requires
        0 <= i < unresolved(tasks, handles).len(),
    ensures
        0 <= j < handles.len(),
        handles[j] == unresolved(tasks, handles)[i],
        !tasks[handles[j].slot()].join_ready(),
{
    let pred = is_unresolved_in(tasks);
    let kept = handles.filter(pred);
    handles.lemma_filter_pred(pred, i);
    assert(kept.contains(kept[i]));
    handles.lemma_filter_contains_rev(pred, kept[i]);
    choose|j: int| 0 <= j < handles.len() && handles[j] == kept[i]
}

/// A handle at or after position `p` names a record that none of the first
/// `p` handles names.
pub proof fn lemma_not_listed_before<T>(
    tasks: Seq<TaskView<T>>,
    handles: Seq<JoinHandle<T>>,
    p: int,
    j: int,
)
    requires
        distinct_records(tasks, handles),
        0 <= p <= j < handles.len(),
    ensures
        !lists(handles.take(p), handles[j].slot()),
{
    let head = handles.take(p);
    if lists(head, handles[j].slot()) {
        let w = choose|w: int|
            0 <= w < head.len() && #[trigger] head[w].slot() == handles[j].slot();
        assert(handles[w].slot() == handles[j].slot());
    }
}

/// Once the first `p` handles were polled, a poll of those of them that did
/// not resolve and of the handles from `p` up to `n` leaves the records as
/// one poll of each of the first `n` handles does.
pub proof fn lemma_join_each_frontier<T>(
    tasks: Seq<TaskView<T>>,
    handles: Seq<JoinHandle<T>>,
    p: int,
    n: int,
)
    requires
        distinct_records(tasks, handles),
        0 <= p <= n <= handles.len(),
    ensures
        join_each(
            join_each(tasks, handles.take(p)),
            unresolved(tasks, handles.take(p)) + handles.subrange(p, n),
        ) == join_each(tasks, handles.take(n)),
{
    let head = handles.take(p);
    let kept = unresolved(tasks, head);
    let fresh = handles.subrange(p, n);
    let again = kept + fresh;
    let upto = handles.take(n);
    let before = join_each(tasks, head);
    let after = join_each(before, again);
    assert forall|s: int| 0 <= s < tasks.len() implies after[s] == join_each(tasks, upto)[s] by {
        if lists(again, s) {
            let w = choose|w: int| 0 <= w < again.len() && #[trigger] again[w].slot() == s;
            if w < kept.len() {
                let j = lemma_unresolved_member(tasks, head, w);
                assert(head[j].slot() == s);
                assert(upto[j].slot() == s);
                assert(lists(head, s));
                assert(lists(upto, s));
            } else {
                let j = p + w - kept.len();
                assert(again[w] == handles[j]);
                lemma_not_listed_before(tasks, handles, p, j);
                assert(upto[j].slot() == s);
                assert(lists(upto, s));
            }
        } else if lists(upto, s) {
            let j = choose|j: int| 0 <= j < upto.len() && #[trigger] upto[j].slot() == s;
            if j >= p {
                assert(again[kept.len() + j - p] == handles[j]);
                assert(again[kept.len() + j - p].slot() == s);
            }
            assert(head[j].slot() == s);
            assert(lists(head, s));
        } else {
            if lists(head, s) {
                let j = choose|j: int| 0 <= j < head.len() && #[trigger] head[j].slot() == s;
                assert(upto[j].slot() == s);
            }
        }
    }
    assert(after =~= join_each(tasks, upto));
}

/// One pass, seen from the list as it stood at the start of a run of passes.
///
/// With frontier `p`, the pass resolves the first ready handle at or after
/// `p`, at position `q`, and moves the frontier to `q + 1`; if there is
/// none, it polls everything and moves the frontier to the end.
pub proof fn lemma_pass<T>(tasks: Seq<TaskView<T>>, handles: Seq<JoinHandle<T>>, p: int)
    requires
        distinct_records(tasks, handles),
        0 <= p <= handles.len(),
    ensures
        ({
            let now = join_each(tasks, handles.take(p));
            let waiting = unresolved(tasks, handles.take(p)) + handles.skip(p);
            let q = p + first_ready(tasks, handles.skip(p));
            let k = first_ready(now, waiting);
            &&& p <= q <= handles.len()
            &&& k == unresolved(tasks, handles.take(p)).len() + (q - p)
            &&& forall|i: int| p <= i < q ==> !tasks[(#[trigger] handles[i]).slot()].join_ready()
            &&& q < handles.len() ==> {
                &&& k < waiting.len()
                &&& waiting[k] == handles[q]
                &&& tasks[handles[q].slot()].join_ready()
                &&& now[handles[q].slot()] == tasks[handles[q].slot()]
                &&& join_each(now, polled(now, waiting)) == join_each(tasks, handles.take(q + 1))
                &&& next_waiting(now, waiting) == unresolved(tasks, handles.take(q + 1))
                    + handles.skip(q + 1)
            }
            &&& q == handles.len() ==> {
                &&& k == waiting.len()
                &&& join_each(now, polled(now, waiting)) == join_each(tasks, handles)
                &&& next_waiting(now, waiting) == unresolved(tasks, handles)
                &&& waiting == unresolved(tasks, handles)
            }
        }),
{
    let head = handles.take(p);
    let tail = handles.skip(p);
    let kept = unresolved(tasks, head);
    let now = join_each(tasks, head);
    let waiting = kept + tail;
    let pred = is_unresolved_in(tasks);
    lemma_first_ready_is_first(tasks, tail);
    let d = first_ready(tasks, tail);
    let q = p + d;
    let k = kept.len() + d;
    assert forall|i: int| p <= i < q implies !tasks[(#[trigger] handles[i]).slot()].join_ready() by {
        assert(tail[i - p] == handles[i]);
    }
    assert forall|i: int| 0 <= i < k implies !now[(#[trigger] waiting[i]).slot()].join_ready() by {
        if i < kept.len() {
            let j = lemma_unresolved_member(tasks, head, i);
            assert(head[j].slot() == waiting[i].slot());
            assert(lists(head, waiting[i].slot()));
        } else {
            let j = p + i - kept.len();
            assert(waiting[i] == tail[i - kept.len()]);
            assert(tail[i - kept.len()] == handles[j]);
            lemma_not_listed_before(tasks, handles, p, j);
        }
    }
    if q < handles.len() {
        assert(waiting[k] == tail[d]);
        assert(tail[d] == handles[q]);
        lemma_not_listed_before(tasks, handles, p, q);
        lemma_first_ready(now, waiting, k);
        assert(polled(now, waiting) =~= kept + handles.subrange(p, q + 1));
        lemma_join_each_frontier(tasks, handles, p, q + 1);
        // The list after the pass.
        let upto = handles.take(q + 1);
        let between = handles.subrange(p, q);
        let found = seq![handles[q]];
        assert(upto =~= (head + between) + found);
        Seq::filter_distributes_over_add(head + between, found, pred);
        Seq::filter_distributes_over_add(head, between, pred);
        assert forall|i: int| 0 <= i < between.len() implies pred(#[trigger] between[i]) by {
            assert(between[i] == handles[p + i]);
        }
        lemma_filter_all(between, pred);
        lemma_filter_none(found, pred);
        assert(unresolved(tasks, upto) =~= kept + between);
        assert(waiting.remove(k) =~= (kept + between) + handles.skip(q + 1));
    } else {
        lemma_first_ready(now, waiting, k);
        assert(tail =~= handles.subrange(p, handles.len() as int));
        assert(polled(now, waiting) =~= kept + handles.subrange(p, handles.len() as int));
        lemma_join_each_frontier(tasks, handles, p, handles.len() as int);
        assert(handles.take(handles.len() as int) =~= handles);
        assert(handles =~= head + tail);
        Seq::filter_distributes_over_add(head, tail, pred);
        assert forall|i: int| 0 <= i < tail.len() implies pred(#[trigger] tail[i]) by {
            assert(tail[i] == handles[p + i]);
        }
        lemma_filter_all(tail, pred);
    }
}

/// One more pass prunes the cancel list to what pruning the list of the
/// start by the records after the pass gives, whether or not it was pruned
/// before.
pub proof fn lemma_pruned_again<T>(
    before: Seq<TaskView<T>>,
    polled_now: Seq<JoinHandle<T>>,
    listed: Seq<JoinHandle<T>>,
    current: Seq<JoinHandle<T>>,
)
    requires
        forall|i: int| 0 <= i < listed.len() ==> 0 <= (#[trigger] listed[i]).slot() < before.len(),
        current == listed || current == running(before, listed),
    ensures
        running(join_each(before, polled_now), current) == running(
            join_each(before, polled_now),
            listed,
        ),
{
    let after = join_each(before, polled_now);
    assert forall|i: int| 0 <= i < listed.len() implies is_running(before, #[trigger] listed[i])
        == is_running(after, listed[i]) by {
        let s = listed[i].slot();
        assert(after[s].state.is_complete() == before[s].state.is_complete());
    }
    lemma_running_again(before, after, listed);
}

/// One pass of `join_all`, seen from the list as it stood when the poll
/// began, with frontier `p`, when no task of the list is cancelled.
pub proof fn lemma_collecting_pass<T>(tasks: Seq<TaskView<T>>, handles: Seq<JoinHandle<T>>, p: int)
    requires
        distinct_records(tasks, handles),
        0 <= p <= handles.len(),
        first_cancelled(tasks, handles) == handles.len(),
    ensures
        ({
            let now = join_each(tasks, handles.take(p));
            let waiting = unresolved(tasks, handles.take(p)) + handles.skip(p);
            let q = p + first_ready(tasks, handles.skip(p));
            let after = join_each(now, polled(now, waiting));
            let left = next_waiting(now, waiting);
            &&& p <= q <= handles.len()
            &&& match without_id(next_outcome(now, waiting)) {
                Poll::Ready(Some(Ok(value))) => {
                    &&& q < handles.len()
                    &&& delivered(tasks, handles.take(q + 1)) == delivered(
                        tasks,
                        handles.take(p),
                    ).push(value)
                    &&& after == join_each(tasks, handles.take(q + 1))
                    &&& left == unresolved(tasks, handles.take(q + 1)) + handles.skip(q + 1)
                },
                Poll::Ready(Some(Err(_))) => false,
                Poll::Ready(None) => {
                    &&& delivered(tasks, handles) == delivered(tasks, handles.take(p))
                    &&& after == join_each(tasks, handles)
                    &&& left == unresolved(tasks, handles)
                    &&& left.len() == 0
                },
                Poll::Pending => {
                    &&& delivered(tasks, handles) == delivered(tasks, handles.take(p))
                    &&& after == join_each(tasks, handles)
                    &&& left == unresolved(tasks, handles)
                    &&& left.len() != 0
                },
            }
        }),
{
    let q = p + first_ready(tasks, handles.skip(p));
    let len = handles.len() as int;
    lemma_pass(tasks, handles, p);
    lemma_first_cancelled_is_first(tasks, handles);
    assert forall|i: int| p <= i < q implies tasks[(#[trigger] handles[i]).slot()].result is None by {
        assert(!tasks[handles[i].slot()].join_ready());
    }
    lemma_delivered_skips_empty(tasks, handles, p, q);
    if q < len {
        let found = tasks[handles[q].slot()];
        assert(!found.state.cancelled);
        lemma_delivered_adds(tasks, handles, q, found.result->0);
    } else {
        assert(handles.take(len) =~= handles);
    }
}

} // verus!
