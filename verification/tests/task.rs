use n0_future::task::{
    next_task_id, spawn, AbortOnDropHandle, JoinError, JoinSet, Poll, Runtime, State,
};
use std::sync::atomic::{AtomicUsize, Ordering};
use std::sync::Arc;
use std::task::{Wake, Waker};

struct WakeCount(AtomicUsize);

impl Wake for WakeCount {
    fn wake(self: Arc<Self>) {
        self.0.fetch_add(1, Ordering::SeqCst);
    }
}

fn counting_waker() -> (Arc<WakeCount>, Waker) {
    let count = Arc::new(WakeCount(AtomicUsize::new(0)));
    (count.clone(), Waker::from(count))
}

fn woken(count: &Arc<WakeCount>) -> usize {
    count.0.load(Ordering::SeqCst)
}

fn cancelled_id<T>(outcome: Poll<Result<T, JoinError>>) -> u64 {
    match outcome {
        Poll::Ready(Err(err)) => {
            assert!(err.is_cancelled());
            err.id().as_u64()
        }
        _ => panic!("expected a cancellation"),
    }
}

#[test]
fn task_abort() {
    let mut rt: Runtime<()> = Runtime::new();
    let mut counter: u64 = 0;
    let waker = Waker::noop();

    let (h1, _d1) = spawn(&mut rt, &mut counter);
    let (h2, d2) = spawn(&mut rt, &mut counter);
    assert!(h1.id() != h2.id());

    assert_eq!(d2.poll(&mut rt, || Poll::Ready(()), waker), Poll::Ready(()));
    assert!(matches!(h2.poll(&mut rt, waker), Poll::Ready(Ok(()))));
    h1.abort(&mut rt);
    match h1.poll(&mut rt, waker) {
        Poll::Ready(Err(err)) => assert!(err.is_cancelled()),
        _ => panic!(),
    }
}

#[test]
fn join_set_abort() {
    let mut rt: Runtime<u32> = Runtime::new();
    let mut counter: u64 = 0;
    let waker = Waker::noop();

    let mut set = JoinSet::new();
    let (h1, d1) = set.spawn(&mut rt, &mut counter);
    let (h2, d2) = set.spawn(&mut rt, &mut counter);
    assert!(h1.id() != h2.id());
    h2.abort(&mut rt);

    assert_eq!(d1.poll(&mut rt, || Poll::Ready(22), waker), Poll::Ready(()));
    assert_eq!(d2.poll(&mut rt, || Poll::Ready(22), waker), Poll::Ready(()));

    let mut has_err = false;
    let mut has_ok = false;
    while let Poll::Ready(Some(ret)) = set.join_next_with_id(&mut rt, waker) {
        match ret {
            Err(err) => {
                if !has_err {
                    assert!(err.is_cancelled());
                    assert_eq!(err.id(), h2.id());
                    has_err = true;
                } else {
                    panic!()
                }
            }
            Ok((id, out)) => {
                if !has_ok {
                    assert_eq!(id, h1.id());
                    assert_eq!(out, 22);
                    has_ok = true;
                } else {
                    panic!()
                }
            }
        }
    }
    assert!(has_err);
    assert!(has_ok);
    assert!(set.is_empty());
}

#[test]
fn next_task_id_counts_up_from_the_counter() {
    let mut counter: u64 = 0;
    assert_eq!(next_task_id(&mut counter), 1);
    assert_eq!(counter, 1);
    assert_eq!(next_task_id(&mut counter), 2);
    assert_eq!(next_task_id(&mut counter), 3);
    assert_eq!(counter, 3);

    let mut late: u64 = 41;
    assert_eq!(next_task_id(&mut late), 42);
    assert_eq!(late, 42);

    let mut last: u64 = u64::MAX - 1;
    assert_eq!(next_task_id(&mut last), u64::MAX);
}

#[test]
fn spawned_ids_are_distinct_and_increase_in_spawn_order() {
    let mut rt: Runtime<u8> = Runtime::new();
    let mut counter: u64 = 10;
    let mut ids = Vec::new();
    for _ in 0..20 {
        let (handle, driver) = spawn(&mut rt, &mut counter);
        assert_eq!(handle.id(), driver.id());
        ids.push(handle.id().as_u64());
    }
    assert_eq!(ids[0], 11);
    assert_eq!(ids[19], 30);
    for pair in ids.windows(2) {
        assert!(pair[0] < pair[1]);
    }
    assert_eq!(rt.len(), 20);
    assert_eq!(counter, 30);
}

#[test]
fn ids_increase_across_plain_spawns_and_join_sets() {
    let mut rt: Runtime<u8> = Runtime::new();
    let mut counter: u64 = 0;
    let mut set = JoinSet::new();
    let (h1, _) = spawn(&mut rt, &mut counter);
    let (a2, _) = set.spawn(&mut rt, &mut counter);
    let (h3, _) = spawn(&mut rt, &mut counter);
    assert_eq!(h1.id().as_u64(), 1);
    assert_eq!(a2.id().as_u64(), 2);
    assert_eq!(h3.id().as_u64(), 3);
}

#[test]
fn two_tasks_resolve_to_their_own_values() {
    let mut rt: Runtime<i32> = Runtime::new();
    let mut counter: u64 = 0;
    let waker = Waker::noop();
    let (h1, d1) = spawn(&mut rt, &mut counter);
    let (h2, d2) = spawn(&mut rt, &mut counter);

    // The second task completes first.
    assert_eq!(d2.poll(&mut rt, || Poll::Ready(2), waker), Poll::Ready(()));
    assert_eq!(h1.poll(&mut rt, waker), Poll::Pending);
    assert_eq!(d1.poll(&mut rt, || Poll::Ready(1), waker), Poll::Ready(()));

    assert_eq!(h1.poll(&mut rt, waker), Poll::Ready(Ok(1)));
    assert_eq!(h2.poll(&mut rt, waker), Poll::Ready(Ok(2)));
}

#[test]
fn abort_right_after_spawn_resolves_to_cancelled() {
    let mut rt: Runtime<i32> = Runtime::new();
    let mut counter: u64 = 6;
    let waker = Waker::noop();
    let (handle, _driver) = spawn(&mut rt, &mut counter);
    handle.abort(&mut rt);
    match handle.poll(&mut rt, waker) {
        Poll::Ready(Err(err)) => {
            assert!(err.is_cancelled());
            assert!(!err.is_panic());
            assert_eq!(err.id(), handle.id());
            assert_eq!(err.id().as_u64(), 7);
        }
        _ => panic!(),
    }
}

#[test]
fn abort_before_completion_discards_the_work() {
    let mut rt: Runtime<i32> = Runtime::new();
    let mut counter: u64 = 0;
    let waker = Waker::noop();
    let (handle, driver) = spawn(&mut rt, &mut counter);

    assert_eq!(driver.poll(&mut rt, || Poll::Pending, waker), Poll::Pending);
    handle.abort(&mut rt);

    // The driver sees the flag and finishes without polling the work.
    let mut polled = false;
    let outcome = driver.poll(
        &mut rt,
        || {
            polled = true;
            Poll::Ready(5)
        },
        waker,
    );
    assert_eq!(outcome, Poll::Ready(()));
    assert!(!polled);
    assert!(driver.is_cancelled(&rt));
    assert!(!driver.polls_work(&rt));
    // The driver has acted on the cancellation.
    assert!(handle.abort_handle().is_finished(&rt));

    assert_eq!(cancelled_id(handle.poll(&mut rt, waker)), handle.id().as_u64());
    // Still cancelled on every later poll.
    assert_eq!(cancelled_id(handle.poll(&mut rt, waker)), 1);
}

#[test]
fn resume_of_a_cancelled_task_stores_nothing() {
    let mut rt: Runtime<i32> = Runtime::new();
    let mut counter: u64 = 0;
    let waker = Waker::noop();
    let (handle, driver) = spawn(&mut rt, &mut counter);
    handle.abort(&mut rt);
    assert!(!handle.abort_handle().is_finished(&rt));
    assert_eq!(driver.resume(&mut rt, Poll::Ready(5), waker), Poll::Ready(()));
    assert!(handle.abort_handle().is_finished(&rt));
    assert_eq!(driver.resume(&mut rt, Poll::Pending, waker), Poll::Ready(()));
    assert!(handle.abort_handle().is_finished(&rt));
    assert_eq!(cancelled_id(handle.poll(&mut rt, waker)), 1);
}

#[test]
fn the_result_slot_is_written_once() {
    let mut rt: Runtime<i32> = Runtime::new();
    let mut counter: u64 = 0;
    let waker = Waker::noop();
    let (handle, driver) = spawn(&mut rt, &mut counter);
    assert!(driver.polls_work(&rt));
    assert_eq!(driver.resume(&mut rt, Poll::Ready(1), waker), Poll::Ready(()));
    assert!(!driver.polls_work(&rt));

    // A driver that is polled again finds the task completed: it does not
    // poll the work and leaves the stored value alone.
    assert_eq!(driver.resume(&mut rt, Poll::Ready(2), waker), Poll::Ready(()));
    let mut polled = false;
    let outcome = driver.poll(
        &mut rt,
        || {
            polled = true;
            Poll::Ready(3)
        },
        waker,
    );
    assert_eq!(outcome, Poll::Ready(()));
    assert!(!polled);
    assert_eq!(driver.resume(&mut rt, Poll::Pending, waker), Poll::Ready(()));
    assert_eq!(handle.poll(&mut rt, waker), Poll::Ready(Ok(1)));
    assert_eq!(handle.poll(&mut rt, waker), Poll::Pending);
}

#[test]
fn a_second_waker_replaces_the_first() {
    let mut rt: Runtime<i32> = Runtime::new();
    let mut counter: u64 = 0;
    let (first_count, first) = counting_waker();
    let (second_count, second) = counting_waker();
    let (drive_first_count, drive_first) = counting_waker();
    let (drive_second_count, drive_second) = counting_waker();

    // On the slots of a task record.
    let (handle, driver) = spawn(&mut rt, &mut counter);
    assert_eq!(handle.poll(&mut rt, &first), Poll::Pending);
    assert_eq!(handle.poll(&mut rt, &second), Poll::Pending);
    assert_eq!(driver.poll(&mut rt, || Poll::Pending, &drive_first), Poll::Pending);
    assert_eq!(driver.poll(&mut rt, || Poll::Pending, &drive_second), Poll::Pending);
    handle.abort(&mut rt);
    assert_eq!(woken(&first_count), 0);
    assert_eq!(woken(&second_count), 1);
    assert_eq!(woken(&drive_first_count), 0);
    assert_eq!(woken(&drive_second_count), 1);

    // And on a state of its own.
    let mut state = State::new(handle.id());
    state.register_handler(&first);
    state.register_handler(&second);
    state.register_spawn_fn(&drive_second);
    state.register_spawn_fn(&drive_first);
    state.complete();
    assert_eq!(woken(&first_count), 0);
    assert_eq!(woken(&second_count), 2);
    assert_eq!(woken(&drive_first_count), 1);
    assert_eq!(woken(&drive_second_count), 1);
}

#[test]
fn abort_after_completion_shadows_the_value() {
    let mut rt: Runtime<i32> = Runtime::new();
    let mut counter: u64 = 0;
    let waker = Waker::noop();
    let (handle, driver) = spawn(&mut rt, &mut counter);
    let abort = handle.abort_handle();

    assert_eq!(driver.poll(&mut rt, || Poll::Ready(99), waker), Poll::Ready(()));
    assert!(handle.is_finished(&rt));
    abort.abort(&mut rt);

    assert_eq!(cancelled_id(handle.poll(&mut rt, waker)), abort.id().as_u64());
    assert_eq!(cancelled_id(handle.poll(&mut rt, waker)), 1);
}

#[test]
fn value_consumed_before_abort_was_delivered() {
    let mut rt: Runtime<i32> = Runtime::new();
    let mut counter: u64 = 0;
    let waker = Waker::noop();
    let (handle, driver) = spawn(&mut rt, &mut counter);
    assert_eq!(driver.resume(&mut rt, Poll::Ready(99), waker), Poll::Ready(()));
    assert_eq!(handle.poll(&mut rt, waker), Poll::Ready(Ok(99)));
    // The value is gone: the next poll waits.
    assert_eq!(handle.poll(&mut rt, waker), Poll::Pending);
    handle.abort(&mut rt);
    assert_eq!(cancelled_id(handle.poll(&mut rt, waker)), 1);
}

#[test]
fn abort_handle_is_finished_needs_cancelled_and_completed() {
    let mut rt: Runtime<i32> = Runtime::new();
    let mut counter: u64 = 0;
    let waker = Waker::noop();

    // Aborted before completion: not finished until the driver's next poll
    // has acted on the cancellation.
    let (h1, d1) = spawn(&mut rt, &mut counter);
    let a1 = h1.abort_handle();
    assert!(!a1.is_finished(&rt));
    assert!(!h1.is_finished(&rt));
    a1.abort(&mut rt);
    assert!(!a1.is_finished(&rt));
    assert!(h1.is_finished(&rt));
    // Joining does not make it finished.
    assert_eq!(cancelled_id(h1.poll(&mut rt, waker)), 1);
    assert!(!a1.is_finished(&rt));
    assert_eq!(d1.poll(&mut rt, || Poll::Ready(1), waker), Poll::Ready(()));
    assert!(a1.is_finished(&rt));
    assert!(h1.is_finished(&rt));
    assert_eq!(cancelled_id(h1.poll(&mut rt, waker)), 1);

    // Completed, not aborted: finished for the join handle only.
    let (h2, d2) = spawn(&mut rt, &mut counter);
    let a2 = h2.abort_handle();
    assert_eq!(d2.poll(&mut rt, || Poll::Ready(2), waker), Poll::Ready(()));
    assert!(h2.is_finished(&rt));
    assert!(!a2.is_finished(&rt));

    // Completed and then aborted: finished for both.
    a2.abort(&mut rt);
    assert!(a2.is_finished(&rt));
    assert!(h2.is_finished(&rt));
    assert_eq!(a2.id(), h2.id());
}

#[test]
fn abort_is_idempotent_and_wakes_once() {
    let mut rt: Runtime<i32> = Runtime::new();
    let mut counter: u64 = 0;
    let (join_count, join_waker) = counting_waker();
    let (drive_count, drive_waker) = counting_waker();
    let (handle, driver) = spawn(&mut rt, &mut counter);

    assert_eq!(driver.poll(&mut rt, || Poll::Pending, &drive_waker), Poll::Pending);
    assert_eq!(handle.poll(&mut rt, &join_waker), Poll::Pending);
    assert_eq!(woken(&join_count), 0);
    assert_eq!(woken(&drive_count), 0);

    handle.abort(&mut rt);
    assert_eq!(woken(&join_count), 1);
    assert_eq!(woken(&drive_count), 1);

    handle.abort(&mut rt);
    handle.abort_handle().abort(&mut rt);
    assert_eq!(woken(&join_count), 1);
    assert_eq!(woken(&drive_count), 1);
}

#[test]
fn completion_wakes_the_waiting_handle() {
    let mut rt: Runtime<i32> = Runtime::new();
    let mut counter: u64 = 0;
    let (join_count, join_waker) = counting_waker();
    let (drive_count, drive_waker) = counting_waker();
    let (handle, driver) = spawn(&mut rt, &mut counter);

    assert_eq!(handle.poll(&mut rt, &join_waker), Poll::Pending);
    // Polling again replaces the registered callback, it does not add one.
    assert_eq!(handle.poll(&mut rt, &join_waker), Poll::Pending);
    assert_eq!(driver.poll(&mut rt, || Poll::Pending, &drive_waker), Poll::Pending);
    assert_eq!(driver.poll(&mut rt, || Poll::Ready(3), &drive_waker), Poll::Ready(()));
    assert_eq!(woken(&join_count), 1);
    assert_eq!(woken(&drive_count), 1);
    assert_eq!(handle.poll(&mut rt, &join_waker), Poll::Ready(Ok(3)));
    assert_eq!(woken(&join_count), 1);
}

#[test]
fn state_follows_the_cancellation_protocol() {
    let mut rt: Runtime<()> = Runtime::new();
    let mut counter: u64 = 4;
    let (handle, _driver) = spawn(&mut rt, &mut counter);
    let id = handle.id();

    let (handler_count, handler_waker) = counting_waker();
    let (spawn_count, spawn_waker) = counting_waker();
    let mut state = State::new(id);
    assert_eq!(state.id(), id);
    assert_eq!(state.id().as_u64(), 5);
    assert!(!state.is_cancelled());
    assert!(!state.is_completed());
    assert!(!state.is_complete());
    assert!(!state.has_handler_waker());
    assert!(!state.has_spawn_fn_waker());

    state.register_handler(&handler_waker);
    assert!(state.has_handler_waker());
    assert!(!state.has_spawn_fn_waker());
    state.register_spawn_fn(&spawn_waker);
    assert!(state.has_spawn_fn_waker());

    state.cancel();
    assert!(state.is_cancelled());
    assert!(!state.is_completed());
    assert!(state.is_complete());
    assert!(!state.has_handler_waker());
    assert!(!state.has_spawn_fn_waker());
    assert_eq!(woken(&handler_count), 1);
    assert_eq!(woken(&spawn_count), 1);

    // A callback registered after the cancellation stays until the next
    // transition; a repeated cancel is none.
    state.register_handler(&handler_waker);
    state.cancel();
    assert!(state.has_handler_waker());
    assert_eq!(woken(&handler_count), 1);

    state.complete();
    assert!(state.is_completed());
    assert!(state.is_cancelled());
    assert!(!state.has_handler_waker());
    assert_eq!(woken(&handler_count), 2);
    assert_eq!(woken(&spawn_count), 1);

    state.register_spawn_fn(&spawn_waker);
    state.wake();
    assert!(!state.has_spawn_fn_waker());
    assert_eq!(woken(&spawn_count), 2);
    state.wake();
    assert_eq!(woken(&spawn_count), 2);
    assert_eq!(woken(&handler_count), 2);
}

#[test]
fn join_error_reports_cancellation() {
    let mut rt: Runtime<()> = Runtime::new();
    let mut counter: u64 = 0;
    let waker = Waker::noop();
    let (handle, _driver) = spawn(&mut rt, &mut counter);
    handle.abort(&mut rt);
    let err = match handle.poll(&mut rt, waker) {
        Poll::Ready(Err(err)) => err,
        _ => panic!(),
    };
    assert!(err.is_cancelled());
    assert!(!err.is_panic());
    assert_eq!(err.id(), handle.id());
    assert_eq!(err.to_string(), "task was cancelled");
}

#[test]
fn abort_all_cancels_every_task_of_the_set() {
    let mut rt: Runtime<u32> = Runtime::new();
    let mut counter: u64 = 0;
    let waker = Waker::noop();
    let mut set = JoinSet::new();
    let (a1, _) = set.spawn(&mut rt, &mut counter);
    let (a2, _) = set.spawn(&mut rt, &mut counter);
    let (a3, _) = set.spawn(&mut rt, &mut counter);
    assert_eq!(set.len(), 3);
    assert!(!set.is_empty());

    set.abort_all(&mut rt);

    let mut ids = Vec::new();
    for _ in 0..3 {
        match set.join_next(&mut rt, waker) {
            Poll::Ready(Some(Err(err))) => {
                assert!(err.is_cancelled());
                ids.push(err.id());
            }
            _ => panic!(),
        }
    }
    assert_eq!(ids, vec![a1.id(), a2.id(), a3.id()]);
    assert!(ids[0] != ids[1] && ids[1] != ids[2] && ids[0] != ids[2]);
    assert_eq!(set.join_next(&mut rt, waker), Poll::Ready(None));
    assert_eq!(set.len(), 0);
    assert!(set.is_empty());
}

#[test]
fn join_next_on_an_empty_set_is_none() {
    let mut rt: Runtime<u32> = Runtime::new();
    let waker = Waker::noop();
    let mut set: JoinSet<u32> = JoinSet::new();
    assert!(set.is_empty());
    assert_eq!(set.len(), 0);
    assert_eq!(set.join_next(&mut rt, waker), Poll::Ready(None));
    assert_eq!(set.join_next_with_id(&mut rt, waker), Poll::Ready(None));
}

#[test]
fn join_next_hands_out_each_outcome_once() {
    let mut rt: Runtime<u32> = Runtime::new();
    let mut counter: u64 = 0;
    let (count, waker) = counting_waker();
    let mut set = JoinSet::new();
    let (a1, d1) = set.spawn(&mut rt, &mut counter);
    let (a2, d2) = set.spawn(&mut rt, &mut counter);
    let (a3, d3) = set.spawn(&mut rt, &mut counter);

    // Nothing is finished: the poll is pending and nothing leaves the set.
    assert_eq!(set.join_next_with_id(&mut rt, &waker), Poll::Pending);
    assert_eq!(set.len(), 3);

    // The third task finishes first and is the first to be handed out.
    assert_eq!(d3.poll(&mut rt, || Poll::Ready(30), &waker), Poll::Ready(()));
    assert_eq!(woken(&count), 1);
    assert_eq!(
        set.join_next_with_id(&mut rt, &waker),
        Poll::Ready(Some(Ok((a3.id(), 30))))
    );
    assert_eq!(set.len(), 2);
    assert_eq!(set.join_next_with_id(&mut rt, &waker), Poll::Pending);

    assert_eq!(d1.poll(&mut rt, || Poll::Ready(10), &waker), Poll::Ready(()));
    assert_eq!(d2.poll(&mut rt, || Poll::Ready(20), &waker), Poll::Ready(()));
    assert_eq!(
        set.join_next_with_id(&mut rt, &waker),
        Poll::Ready(Some(Ok((a1.id(), 10))))
    );
    assert_eq!(
        set.join_next_with_id(&mut rt, &waker),
        Poll::Ready(Some(Ok((a2.id(), 20))))
    );
    assert_eq!(set.join_next_with_id(&mut rt, &waker), Poll::Ready(None));
    assert_eq!(set.join_next_with_id(&mut rt, &waker), Poll::Ready(None));
}

#[test]
fn a_task_spawned_after_a_pending_poll_is_seen_by_the_next_poll() {
    let mut rt: Runtime<u32> = Runtime::new();
    let mut counter: u64 = 0;
    let waker = Waker::noop();
    let mut set = JoinSet::new();
    let (_a1, _d1) = set.spawn(&mut rt, &mut counter);
    assert_eq!(set.join_next(&mut rt, waker), Poll::Pending);
    let (_a2, d2) = set.spawn(&mut rt, &mut counter);
    assert_eq!(d2.poll(&mut rt, || Poll::Ready(2), waker), Poll::Ready(()));
    assert_eq!(set.join_next(&mut rt, waker), Poll::Ready(Some(Ok(2))));
    assert_eq!(set.len(), 1);
}

#[test]
fn finished_tasks_leave_the_cancel_list_when_the_set_is_polled() {
    let mut rt: Runtime<u32> = Runtime::new();
    let mut counter: u64 = 0;
    let waker = Waker::noop();
    let mut set = JoinSet::new();
    let (_a1, d1) = set.spawn(&mut rt, &mut counter);
    let (_a2, d2) = set.spawn(&mut rt, &mut counter);
    let (a3, _d3) = set.spawn(&mut rt, &mut counter);
    assert_eq!(d1.poll(&mut rt, || Poll::Ready(1), waker), Poll::Ready(()));
    assert_eq!(d2.poll(&mut rt, || Poll::Ready(2), waker), Poll::Ready(()));

    // The poll hands out the first task and prunes both finished tasks.
    assert_eq!(set.join_next(&mut rt, waker), Poll::Ready(Some(Ok(1))));
    set.abort_all(&mut rt);

    // The second task was pruned, so it was not cancelled and its value is
    // delivered; the third was still running and is cancelled.
    assert_eq!(set.join_next(&mut rt, waker), Poll::Ready(Some(Ok(2))));
    match set.join_next(&mut rt, waker) {
        Poll::Ready(Some(Err(err))) => assert_eq!(err.id(), a3.id()),
        _ => panic!(),
    }
    assert_eq!(set.join_next(&mut rt, waker), Poll::Ready(None));
}

#[test]
fn abort_all_without_a_poll_cancels_completed_tasks_too() {
    let mut rt: Runtime<u32> = Runtime::new();
    let mut counter: u64 = 0;
    let waker = Waker::noop();
    let mut set = JoinSet::new();
    let (a1, d1) = set.spawn(&mut rt, &mut counter);
    assert_eq!(d1.poll(&mut rt, || Poll::Ready(1), waker), Poll::Ready(()));
    set.abort_all(&mut rt);
    assert!(a1.is_finished(&rt));
    match set.join_next_with_id(&mut rt, waker) {
        Poll::Ready(Some(Err(err))) => assert_eq!(err.id(), a1.id()),
        _ => panic!(),
    }
}

#[test]
fn join_all_collects_the_values_in_the_order_joined() {
    let mut rt: Runtime<u32> = Runtime::new();
    let mut counter: u64 = 0;
    let (count, waker) = counting_waker();
    let mut set = JoinSet::new();
    let (_a1, d1) = set.spawn(&mut rt, &mut counter);
    let (_a2, d2) = set.spawn(&mut rt, &mut counter);
    let (_a3, d3) = set.spawn(&mut rt, &mut counter);
    assert_eq!(d2.poll(&mut rt, || Poll::Ready(2), &waker), Poll::Ready(()));

    let mut all = set.join_all();
    assert!(all.cancelled(&rt).is_none());
    assert_eq!(all.poll(&mut rt, &waker), Poll::Pending);
    assert_eq!(woken(&count), 0);
    assert_eq!(d3.poll(&mut rt, || Poll::Ready(3), &waker), Poll::Ready(()));
    assert_eq!(woken(&count), 1);
    assert_eq!(all.poll(&mut rt, &waker), Poll::Pending);
    assert_eq!(d1.poll(&mut rt, || Poll::Ready(1), &waker), Poll::Ready(()));
    assert!(all.cancelled(&rt).is_none());
    assert_eq!(all.poll(&mut rt, &waker), Poll::Ready(vec![2, 3, 1]));
}

#[test]
fn join_all_of_finished_tasks_is_ready_at_once() {
    let mut rt: Runtime<u32> = Runtime::new();
    let mut counter: u64 = 0;
    let waker = Waker::noop();
    let mut set = JoinSet::new();
    let (_a1, d1) = set.spawn(&mut rt, &mut counter);
    let (_a2, d2) = set.spawn(&mut rt, &mut counter);
    assert_eq!(d1.poll(&mut rt, || Poll::Ready(1), waker), Poll::Ready(()));
    assert_eq!(d2.poll(&mut rt, || Poll::Ready(2), waker), Poll::Ready(()));
    assert_eq!(set.join_all().poll(&mut rt, waker), Poll::Ready(vec![1, 2]));

    let empty: JoinSet<u32> = JoinSet::new();
    let mut all = empty.join_all();
    assert!(all.cancelled(&rt).is_none());
    assert_eq!(all.poll(&mut rt, waker), Poll::Ready(vec![]));
}

#[test]
fn join_all_fails_on_the_first_cancelled_task() {
    let mut rt: Runtime<u32> = Runtime::new();
    let mut counter: u64 = 0;
    let waker = Waker::noop();
    let mut set = JoinSet::new();
    let (_a1, d1) = set.spawn(&mut rt, &mut counter);
    let (a2, _d2) = set.spawn(&mut rt, &mut counter);
    let (a3, _d3) = set.spawn(&mut rt, &mut counter);
    assert_eq!(d1.poll(&mut rt, || Poll::Ready(1), waker), Poll::Ready(()));
    a3.abort(&mut rt);
    a2.abort(&mut rt);

    // The operation fails with the error of the first cancelled task in the
    // set's order, and is not polled.
    let all = set.join_all();
    match all.cancelled(&rt) {
        Some(err) => {
            assert!(err.is_cancelled());
            assert_eq!(err.id(), a2.id());
            assert_eq!(err.to_string(), "task was cancelled");
        }
        None => panic!(),
    }
    all.drop(&mut rt);
}

#[test]
fn join_all_sees_a_task_that_is_cancelled_between_polls() {
    let mut rt: Runtime<u32> = Runtime::new();
    let mut counter: u64 = 0;
    let waker = Waker::noop();
    let mut set = JoinSet::new();
    let (_a1, d1) = set.spawn(&mut rt, &mut counter);
    let (a2, _d2) = set.spawn(&mut rt, &mut counter);
    assert_eq!(d1.poll(&mut rt, || Poll::Ready(1), waker), Poll::Ready(()));

    let mut all = set.join_all();
    assert!(all.cancelled(&rt).is_none());
    assert_eq!(all.poll(&mut rt, waker), Poll::Pending);
    a2.abort(&mut rt);
    assert_eq!(all.cancelled(&rt).map(|err| err.id()), Some(a2.id()));
}

#[test]
fn shutdown_aborts_and_drains() {
    let mut rt: Runtime<u32> = Runtime::new();
    let mut counter: u64 = 0;
    let waker = Waker::noop();
    let mut set = JoinSet::new();
    let (a1, d1) = set.spawn(&mut rt, &mut counter);
    let (a2, _d2) = set.spawn(&mut rt, &mut counter);
    let (a3, d3) = set.spawn(&mut rt, &mut counter);
    assert_eq!(d1.poll(&mut rt, || Poll::Ready(1), waker), Poll::Ready(()));
    assert_eq!(d3.poll(&mut rt, || Poll::Pending, waker), Poll::Pending);

    assert_eq!(set.shutdown(&mut rt, waker), Poll::Ready(()));
    assert!(set.is_empty());
    assert_eq!(set.len(), 0);
    assert!(a1.is_finished(&rt));
    assert!(a2.is_finished(&rt) == false);
    assert!(d3.is_cancelled(&rt));
    assert!(!a3.is_finished(&rt));
    assert_eq!(set.join_next(&mut rt, waker), Poll::Ready(None));
    // The work of the third task never completes; its driver stops on the
    // next poll.
    assert_eq!(d3.poll(&mut rt, || Poll::Pending, waker), Poll::Ready(()));
    assert!(a3.is_finished(&rt));

    // An empty set shuts down at once.
    let mut empty: JoinSet<u32> = JoinSet::new();
    assert_eq!(empty.shutdown(&mut rt, waker), Poll::Ready(()));
}

#[test]
fn shutdown_after_a_poll_waits_for_nothing_that_was_pruned() {
    let mut rt: Runtime<u32> = Runtime::new();
    let mut counter: u64 = 0;
    let waker = Waker::noop();
    let mut set = JoinSet::new();
    let (_a1, d1) = set.spawn(&mut rt, &mut counter);
    let (_a2, d2) = set.spawn(&mut rt, &mut counter);
    assert_eq!(d1.poll(&mut rt, || Poll::Ready(1), waker), Poll::Ready(()));
    assert_eq!(d2.poll(&mut rt, || Poll::Ready(2), waker), Poll::Ready(()));
    assert_eq!(set.join_next(&mut rt, waker), Poll::Ready(Some(Ok(1))));
    // The second task is completed and off the cancel list; its value is
    // taken and dropped.
    assert_eq!(set.shutdown(&mut rt, waker), Poll::Ready(()));
    assert!(set.is_empty());
}

#[test]
fn dropping_a_join_set_aborts_its_tasks() {
    let mut rt: Runtime<u32> = Runtime::new();
    let mut counter: u64 = 0;
    let waker = Waker::noop();
    let mut set = JoinSet::new();
    let (a1, d1) = set.spawn(&mut rt, &mut counter);
    let (_a2, d2) = set.spawn(&mut rt, &mut counter);
    let (outside, outside_driver) = spawn(&mut rt, &mut counter);
    assert!(!d1.is_cancelled(&rt));
    set.drop(&mut rt);
    assert!(d1.is_cancelled(&rt));
    assert!(d2.is_cancelled(&rt));
    assert!(!a1.is_finished(&rt));
    // A task that is not in the set is left alone.
    assert!(!outside_driver.is_cancelled(&rt));
    assert!(!outside.is_finished(&rt));
    assert_eq!(d1.poll(&mut rt, || Poll::Ready(1), waker), Poll::Ready(()));
}

#[test]
fn abort_on_drop_handle_aborts_when_dropped() {
    let mut rt: Runtime<u32> = Runtime::new();
    let mut counter: u64 = 0;
    let (count, waker) = counting_waker();
    let (handle, driver) = spawn(&mut rt, &mut counter);
    let id = handle.id();
    let abort = handle.abort_handle();
    let scoped = AbortOnDropHandle::new(handle);
    assert_eq!(scoped.id(), id);
    assert!(!scoped.is_finished(&rt));
    assert_eq!(driver.poll(&mut rt, || Poll::Pending, &waker), Poll::Pending);

    // Never polled, still aborted, and the driver is woken once.
    scoped.drop(&mut rt);
    assert!(driver.is_cancelled(&rt));
    assert_eq!(woken(&count), 1);
    // An abort handle taken before sees the cancellation; the task is
    // finished in its sense once the driver has stopped.
    assert!(!abort.is_finished(&rt));
    assert_eq!(driver.poll(&mut rt, || Poll::Ready(1), &waker), Poll::Ready(()));
    assert!(abort.is_finished(&rt));
    assert_eq!(woken(&count), 1);
}

#[test]
fn dropping_an_abort_on_drop_handle_touches_its_task_only() {
    let mut rt: Runtime<u32> = Runtime::new();
    let mut counter: u64 = 0;
    let (count, waker) = counting_waker();
    let (other, other_driver) = spawn(&mut rt, &mut counter);
    let (handle, _driver) = spawn(&mut rt, &mut counter);
    let abort = handle.abort_handle();
    assert_eq!(other.poll(&mut rt, &waker), Poll::Pending);

    // The task is cancelled already: giving the handle up changes nothing
    // and wakes nobody again.
    let scoped = AbortOnDropHandle::new(handle);
    assert_eq!(scoped.poll(&mut rt, &waker), Poll::Pending);
    abort.abort(&mut rt);
    assert_eq!(woken(&count), 1);
    scoped.drop(&mut rt);
    assert_eq!(woken(&count), 1);

    assert!(!other.is_finished(&rt));
    assert_eq!(other_driver.poll(&mut rt, || Poll::Ready(4), &waker), Poll::Ready(()));
    assert_eq!(other.poll(&mut rt, &waker), Poll::Ready(Ok(4)));
}

#[test]
fn abort_on_drop_handle_passes_through() {
    let mut rt: Runtime<u32> = Runtime::new();
    let mut counter: u64 = 0;
    let waker = Waker::noop();

    let (handle, driver) = spawn(&mut rt, &mut counter);
    let scoped = AbortOnDropHandle::new(handle);
    assert_eq!(scoped.poll(&mut rt, waker), Poll::Pending);
    assert_eq!(driver.poll(&mut rt, || Poll::Ready(8), waker), Poll::Ready(()));
    assert!(scoped.is_finished(&rt));
    assert_eq!(scoped.poll(&mut rt, waker), Poll::Ready(Ok(8)));
    assert_eq!(scoped.abort_handle().id(), scoped.id());

    let (handle, _driver) = spawn(&mut rt, &mut counter);
    let scoped = AbortOnDropHandle::new(handle);
    scoped.abort(&mut rt);
    assert!(scoped.is_finished(&rt));
    assert_eq!(cancelled_id(scoped.poll(&mut rt, waker)), 2);
    scoped.drop(&mut rt);

    let (handle, _driver) = spawn(&mut rt, &mut counter);
    let scoped = AbortOnDropHandle::new(handle);
    scoped.abort_handle().abort(&mut rt);
    assert_eq!(cancelled_id(scoped.poll(&mut rt, waker)), 3);
}

#[test]
fn handles_belong_to_the_runtime_they_were_spawned_on() {
    let mut rt: Runtime<u32> = Runtime::new();
    let mut other: Runtime<u32> = Runtime::new();
    let mut counter: u64 = 0;
    let (h1, d1) = spawn(&mut rt, &mut counter);
    let (h2, _d2) = spawn(&mut rt, &mut counter);
    let (o1, _) = spawn(&mut other, &mut counter);

    assert!(h1.belongs_to(&rt));
    assert!(h2.belongs_to(&rt));
    assert!(d1.belongs_to(&rt));
    assert!(h1.abort_handle().belongs_to(&rt));
    assert!(o1.belongs_to(&other));
    // The other runtime has a record at the first place, of another task.
    assert!(!h1.belongs_to(&other));
    // And none at the second place.
    assert!(!h2.belongs_to(&other));
    assert!(!h2.abort_handle().belongs_to(&other));
    assert!(!o1.belongs_to(&rt));

    let scoped = AbortOnDropHandle::new(h2);
    assert!(scoped.belongs_to(&rt));
    assert!(!scoped.belongs_to(&other));
}

#[test]
fn a_join_set_belongs_to_the_runtime_of_its_tasks() {
    let mut rt: Runtime<u32> = Runtime::new();
    let other: Runtime<u32> = Runtime::new();
    let mut counter: u64 = 0;
    let waker = Waker::noop();
    let mut set = JoinSet::new();
    assert!(set.belongs_to(&rt));
    assert!(set.belongs_to(&other));

    let (_a1, d1) = set.spawn(&mut rt, &mut counter);
    let (_a2, _d2) = set.spawn(&mut rt, &mut counter);
    assert!(set.belongs_to(&rt));
    assert!(!set.belongs_to(&other));

    assert_eq!(d1.poll(&mut rt, || Poll::Ready(1), waker), Poll::Ready(()));
    assert_eq!(set.join_next(&mut rt, waker), Poll::Ready(Some(Ok(1))));
    assert!(set.belongs_to(&rt));

    let all = set.join_all();
    assert!(all.belongs_to(&rt));
    assert!(!all.belongs_to(&other));
    all.drop(&mut rt);
}

#[test]
fn join_set_default_is_empty() {
    let set: JoinSet<u32> = JoinSet::default();
    assert!(set.is_empty());
    assert_eq!(set.len(), 0);
}
