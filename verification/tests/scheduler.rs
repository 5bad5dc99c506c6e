//! Tests of the executor's scheduling protocol: dispatch order, the waker
//! protocol, the wake-called flag, timers, and registration bookkeeping.

use uniloop::executor::Executor;
use uniloop::types::Operation;

#[test]
fn spawned_tasks_dispatch_in_fifo_order() {
    let mut ex = Executor::new(3);
    let t1 = ex.spawn();
    let t2 = ex.spawn();
    let t3 = ex.spawn();
    assert_eq!(ex.begin_poll(), Some(t1));
    ex.end_poll(true);
    assert_eq!(ex.begin_poll(), Some(t2));
    ex.end_poll(true);
    assert_eq!(ex.begin_poll(), Some(t3));
    ex.end_poll(true);
    assert_eq!(ex.begin_poll(), None);
}

#[test]
fn tasks_woken_in_order_dispatch_in_order() {
    let mut ex = Executor::new(3);
    let t1 = ex.spawn();
    let t2 = ex.spawn();
    let t3 = ex.spawn();
    // Park all three.
    for _ in 0..3 {
        ex.begin_poll().unwrap();
        ex.end_poll(false);
    }
    assert_eq!(ex.begin_poll(), None);
    // Wake in the order t1, t2, t3: they are dispatched in that order.
    ex.wake(t1);
    ex.wake(t2);
    ex.wake(t3);
    assert_eq!(ex.begin_poll(), Some(t1));
    ex.end_poll(true);
    assert_eq!(ex.begin_poll(), Some(t2));
    ex.end_poll(true);
    assert_eq!(ex.begin_poll(), Some(t3));
    ex.end_poll(true);
}

#[test]
fn waking_a_parked_task_requeues_it() {
    let mut ex = Executor::new(3);
    let t = ex.spawn();
    assert_eq!(ex.begin_poll(), Some(t));
    ex.end_poll(false);
    assert_eq!(ex.parked, vec![t]);
    assert_eq!(ex.begin_poll(), None);
    ex.wake(t);
    assert!(ex.parked.is_empty());
    assert_eq!(ex.queue, vec![t]);
    assert_eq!(ex.begin_poll(), Some(t));
}

#[test]
fn wake_during_poll_requeues_exactly_once() {
    let mut ex = Executor::new(3);
    let t = ex.spawn();
    assert_eq!(ex.begin_poll(), Some(t));
    // The task invokes its own waker while inside poll — twice, even.
    ex.wake(t);
    ex.wake(t);
    assert!(ex.wake_called);
    ex.end_poll(false);
    // Exactly one entry in the queue, none parked.
    assert_eq!(ex.queue, vec![t]);
    assert!(ex.parked.is_empty());
    assert_eq!(ex.begin_poll(), Some(t));
}

#[test]
fn waking_an_already_queued_task_does_not_duplicate_it() {
    let mut ex = Executor::new(3);
    let t = ex.spawn();
    ex.wake(t);
    assert_eq!(ex.queue, vec![t]);
}

#[test]
fn released_handles_restore_registry_and_timer_sizes() {
    let mut ex = Executor::new(3);
    assert_eq!(ex.epoll.len(), 0);
    let h1 = ex.wake_on_activity(7, Operation::READ);
    let h2 = ex.wake_on_activity(8, Operation::WRITE);
    assert_eq!(ex.epoll.len(), 2);
    assert_eq!(h1.release(&mut ex), 7);
    assert_eq!(h2.release(&mut ex), 8);
    assert_eq!(ex.epoll.len(), 0);

    assert_eq!(ex.timers.len(), 0);
    let t1 = ex.wake_at_time(100);
    let t2 = ex.wake_at_time(200);
    assert_eq!(ex.timers.len(), 2);
    t1.release(&mut ex);
    t2.release(&mut ex);
    assert_eq!(ex.timers.len(), 0);
}

#[test]
fn many_registrations_leave_no_trace() {
    let mut ex = Executor::new(3);
    for round in 0..500 {
        let h = ex.wake_on_activity(10 + round, Operation::READ);
        assert_eq!(ex.epoll.len(), 1);
        assert_eq!(h.release(&mut ex), 10 + round);
        assert_eq!(ex.epoll.len(), 0);
    }
}

#[test]
fn dispatch_event_wakes_the_registered_task() {
    let mut ex = Executor::new(3);
    let t = ex.spawn();
    assert_eq!(ex.begin_poll(), Some(t));
    let h = ex.wake_on_activity(9, Operation::READ);
    h.set_waker(&mut ex, t);
    ex.end_poll(false);
    assert_eq!(ex.parked, vec![t]);
    // The kernel reports readiness of the registration: the task is queued.
    assert!(ex.dispatch_event(h.id));
    assert_eq!(ex.queue, vec![t]);
    assert!(ex.parked.is_empty());
    // An unknown registration id is reported as such and changes nothing.
    assert!(!ex.dispatch_event(4242));
    assert_eq!(ex.queue, vec![t]);
}

#[test]
fn only_the_most_recently_installed_waker_is_honored() {
    let mut ex = Executor::new(3);
    let t1 = ex.spawn();
    let t2 = ex.spawn();
    // Both tasks park.
    ex.begin_poll();
    ex.end_poll(false);
    ex.begin_poll();
    ex.end_poll(false);
    let h = ex.wake_on_activity(9, Operation::READ);
    h.set_waker(&mut ex, t1);
    h.set_waker(&mut ex, t2);
    assert!(ex.dispatch_event(h.id));
    // Only the replacement waker fires: t2 is queued, t1 stays parked.
    assert_eq!(ex.queue, vec![t2]);
    assert_eq!(ex.parked, vec![t1]);
}

#[test]
fn a_timer_without_a_waker_expires_silently() {
    let mut ex = Executor::new(3);
    let _h = ex.wake_at_time(5);
    ex.fire_due_timers(5);
    assert!(ex.timers.is_empty());
    assert!(ex.queue.is_empty());
}

#[test]
fn next_timeout_is_the_distance_to_the_smallest_deadline() {
    let mut ex = Executor::new(3);
    assert_eq!(ex.next_timeout(0), None);
    let _h1 = ex.wake_at_time(50);
    let _h2 = ex.wake_at_time(10);
    let _h3 = ex.wake_at_time(80);
    assert_eq!(ex.next_timeout(0), Some(10));
    assert_eq!(ex.next_timeout(4), Some(6));
    // A deadline already passed clamps to an immediate return.
    assert_eq!(ex.next_timeout(11), Some(0));
}

#[test]
fn fire_due_timers_wakes_only_elapsed_entries() {
    let mut ex = Executor::new(3);
    let t1 = ex.spawn();
    let t2 = ex.spawn();
    // Park both with timers: t1 due at 50, t2 due at 10.
    assert_eq!(ex.begin_poll(), Some(t1));
    let h1 = ex.wake_at_time(50);
    h1.set_waker(&mut ex, t1);
    ex.end_poll(false);
    assert_eq!(ex.begin_poll(), Some(t2));
    let h2 = ex.wake_at_time(10);
    h2.set_waker(&mut ex, t2);
    ex.end_poll(false);
    assert_eq!(ex.begin_poll(), None);
    // At time 10 only the earlier sleeper wakes.
    ex.fire_due_timers(10);
    assert_eq!(ex.queue, vec![t2]);
    assert_eq!(ex.timers.len(), 1);
    assert_eq!(ex.begin_poll(), Some(t2));
    ex.end_poll(true);
    // At time 50 the later one follows: wake order is 10 then 50.
    ex.fire_due_timers(50);
    assert_eq!(ex.queue, vec![t1]);
    assert_eq!(ex.timers.len(), 0);
}
