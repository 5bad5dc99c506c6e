//! Sleeping until a deadline: a timer entry owned by a handle, polled
//! against the current time. The surroundings supply the clock readings (in
//! milliseconds of one fixed monotonic clock) and drive the poll.

use vstd::prelude::*;

use crate::executor::{contains_timer_id, Executor, TimeoutWakeHandle, TimerEntry};
use crate::types::TaskId;

verus! {

/// A pending sleep: its absolute deadline and the handle owning the timer
/// entry that will wake the sleeping task.
pub struct AsyncSleepFuture {
    /// The absolute deadline: creation time plus the requested duration.
    pub time: u64,
    /// The handle owning the timer entry due at `time`.
    pub timeout_wake_handle: TimeoutWakeHandle,
}

/// Start a sleep of `timeout` milliseconds at time `now`: a timer entry due
/// at `now + timeout` is created, owned by the returned future.
pub fn async_sleep(ex: &mut Executor, now: u64, timeout: u64) -> (r: AsyncSleepFuture)
    requires
        old(ex).wf(),
        old(ex).last_timer_id < u64::MAX,
        now + timeout <= u64::MAX,
    ensures
        final(ex).wf(),
        r.time == now + timeout,
        r.timeout_wake_handle.id == old(ex).last_timer_id,
        final(ex).timers@ == old(ex).timers@.push(
            TimerEntry { id: r.timeout_wake_handle.id, deadline: (now + timeout) as u64, waker: None },
        ),
        contains_timer_id(final(ex).timers@, r.timeout_wake_handle.id),
        final(ex).last_timer_id == old(ex).last_timer_id + 1,
        final(ex).queue@ == old(ex).queue@,
        final(ex).parked@ == old(ex).parked@,
        final(ex).current == old(ex).current,
        final(ex).wake_called == old(ex).wake_called,
        final(ex).next_task_id == old(ex).next_task_id,
        final(ex).epoll == old(ex).epoll,
{
    let time = now + timeout;
    let timeout_wake_handle = ex.wake_at_time(time);
    proof {
        let ts = ex.timers@;
        assert(ts[ts.len() - 1].id == timeout_wake_handle.id);
    }
    AsyncSleepFuture { time, timeout_wake_handle }
}

impl AsyncSleepFuture {
    /// One poll of the sleep at time `now` on behalf of `task`: the sleep
    /// resolves exactly when the deadline has been reached; before that, the
    /// timer entry's waker is pointed at `task` and the task parks.
    pub fn poll(&self, ex: &mut Executor, now: u64, task: TaskId) -> (ready: bool)
        requires
            old(ex).wf(),
            contains_timer_id(old(ex).timers@, self.timeout_wake_handle.id),
        ensures
            final(ex).wf(),
            ready <==> now >= self.time,
            ready ==> *final(ex) == *old(ex),
            !ready ==> {
                &&& final(ex).timers@.len() == old(ex).timers@.len()
                &&& forall|j: int|
                    0 <= j < old(ex).timers@.len() && old(ex).timers@[j].id
                        != self.timeout_wake_handle.id ==> final(ex).timers@[j] == old(
                        ex,
                    ).timers@[j]
                &&& forall|j: int|
                    0 <= j < old(ex).timers@.len() && old(ex).timers@[j].id
                        == self.timeout_wake_handle.id ==> final(ex).timers@[j] == (TimerEntry {
                        waker: Some(task),
                        ..old(ex).timers@[j]
                    })
                &&& final(ex).queue@ == old(ex).queue@
                &&& final(ex).parked@ == old(ex).parked@
                &&& final(ex).current == old(ex).current
                &&& final(ex).wake_called == old(ex).wake_called
                &&& final(ex).next_task_id == old(ex).next_task_id
                &&& final(ex).last_timer_id == old(ex).last_timer_id
                &&& final(ex).epoll == old(ex).epoll
            },
    {
        if now >= self.time {
            true
        } else {
            self.timeout_wake_handle.set_waker(ex, task);
            false
        }
    }
}

/// Timer lower bound: a sleep of `d` milliseconds created at time `created`
/// carries the deadline `created + d`, and its poll resolves only once
/// `now` has reached that deadline — so it resolves no earlier than `d`
/// after its creation.
pub proof fn lemma_sleep_lower_bound(f: AsyncSleepFuture, created: u64, d: u64, now: u64)
    requires
        f.time == created + d,
        now >= f.time,
    ensures
        now - created >= d,
{
}

} // verus!
