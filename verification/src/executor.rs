//! The executor: a ready-task queue, a timer table, and the fd registry,
//! together with the waker protocol that parks and re-queues tasks.
//!
//! The unverified surroundings own the actual continuations and drive the
//! loop: they pop the next task with `begin_poll`, poll its continuation,
//! and report the outcome with `end_poll`; when the queue drains they ask
//! `next_timeout` how long the kernel wait may block, hand each delivered
//! readiness event to `dispatch_event`, and let `fire_due_timers` wake the
//! sleepers whose deadline has passed. Every scheduling decision is made
//! here, under contract.

use vstd::prelude::*;

use crate::epoll::{contains_entry_id, entry_waker, Epoll, EpollEntry};
use crate::types::{EpollEntryId, Operation, RawFd, TaskId, TimerId};

verus! {

/// One entry of the timer table.
#[derive(Clone, Copy)]
pub struct TimerEntry {
    /// The timer id handed back by `wake_at_time`.
    pub id: TimerId,
    /// The absolute deadline, in milliseconds of some fixed monotonic clock.
    pub deadline: u64,
    /// The task to wake when the deadline elapses; `None` until installed.
    pub waker: Option<TaskId>,
}

/// No task occurs twice.
pub open spec fn tasks_distinct(s: Seq<TaskId>) -> bool {
    forall|i: int, j: int| 0 <= i < j < s.len() ==> s[i] != s[j]
}

/// No two timer entries share an id.
pub open spec fn timer_ids_distinct(s: Seq<TimerEntry>) -> bool {
    forall|i: int, j: int| 0 <= i < j < s.len() ==> s[i].id != s[j].id
}

/// Every timer id was allocated below the counter `bound`.
pub open spec fn timer_ids_below(s: Seq<TimerEntry>, bound: TimerId) -> bool {
    forall|i: int| 0 <= i < s.len() ==> s[i].id < bound
}

/// Some timer entry carries the id.
pub open spec fn contains_timer_id(s: Seq<TimerEntry>, id: TimerId) -> bool {
    exists|i: int| 0 <= i < s.len() && s[i].id == id
}

/// `s` with the first occurrence of `t` taken out.
pub open spec fn remove_first_task(s: Seq<TaskId>, t: TaskId) -> Seq<TaskId>
    decreases s.len(),
{
    if s.len() == 0 {
        s
    } else if s[0] == t {
        s.skip(1)
    } else {
        seq![s[0]] + remove_first_task(s.skip(1), t)
    }
}

/// What one waker invocation does to the ready queue and the parked set
/// while no task is being polled: a parked task moves to the tail of the
/// queue; any other task is left alone (its waker cell is empty, so the
/// invocation is recorded nowhere).
pub open spec fn wake_one(q: Seq<TaskId>, p: Seq<TaskId>, t: TaskId) -> (Seq<TaskId>, Seq<TaskId>) {
    if p.contains(t) {
        (q.push(t), remove_first_task(p, t))
    } else {
        (q, p)
    }
}

/// `wake_one` folded over a sequence of waker invocations, in order.
pub open spec fn apply_wakes(q: Seq<TaskId>, p: Seq<TaskId>, ws: Seq<TaskId>) -> (
    Seq<TaskId>,
    Seq<TaskId>,
)
    decreases ws.len(),
{
    if ws.len() == 0 {
        (q, p)
    } else {
        let stepped = wake_one(q, p, ws[0]);
        apply_wakes(stepped.0, stepped.1, ws.skip(1))
    }
}

/// A handle owning one fd registration. Releasing it removes the
/// registration and hands back the duplicated descriptor to close.
pub struct ActivityWakeHandle {
    /// The registration this handle owns.
    pub id: EpollEntryId,
}

/// A handle owning one timer entry. Releasing it removes the entry.
pub struct TimeoutWakeHandle {
    /// The timer entry this handle owns.
    pub id: TimerId,
}

/// The executor's state: the fd registry, the ready queue, the parked set
/// (the tasks sitting in waker cells), the task currently being polled, the
/// wake-called flag, and the timer table.
pub struct Executor {
    /// The fd registry the run loop waits on.
    pub epoll: Epoll,
    /// Tasks scheduled for dispatch, head first.
    pub queue: Vec<TaskId>,
    /// Tasks parked in a waker cell, waiting to be woken.
    pub parked: Vec<TaskId>,
    /// The task currently inside `poll`, if any.
    pub current: Option<TaskId>,
    /// Whether the current task's waker was invoked during this very poll.
    pub wake_called: bool,
    /// The next task id to hand out.
    pub next_task_id: TaskId,
    /// The next timer id to hand out.
    pub last_timer_id: TimerId,
    /// The live timer entries, in order of creation.
    pub timers: Vec<TimerEntry>,
}

impl Executor {
    /// Every task is in at most one place, ids are fresh below the counters,
    /// and the registry is well formed.
    pub open spec fn wf(self) -> bool {
        &&& tasks_distinct(self.queue@)
        &&& tasks_distinct(self.parked@)
        &&& forall|i: int, j: int|
            0 <= i < self.queue@.len() && 0 <= j < self.parked@.len()
                ==> self.queue@[i] != self.parked@[j]
        &&& (self.current is Some ==> !self.queue@.contains(self.current->0)
            && !self.parked@.contains(self.current->0))
        &&& forall|i: int| 0 <= i < self.queue@.len() ==> self.queue@[i] < self.next_task_id
        &&& forall|i: int| 0 <= i < self.parked@.len() ==> self.parked@[i] < self.next_task_id
        &&& (self.current is Some ==> self.current->0 < self.next_task_id)
        &&& timer_ids_distinct(self.timers@)
        &&& timer_ids_below(self.timers@, self.last_timer_id)
        &&& self.epoll.wf()
    }

    /// A fresh executor around an empty registry on the given kernel set
    /// descriptor: nothing queued, nothing parked, no timers.
    pub fn new(epoll_fd: RawFd) -> (r: Executor)
        ensures
            r.wf(),
            r.epoll.fd == epoll_fd,
            r.epoll.handles@ == Seq::<EpollEntry>::empty(),
            r.queue@ == Seq::<TaskId>::empty(),
            r.parked@ == Seq::<TaskId>::empty(),
            r.current is None,
            !r.wake_called,
            r.next_task_id == 0,
            r.last_timer_id == 0,
            r.timers@ == Seq::<TimerEntry>::empty(),
    {
        Executor {
            epoll: Epoll::new(epoll_fd),
            queue: Vec::new(),
            parked: Vec::new(),
            current: None,
            wake_called: false,
            next_task_id: 0,
            last_timer_id: 0,
            timers: Vec::new(),
        }
    }

    /// Submit a task: a fresh id is appended to the tail of the ready queue.
    /// Safe to call while a task is being polled.
    pub fn spawn(&mut self) -> (t: TaskId)
        requires
            old(self).wf(),
            old(self).next_task_id < u64::MAX,
        ensures
            final(self).wf(),
            t == old(self).next_task_id,
            !old(self).queue@.contains(t),
            final(self).queue@ == old(self).queue@.push(t),
            final(self).parked@ == old(self).parked@,
            final(self).current == old(self).current,
            final(self).wake_called == old(self).wake_called,
            final(self).next_task_id == old(self).next_task_id + 1,
            final(self).last_timer_id == old(self).last_timer_id,
            final(self).timers@ == old(self).timers@,
            final(self).epoll == old(self).epoll,
    {
        let t = self.next_task_id;
        self.next_task_id = self.next_task_id + 1;
        self.queue.push(t);
        t
    }

    /// Invoke the waker of task `t`. A parked task is re-queued at the tail;
    /// if `t` is the task currently inside `poll`, the wake is recorded in
    /// the wake-called flag instead, and the poll epilogue re-queues it;
    /// a task that is already queued (or gone) is left alone.
    pub fn wake(&mut self, t: TaskId)
        requires
            old(self).wf(),
        ensures
            final(self).wf(),
            (final(self).queue@, final(self).parked@) == wake_one(
                old(self).queue@,
                old(self).parked@,
                t,
            ),
            final(self).wake_called == (old(self).wake_called || (!old(self).parked@.contains(t)
                && old(self).current == Some(t))),
            final(self).current == old(self).current,
            final(self).next_task_id == old(self).next_task_id,
            final(self).last_timer_id == old(self).last_timer_id,
            final(self).timers@ == old(self).timers@,
            final(self).epoll == old(self).epoll,
    {
        let mut i: usize = 0;
        while i < self.parked.len()
            invariant
                0 <= i <= self.parked@.len(),
                old(self).wf(),
                forall|j: int| 0 <= j < i ==> self.parked@[j] != t,
                *self == *old(self),
            decreases self.parked@.len() - i,
        {
            if self.parked[i] == t {
                proof {
                    lemma_remove_first_at(self.parked@, t, i as int);
                }
                self.parked.remove(i);
                self.queue.push(t);
                proof {
                    let q0 = old(self).queue@;
                    let p0 = old(self).parked@;
                    assert(p0.contains(t));
                    assert forall|a: int, b: int|
                        0 <= a < self.queue@.len() && 0 <= b < self.parked@.len()
                        implies self.queue@[a] != self.parked@[b] by {
                        let b0: int = if b < i { b } else { b + 1 };
                        assert(self.parked@[b] == p0[b0]);
                        if a < q0.len() {
                            assert(self.queue@[a] == q0[a]);
                        } else {
                            assert(self.queue@[a] == t);
                            if b0 != i {
                                assert(p0[i as int] == t);
                            }
                        }
                    }
                    assert forall|a: int, b: int| 0 <= a < b < self.parked@.len()
                        implies self.parked@[a] != self.parked@[b] by {
                        let a0: int = if a < i { a } else { a + 1 };
                        let b0: int = if b < i { b } else { b + 1 };
                        assert(self.parked@[a] == p0[a0] && self.parked@[b] == p0[b0]);
                    }
                }
                return;
            }
            i = i + 1;
        }
        assert(!old(self).parked@.contains(t));
        if let Some(c) = self.current {
            if c == t {
                self.wake_called = true;
            }
        }
    }

    /// Take the head of the ready queue and make it the task being polled,
    /// clearing the wake-called flag. Returns `None` when the queue is empty.
    /// Tasks are dispatched strictly in the order they became ready.
    pub fn begin_poll(&mut self) -> (r: Option<TaskId>)
        requires
            old(self).wf(),
            old(self).current is None,
        ensures
            final(self).wf(),
            r is None <==> old(self).queue@.len() == 0,
            r is None ==> *final(self) == *old(self),
            r is Some ==> r->0 == old(self).queue@[0] && final(self).queue@ == old(
                self,
            ).queue@.skip(1) && final(self).current == Some(r->0) && !final(self).wake_called,
            final(self).parked@ == old(self).parked@,
            final(self).next_task_id == old(self).next_task_id,
            final(self).last_timer_id == old(self).last_timer_id,
            final(self).timers@ == old(self).timers@,
            final(self).epoll == old(self).epoll,
    {
        if self.queue.len() == 0 {
            return None;
        }
        let t = self.queue.remove(0);
        self.current = Some(t);
        self.wake_called = false;
        proof {
            assert(self.queue@ =~= old(self).queue@.skip(1));
        }
        Some(t)
    }

    /// The poll epilogue. A completed task is dropped. A task that suspended
    /// is re-queued at the tail if its waker was invoked during the poll
    /// (the synchronous wake), and parked in its waker cell otherwise.
    /// Either way, exactly one place holds the task afterwards.
    pub fn end_poll(&mut self, completed: bool)
        requires
            old(self).wf(),
            old(self).current is Some,
        ensures
            final(self).wf(),
            final(self).current is None,
            !final(self).wake_called,
            completed ==> final(self).queue@ == old(self).queue@ && final(self).parked@ == old(
                self,
            ).parked@,
            !completed && old(self).wake_called ==> final(self).queue@ == old(self).queue@.push(
                old(self).current->0,
            ) && final(self).parked@ == old(self).parked@,
            !completed && !old(self).wake_called ==> final(self).queue@ == old(self).queue@
                && final(self).parked@ == old(self).parked@.push(old(self).current->0),
            final(self).next_task_id == old(self).next_task_id,
            final(self).last_timer_id == old(self).last_timer_id,
            final(self).timers@ == old(self).timers@,
            final(self).epoll == old(self).epoll,
    {
        let t = self.current.unwrap();
        self.current = None;
        if !completed {
            if self.wake_called {
                self.queue.push(t);
            } else {
                self.parked.push(t);
            }
        }
        self.wake_called = false;
    }
}

/// The smaller of two integers.
pub open spec fn min2(a: int, b: int) -> int {
    if a <= b {
        a
    } else {
        b
    }
}

/// The smallest deadline of a non-empty timer table.
pub open spec fn min_deadline(ts: Seq<TimerEntry>) -> int
    recommends
        ts.len() > 0,
    decreases ts.len(),
{
    if ts.len() <= 1 {
        ts[0].deadline as int
    } else {
        min2(ts[0].deadline as int, min_deadline(ts.skip(1)))
    }
}

/// The wakers of the entries whose deadline has elapsed at `now`, in table
/// order.
pub open spec fn due_wakers(ts: Seq<TimerEntry>, now: u64) -> Seq<TaskId>
    decreases ts.len(),
{
    if ts.len() == 0 {
        Seq::empty()
    } else {
        let rest = due_wakers(ts.skip(1), now);
        if ts[0].deadline <= now && ts[0].waker is Some {
            seq![ts[0].waker->0] + rest
        } else {
            rest
        }
    }
}

/// The entries whose deadline has not elapsed at `now`, in table order.
pub open spec fn live_timers(ts: Seq<TimerEntry>, now: u64) -> Seq<TimerEntry>
    decreases ts.len(),
{
    if ts.len() == 0 {
        Seq::empty()
    } else {
        let rest = live_timers(ts.skip(1), now);
        if ts[0].deadline > now {
            seq![ts[0]] + rest
        } else {
            rest
        }
    }
}

impl Executor {
    /// Register interest in `fd` for direction `op` and return the handle
    /// owning the registration; no waker is installed yet. `fd` is the
    /// duplicate the caller made and added to the kernel set.
    pub fn wake_on_activity(&mut self, fd: RawFd, op: Operation) -> (h: ActivityWakeHandle)
        requires
            old(self).wf(),
            old(self).epoll.last_id < u64::MAX,
        ensures
            final(self).wf(),
            h.id == old(self).epoll.last_id,
            !contains_entry_id(old(self).epoll.handles@, h.id),
            final(self).epoll.handles@ == old(self).epoll.handles@.push(
                EpollEntry { id: h.id, fd, op, waker: None },
            ),
            final(self).epoll.last_id == old(self).epoll.last_id + 1,
            final(self).epoll.fd == old(self).epoll.fd,
            final(self).queue@ == old(self).queue@,
            final(self).parked@ == old(self).parked@,
            final(self).current == old(self).current,
            final(self).wake_called == old(self).wake_called,
            final(self).next_task_id == old(self).next_task_id,
            final(self).last_timer_id == old(self).last_timer_id,
            final(self).timers@ == old(self).timers@,
    {
        let id = self.epoll.add(fd, op);
        ActivityWakeHandle { id }
    }

    /// Create a timer entry due at `deadline`, with no waker yet, and return
    /// the handle owning it.
    pub fn wake_at_time(&mut self, deadline: u64) -> (h: TimeoutWakeHandle)
        requires
            old(self).wf(),
            old(self).last_timer_id < u64::MAX,
        ensures
            final(self).wf(),
            h.id == old(self).last_timer_id,
            !contains_timer_id(old(self).timers@, h.id),
            final(self).timers@ == old(self).timers@.push(
                TimerEntry { id: h.id, deadline, waker: None },
            ),
            final(self).last_timer_id == old(self).last_timer_id + 1,
            final(self).queue@ == old(self).queue@,
            final(self).parked@ == old(self).parked@,
            final(self).current == old(self).current,
            final(self).wake_called == old(self).wake_called,
            final(self).next_task_id == old(self).next_task_id,
            final(self).epoll == old(self).epoll,
    {
        let id = self.last_timer_id;
        self.last_timer_id = self.last_timer_id + 1;
        self.timers.push(TimerEntry { id, deadline, waker: None });
        TimeoutWakeHandle { id }
    }

    /// How long the kernel wait may block: `None` when no timer is live
    /// (wait unbounded), otherwise the distance from `now` to the smallest
    /// deadline, clamped to zero when that deadline has already passed.
    pub fn next_timeout(&self, now: u64) -> (r: Option<u64>)
        ensures
            r is None <==> self.timers@.len() == 0,
            self.timers@.len() > 0 ==> r == Some(
                if min_deadline(self.timers@) <= now {
                    0u64
                } else {
                    (min_deadline(self.timers@) - now) as u64
                },
            ),
    {
        if self.timers.len() == 0 {
            return None;
        }
        let ghost ts = self.timers@;
        let mut m: u64 = self.timers[0].deadline;
        let mut i: usize = 1;
        proof {
            if ts.len() > 1 {
                assert(min_deadline(ts) == min2(ts[0].deadline as int, min_deadline(ts.skip(1))));
            }
        }
        while i < self.timers.len()
            invariant
                1 <= i <= ts.len(),
                ts == self.timers@,
                ts.len() > 0,
                i < ts.len() ==> min_deadline(ts) == min2(m as int, min_deadline(ts.skip(i as int))),
                i == ts.len() ==> min_deadline(ts) == m as int,
            decreases ts.len() - i,
        {
            proof {
                let suf = ts.skip(i as int);
                assert(suf[0] == ts[i as int]);
                if i + 1 < ts.len() {
                    assert(suf.skip(1) =~= ts.skip(i as int + 1));
                    assert(min_deadline(suf) == min2(
                        ts[i as int].deadline as int,
                        min_deadline(ts.skip(i as int + 1)),
                    ));
                } else {
                    assert(suf.len() == 1);
                    assert(min_deadline(suf) == ts[i as int].deadline as int);
                }
            }
            let d = self.timers[i].deadline;
            if d < m {
                m = d;
            }
            i = i + 1;
        }
        if m <= now {
            Some(0)
        } else {
            Some(m - now)
        }
    }

    /// Deliver one readiness event: invoke the waker of the registration
    /// carrying `id`, if the registration is live and a waker is installed.
    /// Returns whether the registration was found.
    pub fn dispatch_event(&mut self, id: EpollEntryId) -> (found: bool)
        requires
            old(self).wf(),
            old(self).current is None,
        ensures
            final(self).wf(),
            found == contains_entry_id(old(self).epoll.handles@, id),
            (final(self).queue@, final(self).parked@) == (match entry_waker(
                old(self).epoll.handles@,
                id,
            ) {
                Some(t) => wake_one(old(self).queue@, old(self).parked@, t),
                None => (old(self).queue@, old(self).parked@),
            }),
            final(self).current is None,
            final(self).wake_called == old(self).wake_called,
            final(self).next_task_id == old(self).next_task_id,
            final(self).last_timer_id == old(self).last_timer_id,
            final(self).timers@ == old(self).timers@,
            final(self).epoll == old(self).epoll,
    {
        let ghost s = self.epoll.handles@;
        proof {
            assert(s.skip(0) =~= s);
        }
        let mut i: usize = 0;
        while i < self.epoll.handles.len()
            invariant
                0 <= i <= s.len(),
                old(self).wf(),
                old(self).current is None,
                s == self.epoll.handles@,
                *self == *old(self),
                forall|j: int| 0 <= j < i ==> s[j].id != id,
                entry_waker(s, id) == entry_waker(s.skip(i as int), id),
            decreases s.len() - i,
        {
            proof {
                let suf = s.skip(i as int);
                assert(suf[0] == s[i as int]);
                assert(suf.skip(1) =~= s.skip(i as int + 1));
            }
            if self.epoll.handles[i].id == id {
                let w = self.epoll.handles[i].waker;
                assert(entry_waker(s, id) == w);
                if let Some(t) = w {
                    self.wake(t);
                }
                return true;
            }
            i = i + 1;
        }
        proof {
            assert(s.skip(s.len() as int).len() == 0);
        }
        false
    }

    /// Fire every due timer: invoke the waker of each entry whose deadline
    /// has elapsed at `now`, in table order, then drop those entries. Runs
    /// between polls, so no task is current.
    pub fn fire_due_timers(&mut self, now: u64)
        requires
            old(self).wf(),
            old(self).current is None,
        ensures
            final(self).wf(),
            (final(self).queue@, final(self).parked@) == apply_wakes(
                old(self).queue@,
                old(self).parked@,
                due_wakers(old(self).timers@, now),
            ),
            final(self).timers@ == live_timers(old(self).timers@, now),
            final(self).current is None,
            final(self).wake_called == old(self).wake_called,
            final(self).next_task_id == old(self).next_task_id,
            final(self).last_timer_id == old(self).last_timer_id,
            final(self).epoll == old(self).epoll,
    {
        let ghost ts0 = self.timers@;
        proof {
            assert(ts0.skip(0) =~= ts0);
            assert(Seq::<TaskId>::empty() + due_wakers(ts0, now) =~= due_wakers(ts0, now));
        }
        let mut ws: Vec<TaskId> = Vec::new();
        let mut i: usize = 0;
        while i < self.timers.len()
            invariant
                0 <= i <= ts0.len(),
                ts0 == self.timers@,
                *self == *old(self),
                ws@ + due_wakers(ts0.skip(i as int), now) == due_wakers(ts0, now),
            decreases ts0.len() - i,
        {
            proof {
                let suf = ts0.skip(i as int);
                assert(suf[0] == ts0[i as int]);
                assert(suf.skip(1) =~= ts0.skip(i as int + 1));
            }
            let e = self.timers[i];
            if e.deadline <= now {
                if let Some(t) = e.waker {
                    ws.push(t);
                    proof {
                        assert(ws@ =~= ws@.subrange(0, ws@.len() - 1).push(t));
                        assert((ws@.subrange(0, ws@.len() - 1).push(t)) + due_wakers(
                            ts0.skip(i as int + 1),
                            now,
                        ) =~= ws@.subrange(0, ws@.len() - 1) + (seq![t] + due_wakers(
                            ts0.skip(i as int + 1),
                            now,
                        )));
                    }
                }
            }
            i = i + 1;
        }
        proof {
            assert(ts0.skip(ts0.len() as int).len() == 0);
            assert(ws@ + due_wakers(ts0.skip(ts0.len() as int), now) =~= ws@);
            assert(ws@ == due_wakers(ts0, now));
        }
        let ghost q0 = self.queue@;
        let ghost p0 = self.parked@;
        proof {
            assert(ws@.skip(0) =~= ws@);
        }
        let mut k: usize = 0;
        while k < ws.len()
            invariant
                0 <= k <= ws@.len(),
                self.wf(),
                self.current is None,
                self.wake_called == old(self).wake_called,
                self.next_task_id == old(self).next_task_id,
                self.last_timer_id == old(self).last_timer_id,
                self.timers@ == ts0,
                self.epoll == old(self).epoll,
                apply_wakes(self.queue@, self.parked@, ws@.skip(k as int)) == apply_wakes(
                    q0,
                    p0,
                    ws@,
                ),
            decreases ws@.len() - k,
        {
            proof {
                let suf = ws@.skip(k as int);
                assert(suf[0] == ws@[k as int]);
                assert(suf.skip(1) =~= ws@.skip(k as int + 1));
            }
            let t = ws[k];
            self.wake(t);
            k = k + 1;
        }
        proof {
            assert(ws@.skip(ws@.len() as int).len() == 0);
            assert((self.queue@, self.parked@) == apply_wakes(q0, p0, due_wakers(ts0, now)));
        }
        let ghost qf = self.queue@;
        let ghost pf = self.parked@;
        proof {
            assert(Seq::<TimerEntry>::empty() + live_timers(ts0, now) =~= live_timers(ts0, now));
        }
        let mut kept: Vec<TimerEntry> = Vec::new();
        let mut j: usize = 0;
        while j < self.timers.len()
            invariant
                0 <= j <= ts0.len(),
                ts0 == self.timers@,
                self.queue@ == qf,
                self.parked@ == pf,
                self.wf(),
                self.current is None,
                self.wake_called == old(self).wake_called,
                self.next_task_id == old(self).next_task_id,
                self.last_timer_id == old(self).last_timer_id,
                self.epoll == old(self).epoll,
                kept@ + live_timers(ts0.skip(j as int), now) == live_timers(ts0, now),
            decreases ts0.len() - j,
        {
            proof {
                let suf = ts0.skip(j as int);
                assert(suf[0] == ts0[j as int]);
                assert(suf.skip(1) =~= ts0.skip(j as int + 1));
            }
            let e = self.timers[j];
            if e.deadline > now {
                kept.push(e);
                proof {
                    assert(kept@ =~= kept@.subrange(0, kept@.len() - 1).push(e));
                    assert((kept@.subrange(0, kept@.len() - 1).push(e)) + live_timers(
                        ts0.skip(j as int + 1),
                        now,
                    ) =~= kept@.subrange(0, kept@.len() - 1) + (seq![e] + live_timers(
                        ts0.skip(j as int + 1),
                        now,
                    )));
                }
            }
            j = j + 1;
        }
        proof {
            assert(ts0.skip(ts0.len() as int).len() == 0);
            assert(kept@ + live_timers(ts0.skip(ts0.len() as int), now) =~= kept@);
            assert(kept@ == live_timers(ts0, now));
            lemma_live_timers_wf(ts0, now, self.last_timer_id);
        }
        self.timers = kept;
    }
}

impl ActivityWakeHandle {
    /// Install (or replace) the waker of the owned fd registration: from now
    /// on, readiness of the registered descriptor wakes `task`.
    pub fn set_waker(&self, ex: &mut Executor, task: TaskId)
        requires
            old(ex).wf(),
            contains_entry_id(old(ex).epoll.handles@, self.id),
        ensures
            final(ex).wf(),
            final(ex).epoll.handles@.len() == old(ex).epoll.handles@.len(),
            forall|j: int|
                0 <= j < old(ex).epoll.handles@.len() && old(ex).epoll.handles@[j].id != self.id
                    ==> final(ex).epoll.handles@[j] == old(ex).epoll.handles@[j],
            forall|j: int|
                0 <= j < old(ex).epoll.handles@.len() && old(ex).epoll.handles@[j].id == self.id
                    ==> final(ex).epoll.handles@[j] == (EpollEntry {
                        waker: Some(task),
                        ..old(ex).epoll.handles@[j]
                    }),
            final(ex).epoll.fd == old(ex).epoll.fd,
            final(ex).epoll.last_id == old(ex).epoll.last_id,
            final(ex).queue@ == old(ex).queue@,
            final(ex).parked@ == old(ex).parked@,
            final(ex).current == old(ex).current,
            final(ex).wake_called == old(ex).wake_called,
            final(ex).next_task_id == old(ex).next_task_id,
            final(ex).last_timer_id == old(ex).last_timer_id,
            final(ex).timers@ == old(ex).timers@,
    {
        ex.epoll.modify(self.id, task);
    }

    /// Release the owned registration: drop it from the registry and hand
    /// back the duplicated descriptor, which the caller detaches from the
    /// kernel set and closes. Consumes the handle, as dropping it does.
    pub fn release(self, ex: &mut Executor) -> (fd: RawFd)
        requires
            old(ex).wf(),
            contains_entry_id(old(ex).epoll.handles@, self.id),
        ensures
            final(ex).wf(),
            final(ex).epoll.handles@.len() == old(ex).epoll.handles@.len() - 1,
            !contains_entry_id(final(ex).epoll.handles@, self.id),
            exists|i: int|
                0 <= i < old(ex).epoll.handles@.len() && old(ex).epoll.handles@[i].id == self.id
                    && fd == old(ex).epoll.handles@[i].fd && final(ex).epoll.handles@ == old(
                    ex,
                ).epoll.handles@.remove(i),
            final(ex).epoll.fd == old(ex).epoll.fd,
            final(ex).epoll.last_id == old(ex).epoll.last_id,
            final(ex).queue@ == old(ex).queue@,
            final(ex).parked@ == old(ex).parked@,
            final(ex).current == old(ex).current,
            final(ex).wake_called == old(ex).wake_called,
            final(ex).next_task_id == old(ex).next_task_id,
            final(ex).last_timer_id == old(ex).last_timer_id,
            final(ex).timers@ == old(ex).timers@,
    {
        ex.epoll.remove(self.id)
    }
}

impl TimeoutWakeHandle {
    /// Install (or replace) the waker of the owned timer entry: when the
    /// deadline elapses, `task` is woken.
    pub fn set_waker(&self, ex: &mut Executor, task: TaskId)
        requires
            old(ex).wf(),
            contains_timer_id(old(ex).timers@, self.id),
        ensures
            final(ex).wf(),
            final(ex).timers@.len() == old(ex).timers@.len(),
            forall|j: int|
                0 <= j < old(ex).timers@.len() && old(ex).timers@[j].id != self.id ==> final(ex).timers@[j] == old(ex).timers@[j],
            forall|j: int|
                0 <= j < old(ex).timers@.len() && old(ex).timers@[j].id == self.id ==> final(ex).timers@[j] == (TimerEntry { waker: Some(task), ..old(ex).timers@[j] }),
            final(ex).queue@ == old(ex).queue@,
            final(ex).parked@ == old(ex).parked@,
            final(ex).current == old(ex).current,
            final(ex).wake_called == old(ex).wake_called,
            final(ex).next_task_id == old(ex).next_task_id,
            final(ex).last_timer_id == old(ex).last_timer_id,
            final(ex).epoll == old(ex).epoll,
    {
        let mut i: usize = 0;
        while i < ex.timers.len()
            invariant
                0 <= i <= ex.timers@.len(),
                old(ex).wf(),
                forall|j: int| 0 <= j < i ==> ex.timers@[j].id != self.id,
                *ex == *old(ex),
            decreases ex.timers@.len() - i,
        {
            if ex.timers[i].id == self.id {
                proof {
                    let s = ex.timers@;
                    assert forall|j: int| 0 <= j < s.len() && s[j].id == self.id
                        implies j == i by {
                        if j > i {
                            assert(s[i as int].id != s[j].id);
                        }
                    }
                }
                let e = ex.timers[i];
                ex.timers.set(i, TimerEntry { waker: Some(task), ..e });
                proof {
                    let s0 = old(ex).timers@;
                    let s1 = ex.timers@;
                    assert forall|j: int| 0 <= j < s1.len() implies #[trigger] s1[j].id
                        == s0[j].id by {
                        if j != i {
                            assert(s1[j] == s0[j]);
                        }
                    }
                }
                return;
            }
            i = i + 1;
        }
        proof {
            assert(false);
        }
    }

    /// Release the owned timer entry: drop it from the table. Consumes the
    /// handle, as dropping it does.
    pub fn release(self, ex: &mut Executor)
        requires
            old(ex).wf(),
            contains_timer_id(old(ex).timers@, self.id),
        ensures
            final(ex).wf(),
            final(ex).timers@.len() == old(ex).timers@.len() - 1,
            !contains_timer_id(final(ex).timers@, self.id),
            exists|i: int|
                0 <= i < old(ex).timers@.len() && old(ex).timers@[i].id == self.id && final(ex).timers@ == old(ex).timers@.remove(i),
            final(ex).queue@ == old(ex).queue@,
            final(ex).parked@ == old(ex).parked@,
            final(ex).current == old(ex).current,
            final(ex).wake_called == old(ex).wake_called,
            final(ex).next_task_id == old(ex).next_task_id,
            final(ex).last_timer_id == old(ex).last_timer_id,
            final(ex).epoll == old(ex).epoll,
    {
        let mut i: usize = 0;
        while i < ex.timers.len()
            invariant
                0 <= i <= ex.timers@.len(),
                old(ex).wf(),
                contains_timer_id(old(ex).timers@, self.id),
                forall|j: int| 0 <= j < i ==> ex.timers@[j].id != self.id,
                *ex == *old(ex),
            decreases ex.timers@.len() - i,
        {
            if ex.timers[i].id == self.id {
                ex.timers.remove(i);
                proof {
                    let s0 = old(ex).timers@;
                    let s1 = ex.timers@;
                    assert forall|j: int| 0 <= j < s1.len() implies #[trigger] s1[j] == (if j < i {
                        s0[j]
                    } else {
                        s0[j + 1]
                    }) by {
                        assert(s1 == s0.subrange(0, i as int) + s0.subrange(
                            i as int + 1,
                            s0.len() as int,
                        ));
                    }
                    assert forall|j: int| 0 <= j < s1.len() implies #[trigger] s1[j].id
                        != self.id by {
                        if j >= i {
                            assert(s0[i as int].id != s0[j + 1].id);
                        }
                    }
                    assert forall|p: int, q: int| 0 <= p < q < s1.len()
                        implies #[trigger] s1[p].id != #[trigger] s1[q].id by {
                        let p0: int = if p < i {
                            p
                        } else {
                            p + 1
                        };
                        let q0: int = if q < i {
                            q
                        } else {
                            q + 1
                        };
                        assert(s0[p0].id != s0[q0].id);
                    }
                }
                return;
            }
            i = i + 1;
        }
        proof {
            assert(false);
        }
    }
}

/// An entry of the filtered table stands somewhere in the original table.
proof fn lemma_live_timers_contains(ts: Seq<TimerEntry>, now: u64)
    ensures
        forall|j: int|
            0 <= j < live_timers(ts, now).len() ==> exists|m: int|
                0 <= m < ts.len() && ts[m] == #[trigger] live_timers(ts, now)[j],
    decreases ts.len(),
{
    if ts.len() > 0 {
        lemma_live_timers_contains(ts.skip(1), now);
        let rest = live_timers(ts.skip(1), now);
        assert forall|j: int| 0 <= j < live_timers(ts, now).len() implies exists|m: int|
            0 <= m < ts.len() && ts[m] == #[trigger] live_timers(ts, now)[j] by {
            if ts[0].deadline > now {
                if j == 0 {
                    assert(ts[0] == live_timers(ts, now)[0]);
                } else {
                    let mr = choose|m: int| 0 <= m < ts.skip(1).len() && ts.skip(1)[m] == rest[j
                        - 1];
                    assert(ts[mr + 1] == live_timers(ts, now)[j]);
                }
            } else {
                let mr = choose|m: int| 0 <= m < ts.skip(1).len() && ts.skip(1)[m] == rest[j];
                assert(ts[mr + 1] == live_timers(ts, now)[j]);
            }
        }
    }
}

/// Dropping the due entries keeps ids unique and below the counter.
proof fn lemma_live_timers_wf(ts: Seq<TimerEntry>, now: u64, bound: TimerId)
    requires
        timer_ids_distinct(ts),
        timer_ids_below(ts, bound),
    ensures
        timer_ids_distinct(live_timers(ts, now)),
        timer_ids_below(live_timers(ts, now), bound),
    decreases ts.len(),
{
    if ts.len() > 0 {
        let tail = ts.skip(1);
        assert forall|i: int, j: int| 0 <= i < j < tail.len() implies tail[i].id != tail[j].id by {
            assert(ts[i + 1].id != ts[j + 1].id);
        }
        assert forall|i: int| 0 <= i < tail.len() implies tail[i].id < bound by {
            assert(ts[i + 1].id < bound);
        }
        lemma_live_timers_wf(tail, now, bound);
        lemma_live_timers_contains(tail, now);
        let live = live_timers(ts, now);
        let rest = live_timers(tail, now);
        if ts[0].deadline > now {
            assert forall|i: int, j: int| 0 <= i < j < live.len() implies live[i].id
                != live[j].id by {
                if i == 0 {
                    let m = choose|m: int| 0 <= m < tail.len() && tail[m] == rest[j - 1];
                    assert(ts[0].id != ts[m + 1].id);
                } else {
                    assert(rest[i - 1].id != rest[j - 1].id);
                }
            }
            assert forall|i: int| 0 <= i < live.len() implies live[i].id < bound by {
                if i > 0 {
                    assert(rest[i - 1].id < bound);
                }
            }
        }
    }
}

/// Single dispatch, no re-entry: while a task is inside `poll` it stands
/// neither in the ready queue nor in a waker cell, so it cannot be handed
/// out again until its poll epilogue has run.
pub proof fn lemma_no_reentrant_poll(ex: Executor)
    requires
        ex.wf(),
        ex.current is Some,
    ensures
        !ex.queue@.contains(ex.current->0),
        !ex.parked@.contains(ex.current->0),
{
}

/// FIFO dispatch: `begin_poll` hands out the head of the queue, and every
/// task behind it moves exactly one place toward the head. A task queued at
/// position `k` is therefore dispatched after exactly `k` earlier tasks, in
/// the order they became ready, and every queued task is dispatched after
/// finitely many dispatches.
pub proof fn lemma_fifo_dispatch(q: Seq<TaskId>, k: int)
    requires
        0 < k < q.len(),
    ensures
        q.skip(1)[k - 1] == q[k],
{
}

/// Wake-then-ready: invoking the waker of a parked task puts it at the tail
/// of the ready queue and empties its waker cell, so the next queue passes
/// dispatch it.
pub proof fn lemma_wake_then_ready(q: Seq<TaskId>, p: Seq<TaskId>, t: TaskId)
    requires
        tasks_distinct(p),
        p.contains(t),
    ensures
        wake_one(q, p, t).0.len() == q.len() + 1,
        wake_one(q, p, t).0[q.len() as int] == t,
        !wake_one(q, p, t).1.contains(t),
{
    let i = choose|i: int| 0 <= i < p.len() && p[i] == t;
    assert forall|j: int| 0 <= j < i implies p[j] != t by {
        assert(p[j] != p[i]);
    }
    lemma_remove_first_at(p, t, i);
    assert forall|j: int| 0 <= j < p.remove(i).len() implies p.remove(i)[j] != t by {
        if j < i {
            assert(p.remove(i)[j] == p[j]);
        } else {
            assert(p.remove(i)[j] == p[j + 1]);
        }
    }
}

/// Synchronous-wake safety: when the poll epilogue re-queues the task whose
/// waker fired during its own poll, the task stands in the queue exactly
/// once afterwards — at the tail, and nowhere else.
pub proof fn lemma_synchronous_wake_once(q: Seq<TaskId>, t: TaskId)
    requires
        tasks_distinct(q),
        !q.contains(t),
    ensures
        q.push(t)[q.len() as int] == t,
        forall|i: int| 0 <= i < q.push(t).len() && q.push(t)[i] == t ==> i == q.len(),
{
}

/// Releasing a timer entry that was just created restores the timer table
/// exactly: `wake_at_time` appends one entry, and removing that entry's id
/// takes the table back to where it stood.
pub proof fn lemma_timer_release_restores(s: Seq<TimerEntry>, e: TimerEntry)
    requires
        timer_ids_distinct(s),
        !contains_timer_id(s, e.id),
    ensures
        s.push(e).remove(s.len() as int) == s,
        forall|i: int|
            0 <= i < s.push(e).len() && s.push(e)[i].id == e.id ==> i == s.len() as int,
{
    assert(s.push(e).remove(s.len() as int) =~= s);
}

/// The smallest deadline really is the smallest: it bounds every entry from
/// below and is attained by some entry, so it bounds the next kernel wait.
pub proof fn lemma_min_deadline_bounds(ts: Seq<TimerEntry>)
    requires
        ts.len() > 0,
    ensures
        forall|i: int| 0 <= i < ts.len() ==> min_deadline(ts) <= #[trigger] ts[i].deadline,
        exists|i: int| 0 <= i < ts.len() && min_deadline(ts) == #[trigger] ts[i].deadline,
    decreases ts.len(),
{
    if ts.len() == 1 {
        assert(min_deadline(ts) == ts[0].deadline);
    } else {
        lemma_min_deadline_bounds(ts.skip(1));
        assert forall|i: int| 0 <= i < ts.len() implies min_deadline(ts)
            <= #[trigger] ts[i].deadline by {
            if i > 0 {
                assert(min_deadline(ts.skip(1)) <= ts.skip(1)[i - 1].deadline);
            }
        }
        let w = choose|i: int|
            0 <= i < ts.skip(1).len() && min_deadline(ts.skip(1)) == #[trigger] ts.skip(
                1,
            )[i].deadline;
        if min_deadline(ts) == ts[0].deadline {
            assert(min_deadline(ts) == ts[0].deadline);
        } else {
            assert(min_deadline(ts) == ts[w + 1].deadline);
        }
    }
}


/// Removing the first occurrence of `t` from a sequence whose members are
/// distinct and where `t` stands at index `i` drops exactly that index.
pub proof fn lemma_remove_first_at(s: Seq<TaskId>, t: TaskId, i: int)
    requires
        0 <= i < s.len(),
        s[i] == t,
        forall|j: int| 0 <= j < i ==> s[j] != t,
    ensures
        remove_first_task(s, t) == s.remove(i),
    decreases i,
{
    if i == 0 {
        assert(remove_first_task(s, t) == s.skip(1));
        assert(s.skip(1) =~= s.remove(0));
    } else {
        assert forall|j: int| 0 <= j < i - 1 implies s.skip(1)[j] != t by {
            assert(s.skip(1)[j] == s[j + 1]);
        }
        assert(s.skip(1)[i - 1] == t);
        lemma_remove_first_at(s.skip(1), t, i - 1);
        assert(remove_first_task(s, t) == seq![s[0]] + remove_first_task(s.skip(1), t));
        assert(seq![s[0]] + s.skip(1).remove(i - 1) =~= s.remove(i));
    }
}

} // verus!
