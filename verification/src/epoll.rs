//! The fd registry: a model of the bookkeeping around one kernel readiness
//! set. It maps monotonically increasing registration ids to the duplicated
//! descriptor being watched, the direction of interest, and the task to wake
//! when the kernel reports readiness. The system calls themselves
//! (epoll_create1, epoll_ctl, epoll_wait, close) are made by the unverified
//! surroundings, which keep the kernel set in step with this table.

use vstd::prelude::*;

use crate::types::{EpollEntryId, Operation, RawFd, TaskId};

verus! {

/// The most events one wait drains; the rest stay latched by edge triggering.
pub const EPOLL_EVENTS_LIMIT: usize = 100;

/// One readiness registration.
#[derive(Clone, Copy)]
pub struct EpollEntry {
    /// The registration id handed back by `add`.
    pub id: EpollEntryId,
    /// The duplicated descriptor that the kernel set watches. It is closed
    /// when the registration is removed.
    pub fd: RawFd,
    /// The direction of interest.
    pub op: Operation,
    /// The task to wake on readiness; `None` until a waker is installed.
    pub waker: Option<TaskId>,
}

/// No two registrations share an id.
pub open spec fn entry_ids_distinct(s: Seq<EpollEntry>) -> bool {
    forall|i: int, j: int| 0 <= i < j < s.len() ==> s[i].id != s[j].id
}

/// Every registration id was allocated below the counter `bound`.
pub open spec fn entry_ids_below(s: Seq<EpollEntry>, bound: EpollEntryId) -> bool {
    forall|i: int| 0 <= i < s.len() ==> s[i].id < bound
}

/// Some registration carries the id.
pub open spec fn contains_entry_id(s: Seq<EpollEntry>, id: EpollEntryId) -> bool {
    exists|i: int| 0 <= i < s.len() && s[i].id == id
}

/// The waker of the registration carrying `id`: `None` when the id is absent
/// or no waker has been installed yet.
pub open spec fn entry_waker(s: Seq<EpollEntry>, id: EpollEntryId) -> Option<TaskId>
    decreases s.len(),
{
    if s.len() == 0 {
        None
    } else if s[0].id == id {
        s[0].waker
    } else {
        entry_waker(s.skip(1), id)
    }
}

/// The registry of readiness registrations.
pub struct Epoll {
    /// The descriptor of the kernel readiness set itself, as the unverified
    /// surroundings created it.
    pub fd: RawFd,
    /// The next registration id to hand out.
    pub last_id: EpollEntryId,
    /// The live registrations, in order of insertion.
    pub handles: Vec<EpollEntry>,
}

impl Epoll {
    /// Ids are unique and below the allocation counter.
    pub open spec fn wf(self) -> bool {
        entry_ids_distinct(self.handles@) && entry_ids_below(self.handles@, self.last_id)
    }

    /// An empty registry around the given kernel set descriptor.
    pub fn new(fd: RawFd) -> (r: Epoll)
        ensures
            r.wf(),
            r.fd == fd,
            r.last_id == 0,
            r.handles@ == Seq::<EpollEntry>::empty(),
    {
        Epoll { fd, last_id: 0, handles: Vec::new() }
    }

    /// The descriptor of the kernel readiness set.
    pub fn fd(&self) -> (r: RawFd)
        ensures
            r == self.fd,
    {
        self.fd
    }

    /// How many registrations are live.
    pub fn len(&self) -> (r: usize)
        ensures
            r == self.handles@.len(),
    {
        self.handles.len()
    }

    /// Whether a registration with the id is live. The unverified
    /// surroundings test this before removing or dispatching.
    pub fn contains(&self, id: EpollEntryId) -> (r: bool)
        ensures
            r == contains_entry_id(self.handles@, id),
    {
        let mut i: usize = 0;
        while i < self.handles.len()
            invariant
                0 <= i <= self.handles@.len(),
                forall|j: int| 0 <= j < i ==> self.handles@[j].id != id,
            decreases self.handles@.len() - i,
        {
            if self.handles[i].id == id {
                return true;
            }
            i = i + 1;
        }
        false
    }

    /// Record interest in `fd` for direction `op` under a fresh id, with no
    /// waker installed yet. `fd` is the duplicate that the caller made and
    /// added to the kernel set; the registry owns it from here on.
    pub fn add(&mut self, fd: RawFd, op: Operation) -> (id: EpollEntryId)
        requires
            old(self).wf(),
            old(self).last_id < u64::MAX,
        ensures
            final(self).wf(),
            id == old(self).last_id,
            final(self).last_id == old(self).last_id + 1,
            final(self).fd == old(self).fd,
            !contains_entry_id(old(self).handles@, id),
            final(self).handles@ == old(self).handles@.push(
                EpollEntry { id, fd, op, waker: None },
            ),
    {
        let id = self.last_id;
        self.last_id = self.last_id + 1;
        self.handles.push(EpollEntry { id, fd, op, waker: None });
        id
    }

    /// Replace the waker of the registration carrying `id`. The kernel
    /// interest is untouched.
    pub fn modify(&mut self, id: EpollEntryId, task: TaskId)
        requires
            old(self).wf(),
            contains_entry_id(old(self).handles@, id),
        ensures
            final(self).wf(),
            final(self).fd == old(self).fd,
            final(self).last_id == old(self).last_id,
            final(self).handles@.len() == old(self).handles@.len(),
            forall|j: int|
                0 <= j < old(self).handles@.len() && old(self).handles@[j].id != id
                    ==> final(self).handles@[j] == old(self).handles@[j],
            forall|j: int|
                0 <= j < old(self).handles@.len() && old(self).handles@[j].id == id
                    ==> final(self).handles@[j] == (EpollEntry {
                        waker: Some(task),
                        ..old(self).handles@[j]
                    }),
    {
        let mut i: usize = 0;
        while i < self.handles.len()
            invariant
                0 <= i <= self.handles@.len(),
                old(self).wf(),
                forall|j: int| 0 <= j < i ==> self.handles@[j].id != id,
                self.handles@.len() == old(self).handles@.len(),
                self.fd == old(self).fd,
                self.last_id == old(self).last_id,
                forall|j: int| 0 <= j < self.handles@.len()
                    ==> self.handles@[j] == old(self).handles@[j],
            decreases self.handles@.len() - i,
        {
            if self.handles[i].id == id {
                proof {
                    let s = self.handles@;
                    assert forall|j: int| 0 <= j < s.len() && s[j].id == id implies j == i by {
                        if j > i {
                            assert(s[i as int].id != s[j].id);
                        }
                    }
                }
                let e = self.handles[i];
                self.handles.set(i, EpollEntry { waker: Some(task), ..e });
                proof {
                    let s0 = old(self).handles@;
                    let s1 = self.handles@;
                    assert forall|j: int| 0 <= j < s1.len() implies #[trigger] s1[j].id == s0[j].id by {
                        if j != i {
                            assert(s1[j] == s0[j]);
                        }
                    }
                }
                return;
            }
            i = i + 1;
        }
        proof {
            assert(false);
        }
    }

    /// Drop the registration carrying `id` and hand back its duplicated
    /// descriptor, which the caller detaches from the kernel set and closes.
    pub fn remove(&mut self, id: EpollEntryId) -> (fd: RawFd)
        requires
            old(self).wf(),
            contains_entry_id(old(self).handles@, id),
        ensures
            final(self).wf(),
            final(self).fd == old(self).fd,
            final(self).last_id == old(self).last_id,
            final(self).handles@.len() == old(self).handles@.len() - 1,
            !contains_entry_id(final(self).handles@, id),
            exists|i: int|
                0 <= i < old(self).handles@.len() && old(self).handles@[i].id == id
                    && fd == old(self).handles@[i].fd
                    && final(self).handles@ == old(self).handles@.remove(i),
    {
        let mut i: usize = 0;
        while i < self.handles.len()
            invariant
                0 <= i <= self.handles@.len(),
                old(self).wf(),
                contains_entry_id(old(self).handles@, id),
                forall|j: int| 0 <= j < i ==> self.handles@[j].id != id,
                self.handles@ == old(self).handles@,
                self.fd == old(self).fd,
                self.last_id == old(self).last_id,
            decreases self.handles@.len() - i,
        {
            if self.handles[i].id == id {
                let e = self.handles.remove(i);
                proof {
                    let s0 = old(self).handles@;
                    let s1 = self.handles@;
                    assert forall|j: int| 0 <= j < s1.len()
                        implies #[trigger] s1[j] == (if j < i { s0[j] } else { s0[j + 1] }) by {
                        assert(s1 == s0.subrange(0, i as int) + s0.subrange(
                            i as int + 1,
                            s0.len() as int,
                        ));
                    }
                    assert forall|j: int| 0 <= j < s1.len() implies #[trigger] s1[j].id != id by {
                        if j >= i {
                            assert(s0[i as int].id != s0[j + 1].id);
                        }
                    }
                    assert forall|p: int, q: int| 0 <= p < q < s1.len()
                        implies #[trigger] s1[p].id != #[trigger] s1[q].id by {
                        let p0: int = if p < i { p } else { p + 1 };
                        let q0: int = if q < i { q } else { q + 1 };
                        assert(s0[p0].id != s0[q0].id);
                    }
                }
                return e.fd;
            }
            i = i + 1;
        }
        proof {
            assert(false);
        }
        0
    }
}

/// Releasing a registration that was just added restores the registry's
/// contents exactly: `add` appends one entry, and removing that entry's id
/// takes the table back to where it stood. Together with the contracts of
/// `add` and `remove`, this says that a wake handle's registration leaves no
/// trace once released.
pub proof fn lemma_register_release_restores(s: Seq<EpollEntry>, e: EpollEntry)
    requires
        entry_ids_distinct(s),
        !contains_entry_id(s, e.id),
    ensures
        s.push(e).remove(s.len() as int) == s,
        forall|i: int|
            0 <= i < s.push(e).len() && s.push(e)[i].id == e.id ==> i == s.len() as int,
{
    assert(s.push(e).remove(s.len() as int) =~= s);
}

} // verus!
