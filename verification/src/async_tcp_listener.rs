//! The asynchronous TCP acceptor: a listening socket plus the queue of
//! connections accepted from the kernel but not yet handed to a caller.
//!
//! The surroundings run the accept4 loop until the kernel would block,
//! pushing each accepted descriptor with `push_accepted`; `incoming` then
//! delivers them strictly in arrival order, or reports that the task must
//! park on read readiness of the listening socket.

use vstd::prelude::*;

use crate::listen_socket::ListenSocket;
use crate::types::RawFd;

verus! {

/// A listening socket together with accepted-but-undelivered connections.
pub struct AsyncTcpListener {
    /// The listening socket.
    pub listen_socket: ListenSocket,
    /// Accepted client descriptors, oldest first.
    pub queue: Vec<RawFd>,
}

impl AsyncTcpListener {
    /// An acceptor over a listening socket; nothing is queued yet.
    pub fn from_socket(listen_socket: ListenSocket) -> (r: AsyncTcpListener)
        ensures
            r.listen_socket == listen_socket,
            r.queue@ == Seq::<RawFd>::empty(),
    {
        AsyncTcpListener { listen_socket, queue: Vec::new() }
    }

    /// Record one connection the kernel handed out.
    pub fn push_accepted(&mut self, fd: RawFd)
        ensures
            final(self).listen_socket == old(self).listen_socket,
            final(self).queue@ == old(self).queue@.push(fd),
    {
        self.queue.push(fd);
    }

    /// The next accepted connection, in arrival order. `None` means none is
    /// pending: the caller parks the task on read readiness of the
    /// listening socket and resumes when the kernel signals it.
    pub fn incoming(&mut self) -> (r: Option<RawFd>)
        ensures
            final(self).listen_socket == old(self).listen_socket,
            r is None <==> old(self).queue@.len() == 0,
            r is None ==> final(self).queue@ == old(self).queue@,
            r is Some ==> r->0 == old(self).queue@[0] && final(self).queue@ == old(
                self,
            ).queue@.skip(1),
    {
        if self.queue.len() == 0 {
            return None;
        }
        let fd = self.queue.remove(0);
        proof {
            assert(self.queue@ =~= old(self).queue@.skip(1));
        }
        Some(fd)
    }
}

} // verus!
