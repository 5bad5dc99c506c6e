//! The listening socket: ownership of one non-blocking listening
//! descriptor. The surroundings create it (socket, setsockopt, bind,
//! listen) and call accept4 on it; this type only carries the descriptor
//! through the verified listener.

use vstd::prelude::*;

use crate::types::RawFd;

verus! {

/// A bound, listening, non-blocking stream socket.
pub struct ListenSocket {
    /// The listening descriptor, owned by this value; the surroundings
    /// close it when the socket is dropped.
    pub fd: RawFd,
}

impl ListenSocket {
    /// Wrap a listening descriptor that the surroundings set up.
    pub fn from_fd(fd: RawFd) -> (r: ListenSocket)
        ensures
            r.fd == fd,
    {
        ListenSocket { fd }
    }

    /// The listening descriptor.
    pub fn fd(&self) -> (r: RawFd)
        ensures
            r == self.fd,
    {
        self.fd
    }
}

} // verus!
