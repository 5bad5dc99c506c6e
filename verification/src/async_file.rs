//! The asynchronous byte-stream endpoint over one file descriptor.
//!
//! The unverified surroundings make the non-blocking `read` and `write`
//! system calls; everything the endpoint decides — how drained bytes and the
//! pushback buffer combine, how much of them a read delivers, when a read
//! must park, and when writing a whole buffer has to give up — is verified
//! here.

use vstd::prelude::*;

use crate::executor::min2;
use crate::types::{AsyncRead, RawFd, RuntimeError};

verus! {

/// How one round of draining non-blocking reads ended: the descriptor hit
/// end of stream, or the kernel would block (`EAGAIN`).
#[derive(Clone, Copy, PartialEq, Eq, Structural)]
pub enum ReadEnd {
    Eof,
    WouldBlock,
}

/// A byte-stream endpoint: the descriptor and the bytes read from the
/// kernel (or pushed back) that no caller has consumed yet.
pub struct AsyncFile {
    /// The descriptor, owned by the endpoint; the surroundings close it
    /// when the endpoint is dropped.
    pub fd: RawFd,
    /// Unconsumed bytes, in stream order.
    pub read_buffer: Vec<u8>,
}

impl AsyncFile {
    /// Wrap a descriptor; nothing is buffered yet.
    pub fn from_fd(fd: RawFd) -> (r: AsyncFile)
        ensures
            r.fd == fd,
            r.read_buffer@ == Seq::<u8>::empty(),
    {
        AsyncFile { fd, read_buffer: Vec::new() }
    }

    /// The wrapped descriptor.
    pub fn fd(&self) -> (r: RawFd)
        ensures
            r == self.fd,
    {
        self.fd
    }

    /// One poll of a read for up to `want` bytes. `drained` holds whatever a
    /// round of non-blocking reads pulled off the kernel before it ended as
    /// `end` says. If any bytes are available — buffered or freshly drained
    /// — up to `want` of them are delivered and consumed. With nothing
    /// available, end of stream delivers the empty answer, and a would-block
    /// returns `None`: the caller parks the task on read readiness.
    pub fn poll_read(&mut self, drained: &Vec<u8>, end: ReadEnd, want: usize) -> (r: Option<
        Vec<u8>,
    >)
        ensures
            final(self).fd == old(self).fd,
            ({
                let full = old(self).read_buffer@ + drained@;
                &&& (r is None <==> full.len() == 0 && end == ReadEnd::WouldBlock)
                &&& (r is None ==> final(self).read_buffer@ == old(self).read_buffer@)
                &&& (r is Some && full.len() == 0 ==> r->0@ == Seq::<u8>::empty()
                    && final(self).read_buffer@ == full)
                &&& (r is Some && full.len() > 0 ==> r->0@ == full.take(
                    min2(want as int, full.len() as int),
                ) && final(self).read_buffer@ == full.skip(min2(want as int, full.len() as int)))
            }),
    {
        self.read_buffer.extend_from_slice(drained.as_slice());
        if self.read_buffer.len() == 0 {
            match end {
                ReadEnd::Eof => Some(Vec::new()),
                ReadEnd::WouldBlock => None,
            }
        } else {
            let n = if want < self.read_buffer.len() {
                want
            } else {
                self.read_buffer.len()
            };
            let rest = self.read_buffer.split_off(n);
            let out = self.read_buffer.clone();
            self.read_buffer = rest;
            proof {
                let full = old(self).read_buffer@ + drained@;
                let m = min2(want as int, full.len() as int);
                assert(out@ =~= full.take(m));
                assert(self.read_buffer@ =~= full.skip(m));
            }
            Some(out)
        }
    }
}

impl AsyncRead for AsyncFile {
    /// The unconsumed bytes of the stream.
    open spec fn read_buffer_view(&self) -> Seq<u8> {
        self.read_buffer@
    }

    fn take_buffer_back(&mut self, buf: &Vec<u8>)
        ensures
            final(self).fd == old(self).fd,
    {
        let mut joined: Vec<u8> = Vec::new();
        joined.extend_from_slice(buf.as_slice());
        joined.extend_from_slice(self.read_buffer.as_slice());
        self.read_buffer = joined;
    }
}

/// One round of writing a whole buffer of `len` bytes: `pos` of them have
/// been accepted so far, and the latest non-blocking write accepted `n`
/// more. A kernel that accepts zero bytes of a non-empty remainder makes no
/// progress, so the round fails as a short write rather than loop forever;
/// otherwise the new position is handed back, and the caller is done once
/// it reaches `len`.
pub fn write_all_step(len: usize, pos: usize, n: usize) -> (r: Result<usize, RuntimeError>)
    requires
        pos < len,
        n <= len - pos,
    ensures
        n == 0 ==> r == Result::<usize, RuntimeError>::Err(RuntimeError::WriteZero),
        n > 0 ==> r == Result::<usize, RuntimeError>::Ok((pos + n) as usize),
    {
    if n == 0 {
        Err(RuntimeError::WriteZero)
    } else {
        Ok(pos + n)
    }
}

} // verus!
