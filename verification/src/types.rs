use vstd::prelude::*;

verus! {

/// A raw Unix file descriptor, as the kernel hands them out.
pub type RawFd = i32;

/// Identifies one submitted task for the whole of its life.
pub type TaskId = u64;

/// Identifies one readiness registration in the fd registry.
pub type EpollEntryId = u64;

/// Identifies one entry in the executor's timer table.
pub type TimerId = u64;

/// How many bytes one non-blocking read asks the kernel for.
pub const BUF_SIZE: usize = 1024;

/// The direction of interest for a readiness registration.
#[derive(Clone, Copy, Debug, PartialEq, Eq, Structural)]
pub enum Operation {
    READ,
    WRITE,
}

/// The errors this library's own logic can produce. Errors coming straight
/// from a system call stay with the unverified caller that made the call.
#[derive(Clone, Copy, Debug, PartialEq, Eq, Structural)]
pub enum RuntimeError {
    /// A completed line handed out by the buffered reader was not valid UTF-8.
    Utf8Decode,
    /// A sink accepted zero bytes of a non-empty buffer, so writing the
    /// whole buffer can make no progress.
    WriteZero,
}

/// The asynchronous read capability: a source of bytes that buffers what
/// was read but not consumed, and takes unconsumed bytes back. The buffered
/// line reader returns its leftover through `take_buffer_back`, so the next
/// reader over the same source sees the stream intact.
pub trait AsyncRead {
    /// The bytes the source holds ready for its next reader, in stream order.
    spec fn read_buffer_view(&self) -> Seq<u8>;

    /// Push unconsumed bytes back: they reappear, in their original order,
    /// ahead of everything the source still buffers.
    fn take_buffer_back(&mut self, buf: &Vec<u8>)
        ensures
            final(self).read_buffer_view() == buf@ + old(self).read_buffer_view(),
    ;
}

} // verus!
