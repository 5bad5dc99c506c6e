//! Tests of the I/O leaves: the sleep future, the byte-stream endpoint, the
//! buffered line reader, and the acceptor queue.

use uniloop::async_buf_reader::{AsyncBufReader, LineStep};
use uniloop::async_file::{write_all_step, AsyncFile, ReadEnd};
use uniloop::async_sleep::async_sleep;
use uniloop::async_tcp_listener::AsyncTcpListener;
use uniloop::executor::Executor;
use uniloop::listen_socket::ListenSocket;
use uniloop::types::{AsyncRead, RuntimeError};

fn feed(reader: &mut AsyncBufReader, bytes: &[u8], eof: bool) -> Result<LineStep, RuntimeError> {
    let v: Vec<u8> = bytes.to_vec();
    let n = v.len();
    reader.read_line_step(&v, n, eof)
}

#[test]
fn read_line_returns_the_first_line_without_its_newline() {
    let mut r = AsyncBufReader::new();
    let step = feed(&mut r, b"echo hello\nrest", false).unwrap();
    assert_eq!(step, LineStep::Line(String::from("echo hello")));
    assert_eq!(r.buf, b"rest".to_vec());
}

#[test]
fn read_line_strips_carriage_returns() {
    let mut r = AsyncBufReader::new();
    let step = feed(&mut r, b"ab\r\ncd", false).unwrap();
    assert_eq!(step, LineStep::Line(String::from("ab")));
    assert_eq!(r.buf, b"cd".to_vec());
}

#[test]
fn partial_line_completes_on_the_next_read() {
    let mut r = AsyncBufReader::new();
    let step = feed(&mut r, b"echo ab", false).unwrap();
    assert_eq!(step, LineStep::NeedMore);
    let step = feed(&mut r, b"c\n", false).unwrap();
    assert_eq!(step, LineStep::Line(String::from("echo abc")));
}

#[test]
fn eof_without_newline_ends_the_stream_and_keeps_the_leftover() {
    let mut r = AsyncBufReader::new();
    let step = feed(&mut r, b"echo abc", false).unwrap();
    assert_eq!(step, LineStep::NeedMore);
    let step = feed(&mut r, b"", true).unwrap();
    assert_eq!(step, LineStep::EndOfStream);
    // The drop path pushes the partial line back unchanged.
    assert_eq!(r.take_remaining(), b"echo abc".to_vec());
    assert!(r.buf.is_empty());
}

#[test]
fn invalid_utf8_in_a_line_is_a_decode_error() {
    let mut r = AsyncBufReader::new();
    let step = feed(&mut r, &[0xff, 0xfe, b'\n'], false);
    assert_eq!(step, Err(RuntimeError::Utf8Decode));
}

#[test]
fn lines_and_pushback_reproduce_the_stream_minus_carriage_returns() {
    let mut r = AsyncBufReader::new();
    let original = b"one\r\ntwo\nlefty";
    let mut restored: Vec<u8> = Vec::new();
    let mut step = feed(&mut r, original, false).unwrap();
    while let LineStep::Line(line) = step {
        restored.extend_from_slice(line.as_bytes());
        restored.push(b'\n');
        step = feed(&mut r, b"", false).unwrap();
    }
    restored.extend_from_slice(&r.take_remaining());
    assert_eq!(restored, b"one\ntwo\nlefty".to_vec());
}

#[test]
fn poll_read_delivers_buffered_and_drained_bytes_up_to_want() {
    let mut f = AsyncFile::from_fd(5);
    assert_eq!(f.fd(), 5);
    let out = f.poll_read(&b"xyz".to_vec(), ReadEnd::WouldBlock, 2);
    assert_eq!(out, Some(b"xy".to_vec()));
    assert_eq!(f.read_buffer, b"z".to_vec());
    // The leftover byte is delivered next, even though nothing new arrived.
    let out = f.poll_read(&Vec::new(), ReadEnd::WouldBlock, 8);
    assert_eq!(out, Some(b"z".to_vec()));
    // Nothing buffered and the kernel would block: the caller must park.
    let out = f.poll_read(&Vec::new(), ReadEnd::WouldBlock, 8);
    assert_eq!(out, None);
    // Nothing buffered at end of stream: the empty read means EOF.
    let out = f.poll_read(&Vec::new(), ReadEnd::Eof, 8);
    assert_eq!(out, Some(Vec::new()));
}

#[test]
fn pushed_back_bytes_come_out_first_in_original_order() {
    let mut f = AsyncFile::from_fd(5);
    let _ = f.poll_read(&b"cd".to_vec(), ReadEnd::WouldBlock, 0);
    f.take_buffer_back(&b"ab".to_vec());
    let out = f.poll_read(&Vec::new(), ReadEnd::WouldBlock, 4);
    assert_eq!(out, Some(b"abcd".to_vec()));
}

#[test]
fn writing_a_whole_buffer_advances_or_fails_short() {
    assert_eq!(write_all_step(10, 0, 4), Ok(4));
    assert_eq!(write_all_step(10, 4, 6), Ok(10));
    assert_eq!(write_all_step(10, 4, 0), Err(RuntimeError::WriteZero));
}

#[test]
fn accepted_connections_are_delivered_in_arrival_order() {
    let mut l = AsyncTcpListener::from_socket(ListenSocket::from_fd(4));
    assert_eq!(l.listen_socket.fd(), 4);
    assert_eq!(l.incoming(), None);
    l.push_accepted(7);
    l.push_accepted(8);
    l.push_accepted(9);
    assert_eq!(l.incoming(), Some(7));
    assert_eq!(l.incoming(), Some(8));
    assert_eq!(l.incoming(), Some(9));
    assert_eq!(l.incoming(), None);
}

#[test]
fn sleep_resolves_no_earlier_than_its_duration() {
    let mut ex = Executor::new(3);
    let t = ex.spawn();
    assert_eq!(ex.begin_poll(), Some(t));
    // Created at time 5 with duration 10: the deadline is 15.
    let sleep = async_sleep(&mut ex, 5, 10);
    assert_eq!(sleep.time, 15);
    assert!(!sleep.poll(&mut ex, 5, t));
    assert!(!sleep.poll(&mut ex, 14, t));
    assert!(sleep.poll(&mut ex, 15, t));
    assert!(sleep.poll(&mut ex, 40, t));
}

#[test]
fn two_sleepers_wake_in_deadline_order() {
    let mut ex = Executor::new(3);
    let t50 = ex.spawn();
    let t10 = ex.spawn();
    // Task t50 polls first and parks on a 50 ms sleep started at time 0.
    assert_eq!(ex.begin_poll(), Some(t50));
    let s50 = async_sleep(&mut ex, 0, 50);
    assert!(!s50.poll(&mut ex, 0, t50));
    ex.end_poll(false);
    // Task t10 parks on a 10 ms sleep.
    assert_eq!(ex.begin_poll(), Some(t10));
    let s10 = async_sleep(&mut ex, 0, 10);
    assert!(!s10.poll(&mut ex, 0, t10));
    ex.end_poll(false);
    assert_eq!(ex.begin_poll(), None);
    // The loop waits out the nearest deadline, then fires the timers: the
    // 10 ms sleeper runs before the 50 ms one.
    let mut order: Vec<u64> = Vec::new();
    assert_eq!(ex.next_timeout(0), Some(10));
    ex.fire_due_timers(10);
    while let Some(task) = ex.begin_poll() {
        order.push(task);
        ex.end_poll(true);
    }
    assert_eq!(ex.next_timeout(10), Some(40));
    ex.fire_due_timers(50);
    while let Some(task) = ex.begin_poll() {
        order.push(task);
        ex.end_poll(true);
    }
    assert_eq!(order, vec![t10, t50]);
}
