//! A model of a single-threaded, readiness-driven asynchronous runtime.
//!
//! The executor multiplexes many cooperative tasks onto one thread. Tasks
//! suspend at well-defined points by registering interest in a file
//! descriptor's readiness or in a deadline; the surrounding program performs
//! the actual system calls (epoll, read, write, accept) and feeds their
//! outcomes back into the verified state machines defined here.

pub mod async_buf_reader;
pub mod async_file;
pub mod async_sleep;
pub mod async_tcp_listener;
pub mod epoll;
pub mod executor;
pub mod listen_socket;
pub mod types;
