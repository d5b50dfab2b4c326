//! Traits and type definitions for asynchronous I/O.
//!
//! These traits bound what the runtime asks of a non-blocking I/O object:
//! a single-step poll that either completes with a result or reports that
//! the operation would block, after arranging — through the scheduler —
//! to be woken when it can make progress. The TCP wrappers around kernel
//! sockets implement them on the embedder's side.

use vstd::prelude::*;

verus! {

/// The outcome of one poll of a suspendable operation: either the
/// operation completed with a value, or it would block and has arranged
/// to be woken.
#[derive(Debug, Copy, Clone, PartialEq, Eq, Structural)]
pub enum Poll<T> {
    /// The operation completed.
    Ready(T),
    /// The operation would block; a wakeup has been registered.
    Pending,
}

/// An I/O failure, carried as the kernel's error number.
#[derive(Debug, Copy, Clone, PartialEq, Eq, Structural)]
pub struct IoError {
    /// The `errno` value the failing call reported.
    pub errno: i32,
}

/// Reads bytes from a source.
///
/// This trait is analogous to a blocking reader, but integrates with the
/// asynchronous task system: a read that would block returns
/// [`Poll::Pending`] after registering for read readiness.
pub trait AsyncRead {
    /// Attempts to read bytes into `buf`, returning the number of bytes
    /// read.
    ///
    /// Returns [`Poll::Pending`] if the read operation would block.
    fn poll_read(&mut self, buf: &mut Vec<u8>) -> Poll<Result<usize, IoError>>;
}

/// Writes bytes asynchronously.
///
/// The implementor wraps a non-blocking writer: a write that would block
/// returns [`Poll::Pending`] after registering for write readiness.
pub trait AsyncWrite {
    /// Attempts to write bytes from `buf`, returning the number of bytes
    /// written.
    ///
    /// Returns [`Poll::Pending`] if the write operation would block.
    fn poll_write(&mut self, buf: &Vec<u8>) -> Poll<Result<usize, IoError>>;

    /// Flushes any buffered data.
    fn poll_flush(&mut self) -> Poll<Result<(), IoError>>;

    /// Shuts down the write half of this object.
    fn poll_shutdown(&mut self) -> Poll<Result<(), IoError>>;
}

} // verus!
