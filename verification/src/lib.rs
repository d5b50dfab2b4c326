//! A minimal, single-threaded, cooperative asynchronous runtime core.
//!
//! The crate verifies the bookkeeping at the heart of such a runtime: a
//! binary min-heap, a timer wheel ordered by deadline, the readiness
//! driver's registration table, the task scheduler's state machine, the
//! sleep suspendable, and the TCP wrappers' decision logic — the
//! edge-triggered accept drain and the non-blocking connect protocol.
//! The pieces that must touch the kernel (epoll, sockets) or the raw
//! waker vtable live outside the verified library and drive these state
//! machines through their contracts.

pub mod driver;
pub mod io;
pub mod min_heap;
pub mod net;
pub mod sched;
pub mod sleep;
pub mod task;
pub mod timer;
