//! Task identity and per-task scheduling state.
//!
//! A task's computation is a type-erased suspendable value that only the
//! embedder can poll; the scheduler tracks the task's identity and its
//! "already queued" flag, which is all the bookkeeping the event loop
//! needs.

use vstd::prelude::*;

verus! {

/// Unique identifier for a [`Task`], allocated from a monotonically
/// increasing counter. Equality, ordering and hashing are by the integer
/// value.
#[derive(Debug, Copy, Clone, PartialEq, Eq, Structural, Hash)]
pub struct TaskId(pub u64);

impl TaskId {
    /// Allocates the next identifier from `counter`, advancing it.
    pub fn new(counter: &mut u64) -> (r: TaskId)
        requires
            *old(counter) < u64::MAX,
        ensures
            r.0 == *old(counter),
            *final(counter) == *old(counter) + 1,
    {
        let id = *counter;
        *counter = *counter + 1;
        TaskId(id)
    }
}

/// Lightweight, non-blocking unit of execution, managed by the runtime
/// rather than the OS scheduler. The computation itself stays with the
/// embedder; this record carries what the scheduler must know about it.
#[derive(Debug, Copy, Clone, PartialEq, Eq, Structural)]
pub struct Task {
    /// Used to uniquely identify the task.
    pub id: TaskId,
    /// Indicates whether the task has already been scheduled for polling.
    /// This avoids re-queuing already scheduled tasks.
    pub scheduled: bool,
}

impl Task {
    /// Creates a new `Task` record for a freshly allocated identifier; a
    /// new task is not yet queued for polling.
    pub fn new(id: TaskId) -> (r: Task)
        ensures
            r.id == id,
            r.scheduled == false,
    {
        Task { id, scheduled: false }
    }
}

} // verus!
