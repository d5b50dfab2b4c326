//! The sleep suspendable.
//!
//! A sleep holds an absolute deadline on the runtime's monotonic clock
//! (milliseconds from the embedder's origin) and a flag recording whether
//! it has already registered a timer. Polled at or past its deadline it
//! resolves; before that, the first poll registers the polling task's
//! wakeup with the timer wheel and later polls — spurious wakes — merely
//! re-check the deadline without registering again.

use vstd::prelude::*;

use crate::sched::{cur_of, SchedView, Scheduler};
use crate::task::TaskId;
use crate::timer::TimerEntry;

verus! {

/// Suspendable returned by [`sleep`] and [`sleep_until`], resolving once
/// its deadline has passed.
#[derive(Debug, Copy, Clone, PartialEq, Eq, Structural)]
pub struct Sleep {
    /// Point in time to wake the associated task.
    wake_at: u64,
    /// Indicates whether the `Sleep` has been registered with the
    /// scheduler's timer wheel.
    registered: bool,
}

impl Sleep {
    /// The absolute instant the sleep waits for.
    pub closed spec fn spec_wake_at(&self) -> u64 {
        self.wake_at
    }

    /// Whether a timer has been registered for this sleep.
    pub closed spec fn spec_registered(&self) -> bool {
        self.registered
    }

    /// Creates a new `Sleep` which waits until the absolute instant
    /// `deadline`.
    pub fn new_timeout(deadline: u64) -> (r: Sleep)
        ensures
            r.spec_wake_at() == deadline,
            !r.spec_registered(),
    {
        Sleep { wake_at: deadline, registered: false }
    }

    /// Polls the sleep at instant `now`, from within the poll of the task
    /// awaiting it. Resolved (`true`) exactly when `now` has reached the
    /// deadline — so a zero-duration sleep resolves on its very first
    /// poll. An unresolved first poll registers the polling task's wakeup
    /// at the deadline; later polls never register a second timer.
    pub fn poll(&mut self, now: u64, sched: &mut Scheduler) -> (r: bool)
        requires
            old(sched).inv(),
            old(sched)@.current is Some,
        ensures
            final(sched).inv(),
            r == (now >= old(self).spec_wake_at()),
            final(self).spec_wake_at() == old(self).spec_wake_at(),
            final(self).spec_registered() == (old(self).spec_registered() || !r),
            (r || old(self).spec_registered()) ==> final(sched)@ == old(sched)@,
            (!r && !old(self).spec_registered()) ==> final(sched)@ == (SchedView {
                timers: old(sched)@.timers.insert(
                    TimerEntry {
                        deadline: old(self).spec_wake_at(),
                        task: TaskId(cur_of(old(sched)@)),
                    },
                ),
                ..old(sched)@
            }),
    {
        if now >= self.wake_at {
            return true;
        }
        if !self.registered {
            self.registered = true;
            sched.register_timer(self.wake_at);
        }
        false
    }
}

/// Waits until `duration` milliseconds have elapsed from `now`, the
/// current instant of the runtime's monotonic clock.
///
/// This is equivalent to calling `sleep_until(now + duration)`, and
/// functions as an asynchronous alternative to blocking the thread.
pub fn sleep(now: u64, duration: u64) -> (r: Sleep)
    requires
        now + duration <= u64::MAX,
    ensures
        r.spec_wake_at() == now + duration,
        !r.spec_registered(),
{
    // Wait for a relative amount of time from the current instant.
    Sleep::new_timeout(now + duration)
}

/// Waits until the absolute instant `deadline` is reached.
pub fn sleep_until(deadline: u64) -> (r: Sleep)
    ensures
        r.spec_wake_at() == deadline,
        !r.spec_registered(),
{
    // Wait until the specific absolute time.
    Sleep::new_timeout(deadline)
}

} // verus!
