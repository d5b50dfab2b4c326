//! Decision logic of the TCP wrappers: the listener's edge-triggered
//! accept drain and the non-blocking connect protocol.
//!
//! The wrappers themselves own kernel sockets and live with the embedder;
//! what is verified here is the non-obvious state they keep. Because
//! readiness is edge-triggered, one wake of the listener must drain the
//! kernel's accept backlog completely: each accepted connection is queued
//! in a local FIFO, and only the step that finally observes a would-block
//! re-arms interest — then serves the oldest queued connection, or
//! suspends if none was drained. Later polls serve the remaining queued
//! connections directly, without touching the kernel or re-arming. A
//! non-blocking connect is classified by the call's return and `errno`:
//! transient conditions suspend until the socket turns writable,
//! already-connected reports count as success, everything else fails.

use vstd::prelude::*;

verus! {

/// `errno`: resource temporarily unavailable (Linux value).
pub const EAGAIN: i32 = 11;

/// `errno`: the socket is already connected (Linux value).
pub const EISCONN: i32 = 106;

/// `errno`: a previous connect attempt is still in progress (Linux
/// value).
pub const EALREADY: i32 = 114;

/// `errno`: the connect cannot complete immediately (Linux value).
pub const EINPROGRESS: i32 = 115;

/// What one `accept` call on the non-blocking listener reported.
#[derive(Debug, Copy, Clone, PartialEq, Eq, Structural)]
pub enum AcceptEvent {
    /// A connection was accepted (and appended to the local FIFO).
    Accepted,
    /// The backlog is drained: accepting again would block.
    WouldBlock,
    /// The call failed with the given `errno`.
    Failed { errno: i32 },
}

/// What the drain loop does next after an event.
#[derive(Debug, Copy, Clone, PartialEq, Eq, Structural)]
pub enum AcceptStep {
    /// Accept again: edge-triggered readiness will not fire for
    /// connections already pending.
    KeepDraining,
    /// Re-arm interest, then yield the oldest queued connection.
    Yield,
    /// Re-arm interest and suspend: nothing was drained.
    Suspend,
    /// Surface the failure with the given `errno`.
    Fail { errno: i32 },
}

/// Whether a step re-arms readiness interest: exactly the steps decided
/// by a would-block do, once, before yielding or suspending.
pub open spec fn rearms(r: AcceptStep) -> bool {
    r is Yield || r is Suspend
}

/// One step of the listener's edge-triggered drain, as a function:
/// `queued` counts accepted, not-yet-yielded connections.
pub open spec fn accept_step_spec(queued: nat, ev: AcceptEvent) -> (nat, AcceptStep) {
    match ev {
        AcceptEvent::Accepted => (queued + 1, AcceptStep::KeepDraining),
        AcceptEvent::WouldBlock => if queued > 0 {
            ((queued - 1) as nat, AcceptStep::Yield)
        } else {
            (0, AcceptStep::Suspend)
        },
        AcceptEvent::Failed { errno } => (queued, AcceptStep::Fail { errno }),
    }
}

/// One step of the listener's edge-triggered drain. `queued` counts
/// accepted, not-yet-yielded connections; the embedder holds the
/// connections themselves in a FIFO whose length mirrors it.
pub fn accept_step(queued: &mut u64, ev: AcceptEvent) -> (r: AcceptStep)
    requires
        *old(queued) < u64::MAX,
    ensures
        (*final(queued) as nat, r) == accept_step_spec(*old(queued) as nat, ev),
        ev is Accepted ==> r is KeepDraining && *final(queued) == *old(queued) + 1,
        ev is WouldBlock && *old(queued) > 0 ==> r is Yield && *final(queued) == *old(queued) - 1,
        ev is WouldBlock && *old(queued) == 0 ==> r is Suspend && *final(queued) == 0,
        ev is Failed ==> r is Fail && r->errno == ev->errno && *final(queued) == *old(queued),
        rearms(r) <==> ev is WouldBlock,
{
    match ev {
        AcceptEvent::Accepted => {
            *queued = *queued + 1;
            AcceptStep::KeepDraining
        },
        AcceptEvent::WouldBlock => {
            if *queued > 0 {
                *queued = *queued - 1;
                AcceptStep::Yield
            } else {
                AcceptStep::Suspend
            }
        },
        AcceptEvent::Failed { errno } => AcceptStep::Fail { errno },
    }
}

/// One poll's entire drain loop, replayed over the events the kernel
/// hands back in order: the steps taken, stopping at the first one that
/// does not keep draining.
pub open spec fn drain_spec(queued: nat, evs: Seq<AcceptEvent>) -> Seq<AcceptStep>
    decreases evs.len(),
{
    if evs.len() == 0 {
        Seq::<AcceptStep>::empty()
    } else {
        let (q1, r) = accept_step_spec(queued, evs[0]);
        if r is KeepDraining {
            seq![r] + drain_spec(q1, evs.drop_first())
        } else {
            seq![r]
        }
    }
}

/// Within one poll of the listener, readiness interest is re-armed at
/// most once, and only by a step that observed a would-block: every step
/// before the last keeps draining, so once interest is re-armed the loop
/// is over and a second re-arm cannot occur.
pub proof fn lemma_poll_rearms_at_most_once(queued: nat, evs: Seq<AcceptEvent>)
    ensures
        ({
            let steps = drain_spec(queued, evs);
            &&& steps.len() <= evs.len()
            &&& forall|i: int|
                0 <= i < steps.len() && rearms(#[trigger] steps[i]) ==> i == steps.len() - 1
            &&& forall|i: int|
                0 <= i < steps.len() && rearms(#[trigger] steps[i]) ==> evs[i] is WouldBlock
        }),
    decreases evs.len(),
{
    let steps = drain_spec(queued, evs);
    if evs.len() > 0 {
        let (q1, r) = accept_step_spec(queued, evs[0]);
        if r is KeepDraining {
            let rest = drain_spec(q1, evs.drop_first());
            lemma_poll_rearms_at_most_once(q1, evs.drop_first());
            assert(steps == seq![r] + rest);
            assert forall|i: int|
                0 <= i < steps.len() && rearms(#[trigger] steps[i]) implies i == steps.len() - 1
                && evs[i] is WouldBlock by {
                assert(steps[0] == r);
                if i >= 1 {
                    assert(steps[i] == rest[i - 1]);
                    assert(evs.drop_first()[i - 1] == evs[i]);
                }
            }
        } else {
            assert(steps == seq![r]);
            assert(steps[0] == r);
        }
    }
}

/// The outcome of one non-blocking `connect` attempt.
#[derive(Debug, Copy, Clone, PartialEq, Eq, Structural)]
pub enum ConnectStep {
    /// The connection is underway: register for write readiness and
    /// suspend — the socket turns writable once it is established.
    Pending,
    /// The socket is connected.
    Connected,
    /// The attempt failed; the caller surfaces its `errno`.
    Fail,
}

/// Classifies the result of a non-blocking `connect`: `rc` is the call's
/// return value, `errno` the error number when `rc == -1`. The transient
/// conditions suspend, an already-connected report is success, anything
/// else is a failure.
pub fn connect_step(rc: i32, errno: i32) -> (r: ConnectStep)
    ensures
        r is Pending <==> (rc == -1 && (errno == EAGAIN || errno == EALREADY || errno
            == EINPROGRESS)),
        r is Connected <==> (rc == 0 || (rc == -1 && errno == EISCONN)),
        r is Fail <==> !(rc == 0 || (rc == -1 && (errno == EAGAIN || errno == EALREADY || errno
            == EINPROGRESS || errno == EISCONN))),
{
    if rc == 0 {
        ConnectStep::Connected
    } else if rc == -1 {
        if errno == EAGAIN || errno == EALREADY || errno == EINPROGRESS {
            ConnectStep::Pending
        } else if errno == EISCONN {
            ConnectStep::Connected
        } else {
            ConnectStep::Fail
        }
    } else {
        ConnectStep::Fail
    }
}

} // verus!
