use rio::net::{
    accept_step, connect_step, AcceptEvent, AcceptStep, ConnectStep, EAGAIN, EALREADY,
    EINPROGRESS, EISCONN,
};

#[test]
fn edge_triggered_drain_queues_both_connections() {
    // Two connection attempts arrive between ticks. One poll's drain
    // loop accepts both, re-arms once on the final would-block, and
    // yields the first; the second is served by the next poll from the
    // queue, with no second re-arm.
    let mut queued: u64 = 0;

    assert_eq!(accept_step(&mut queued, AcceptEvent::Accepted), AcceptStep::KeepDraining);
    assert_eq!(queued, 1);
    assert_eq!(accept_step(&mut queued, AcceptEvent::Accepted), AcceptStep::KeepDraining);
    assert_eq!(queued, 2);
    // the backlog is empty: re-arm once, serve the oldest.
    assert_eq!(accept_step(&mut queued, AcceptEvent::WouldBlock), AcceptStep::Yield);
    assert_eq!(queued, 1);
    // the next poll serves the remaining connection from the queue
    // directly; the drain loop is not entered and nothing re-arms.
}

#[test]
fn accept_suspends_when_nothing_was_drained() {
    let mut queued: u64 = 0;
    assert_eq!(accept_step(&mut queued, AcceptEvent::WouldBlock), AcceptStep::Suspend);
    assert_eq!(queued, 0);
}

#[test]
fn accept_failure_surfaces_errno_and_keeps_queue() {
    let mut queued: u64 = 3;
    let step = accept_step(&mut queued, AcceptEvent::Failed { errno: 24 });
    assert_eq!(step, AcceptStep::Fail { errno: 24 });
    assert_eq!(queued, 3);
}

#[test]
fn connect_classifies_transient_conditions_as_pending() {
    assert_eq!(connect_step(-1, EAGAIN), ConnectStep::Pending);
    assert_eq!(connect_step(-1, EALREADY), ConnectStep::Pending);
    assert_eq!(connect_step(-1, EINPROGRESS), ConnectStep::Pending);
}

#[test]
fn connect_classifies_success() {
    // immediate success, and the already-connected report.
    assert_eq!(connect_step(0, 0), ConnectStep::Connected);
    assert_eq!(connect_step(-1, EISCONN), ConnectStep::Connected);
}

#[test]
fn connect_classifies_real_errors_as_failure() {
    // connection refused is surfaced to the caller.
    assert_eq!(connect_step(-1, 111), ConnectStep::Fail);
    // an out-of-protocol return value is a failure too.
    assert_eq!(connect_step(1, 0), ConnectStep::Fail);
}
