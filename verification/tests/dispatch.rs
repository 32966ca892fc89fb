use time868::dispatch::{
    effective_workers, listener_step, ListenerAction, ListenerEvent, ListenerPhase, Strategy,
};

#[test]
fn blocking_always_runs_alone() {
    assert_eq!(effective_workers(Strategy::Blocking, 0), 1);
    assert_eq!(effective_workers(Strategy::Blocking, 1), 1);
    assert_eq!(effective_workers(Strategy::Blocking, 8), 1);
}

#[test]
fn pool_and_async_clamp_workers() {
    assert_eq!(effective_workers(Strategy::WorkerPool, 0), 1);
    assert_eq!(effective_workers(Strategy::WorkerPool, 4), 4);
    assert_eq!(effective_workers(Strategy::Async, 0), 1);
    assert_eq!(effective_workers(Strategy::Async, 3), 3);
}

#[test]
fn bind_failure_is_fatal() {
    let (phase, action) = listener_step(ListenerPhase::Idle, ListenerEvent::BindFailed);
    assert_eq!(phase, ListenerPhase::Stopped);
    assert_eq!(action, ListenerAction::Exit);
}

#[test]
fn bind_success_starts_accepting() {
    let (phase, action) = listener_step(ListenerPhase::Idle, ListenerEvent::BindSucceeded);
    assert_eq!(phase, ListenerPhase::Bound);
    assert_eq!(action, ListenerAction::Accept);
}

#[test]
fn accepted_connection_is_handled_then_loop_continues() {
    let (phase, action) = listener_step(ListenerPhase::Bound, ListenerEvent::AcceptSucceeded);
    assert_eq!(phase, ListenerPhase::Accepting);
    assert_eq!(action, ListenerAction::HandleThenAccept);
    let (phase, action) = listener_step(ListenerPhase::Accepting, ListenerEvent::AcceptSucceeded);
    assert_eq!(phase, ListenerPhase::Accepting);
    assert_eq!(action, ListenerAction::HandleThenAccept);
}

#[test]
fn accept_failure_is_skipped() {
    let (phase, action) = listener_step(ListenerPhase::Accepting, ListenerEvent::AcceptFailed);
    assert_eq!(phase, ListenerPhase::Accepting);
    assert_eq!(action, ListenerAction::Accept);
}

#[test]
fn stopped_stays_stopped() {
    for event in [
        ListenerEvent::BindSucceeded,
        ListenerEvent::BindFailed,
        ListenerEvent::AcceptSucceeded,
        ListenerEvent::AcceptFailed,
    ] {
        let (phase, action) = listener_step(ListenerPhase::Stopped, event);
        assert_eq!(phase, ListenerPhase::Stopped);
        assert_eq!(action, ListenerAction::Exit);
    }
}
