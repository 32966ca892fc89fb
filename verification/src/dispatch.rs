//! The dispatch strategies and the listener's lifecycle.
//!
//! Three interchangeable strategies schedule connection handling: a blocking
//! strategy that serves one connection to completion before accepting the
//! next, a worker-pool strategy that submits each accepted connection to a
//! fixed pool of threads, and an async strategy that spawns a cooperative
//! task per connection on a small set of scheduler threads. The strategies
//! differ only in scheduling, never in protocol behavior: every accepted
//! connection is handed exactly once to the same handler.
//!
//! The listener itself moves through the phases idle, bound, accepting and
//! stopped. Only a failure to bind is fatal; a failed accept is skipped and
//! the loop keeps accepting (a deliberate policy, so a single transient
//! error cannot kill the listener). There is no normal termination: the
//! service runs until the process is killed.

use vstd::prelude::*;
use crate::config::clamped;
use crate::handler::payload_spec;

verus! {

/// How accepted connections are scheduled for handling.
#[derive(Clone, Copy, Debug, PartialEq, Eq, Structural)]
pub enum Strategy {
    /// One control flow; each connection is handled to completion before the
    /// next accept. Concurrency is one whatever count is configured.
    Blocking,
    /// A fixed pool of worker threads; the accept loop submits each
    /// connection to the pool and never waits for it (fire and forget).
    WorkerPool,
    /// A cooperative scheduler; each connection becomes a task, and the
    /// configured count bounds the scheduler threads, not the tasks.
    Async,
}

/// The number of execution units a strategy actually runs with: one for the
/// blocking strategy, the clamped configured count for the other two.
pub open spec fn effective_workers_spec(s: Strategy, configured: u32) -> u32 {
    match s {
        Strategy::Blocking => 1u32,
        Strategy::WorkerPool => clamped(configured),
        Strategy::Async => clamped(configured),
    }
}

/// Resolve the configured worker count for a strategy.
pub fn effective_workers(s: Strategy, configured: u32) -> (r: u32)
    ensures
        r == effective_workers_spec(s, configured),
        r >= 1,
{
    match s {
        Strategy::Blocking => 1,
        Strategy::WorkerPool => crate::config::clamp_to_positive(configured),
        Strategy::Async => crate::config::clamp_to_positive(configured),
    }
}

/// The listener's lifecycle phase.
#[derive(Clone, Copy, Debug, PartialEq, Eq, Structural)]
pub enum ListenerPhase {
    /// Not yet bound to the configured address.
    Idle,
    /// Bound; no accept attempted yet.
    Bound,
    /// In the accept loop.
    Accepting,
    /// Stopped on a fatal error; no further work.
    Stopped,
}

/// What the runner observed since it was last told what to do.
#[derive(Clone, Copy, Debug, PartialEq, Eq, Structural)]
pub enum ListenerEvent {
    /// The bind call succeeded.
    BindSucceeded,
    /// The bind call failed: the address is unavailable.
    BindFailed,
    /// An accept call returned a connection.
    AcceptSucceeded,
    /// An accept call failed without yielding a connection.
    AcceptFailed,
}

/// What the runner must do next.
#[derive(Clone, Copy, Debug, PartialEq, Eq, Structural)]
pub enum ListenerAction {
    /// Attempt to bind to the configured address.
    Bind,
    /// Attempt to accept the next connection.
    Accept,
    /// Dispatch the accepted connection to the handler under the chosen
    /// strategy, then accept the next one.
    HandleThenAccept,
    /// Abort: report the fatal error and exit nonzero.
    Exit,
}

/// The listener's next phase after an event. Binding can only fail before
/// the loop starts; a failed accept leaves the listener accepting.
pub open spec fn listener_next_spec(phase: ListenerPhase, event: ListenerEvent) -> ListenerPhase {
    match phase {
        ListenerPhase::Idle => match event {
            ListenerEvent::BindSucceeded => ListenerPhase::Bound,
            ListenerEvent::BindFailed => ListenerPhase::Stopped,
            _ => ListenerPhase::Idle,
        },
        ListenerPhase::Bound => match event {
            ListenerEvent::AcceptSucceeded => ListenerPhase::Accepting,
            ListenerEvent::AcceptFailed => ListenerPhase::Accepting,
            _ => ListenerPhase::Bound,
        },
        ListenerPhase::Accepting => ListenerPhase::Accepting,
        ListenerPhase::Stopped => ListenerPhase::Stopped,
    }
}

/// The action owed in a phase: bind when idle, accept once bound, handle the
/// connection just accepted, exit once stopped.
pub open spec fn listener_action_spec(phase: ListenerPhase, event: ListenerEvent) -> ListenerAction {
    match listener_next_spec(phase, event) {
        ListenerPhase::Idle => ListenerAction::Bind,
        ListenerPhase::Bound => ListenerAction::Accept,
        ListenerPhase::Accepting => if event == ListenerEvent::AcceptSucceeded {
            ListenerAction::HandleThenAccept
        } else {
            ListenerAction::Accept
        },
        ListenerPhase::Stopped => ListenerAction::Exit,
    }
}

/// Advance the listener's state machine by one observed event and say what
/// to do next. An event that cannot occur in the current phase leaves the
/// phase unchanged.
pub fn listener_step(phase: ListenerPhase, event: ListenerEvent) -> (r: (
    ListenerPhase,
    ListenerAction,
))
    ensures
        r.0 == listener_next_spec(phase, event),
        r.1 == listener_action_spec(phase, event),
{
    let next = match phase {
        ListenerPhase::Idle => match event {
            ListenerEvent::BindSucceeded => ListenerPhase::Bound,
            ListenerEvent::BindFailed => ListenerPhase::Stopped,
            _ => ListenerPhase::Idle,
        },
        ListenerPhase::Bound => match event {
            ListenerEvent::AcceptSucceeded => ListenerPhase::Accepting,
            ListenerEvent::AcceptFailed => ListenerPhase::Accepting,
            _ => ListenerPhase::Bound,
        },
        ListenerPhase::Accepting => ListenerPhase::Accepting,
        ListenerPhase::Stopped => ListenerPhase::Stopped,
    };
    let action = match next {
        ListenerPhase::Idle => ListenerAction::Bind,
        ListenerPhase::Bound => ListenerAction::Accept,
        ListenerPhase::Accepting => match event {
            ListenerEvent::AcceptSucceeded => ListenerAction::HandleThenAccept,
            _ => ListenerAction::Accept,
        },
        ListenerPhase::Stopped => ListenerAction::Exit,
    };
    (next, action)
}

/// Only a bind failure is fatal: the listener reaches the stopped phase
/// exactly from a failed bind (or by already being stopped). In particular a
/// failed accept never stops the service.
pub proof fn lemma_only_bind_failure_stops(phase: ListenerPhase, event: ListenerEvent)
    ensures
        listener_next_spec(phase, event) == ListenerPhase::Stopped <==> (phase
            == ListenerPhase::Stopped || (phase == ListenerPhase::Idle && event
            == ListenerEvent::BindFailed)),
{
}

/// Once the accept loop runs, it runs forever: no event leaves the accepting
/// phase.
pub proof fn lemma_accepting_is_stable(event: ListenerEvent)
    ensures
        listener_next_spec(ListenerPhase::Accepting, event) == ListenerPhase::Accepting,
{
}

/// The responses a sequential stream of connections observes under a
/// strategy, given the clock reading taken for each connection. Every
/// strategy dispatches each accepted connection once to the same handler,
/// which is what each arm records.
pub open spec fn sequential_trace(s: Strategy, clocks: Seq<Option<u64>>) -> Seq<Seq<u8>>
    decreases clocks.len(),
{
    if clocks.len() == 0 {
        Seq::empty()
    } else {
        match s {
            Strategy::Blocking => seq![payload_spec(clocks[0])] + sequential_trace(
                s,
                clocks.drop_first(),
            ),
            Strategy::WorkerPool => seq![payload_spec(clocks[0])] + sequential_trace(
                s,
                clocks.drop_first(),
            ),
            Strategy::Async => seq![payload_spec(clocks[0])] + sequential_trace(
                s,
                clocks.drop_first(),
            ),
        }
    }
}

/// For a sequential stream of connections the three strategies are
/// observably equivalent: given the same clock readings, each connection
/// sees byte-identical responses under any two strategies. With a pool of
/// one worker this is exactly the statement that the worker-pool strategy
/// behaves as the blocking one does.
pub proof fn lemma_strategies_agree_sequentially(
    s1: Strategy,
    s2: Strategy,
    clocks: Seq<Option<u64>>,
)
    ensures
        sequential_trace(s1, clocks) == sequential_trace(s2, clocks),
    decreases clocks.len(),
{
    if clocks.len() == 0 {
    } else {
        lemma_strategies_agree_sequentially(s1, s2, clocks.drop_first());
    }
}

} // verus!
