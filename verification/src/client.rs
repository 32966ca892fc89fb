//! The load client's decision logic.
//!
//! The client spawns a configured number of independent workers; each worker
//! performs a configured number of sequential iterations of: connect to the
//! target, send nothing, read until the peer closes, record the outcome. A
//! failed connect or read is recorded and never aborts the worker's
//! remaining iterations or any other worker; the run is complete only when
//! every worker has recorded every iteration. The connects and reads happen
//! outside the library; the loop that drives them feeds each outcome into
//! the worker state held here.

use vstd::prelude::*;
use crate::config::clamped;

verus! {

/// How one client iteration ended.
#[derive(Clone, Copy, Debug, PartialEq, Eq, Structural)]
pub enum FetchOutcome {
    /// The connection was made and the response was read to end-of-stream.
    Received,
    /// The connection could not be made.
    ConnectFailed,
    /// The connection was made but reading the response failed.
    ReadFailed,
}

/// One worker's progress through its iterations.
#[derive(Clone, Copy, Debug, PartialEq, Eq, Structural)]
pub struct WorkerState {
    /// Iterations not yet performed.
    pub remaining: u32,
    /// Iterations that received a full response.
    pub received: u32,
    /// Iterations whose connect failed.
    pub connect_failures: u32,
    /// Iterations whose read failed.
    pub read_failures: u32,
}

impl WorkerState {
    /// Iterations this worker was asked to perform in all, done or not.
    pub open spec fn total(self) -> int {
        self.remaining + self.received + self.connect_failures + self.read_failures
    }

    /// The counters never outgrow the iterations the worker started with,
    /// so recording an outcome cannot overflow them.
    pub open spec fn wf(self) -> bool {
        self.total() <= u32::MAX
    }

    /// The state a worker starts in for a requested iteration count:
    /// everything still to do, nothing recorded. A request below one is
    /// clamped to one.
    pub open spec fn start_spec(count: u32) -> WorkerState {
        WorkerState { remaining: clamped(count), received: 0, connect_failures: 0, read_failures: 0 }
    }

    /// Start a worker for a requested iteration count.
    pub fn start(count: u32) -> (r: WorkerState)
        ensures
            r == WorkerState::start_spec(count),
            r.wf(),
            r.remaining >= 1,
    {
        WorkerState {
            remaining: crate::config::clamp_to_positive(count),
            received: 0,
            connect_failures: 0,
            read_failures: 0,
        }
    }

    /// The state after one iteration ends with the given outcome: one fewer
    /// iteration to do, the matching counter one higher, nothing else
    /// touched.
    pub open spec fn record_spec(self, outcome: FetchOutcome) -> WorkerState {
        match outcome {
            FetchOutcome::Received => WorkerState {
                remaining: (self.remaining - 1) as u32,
                received: (self.received + 1) as u32,
                ..self
            },
            FetchOutcome::ConnectFailed => WorkerState {
                remaining: (self.remaining - 1) as u32,
                connect_failures: (self.connect_failures + 1) as u32,
                ..self
            },
            FetchOutcome::ReadFailed => WorkerState {
                remaining: (self.remaining - 1) as u32,
                read_failures: (self.read_failures + 1) as u32,
                ..self
            },
        }
    }

    /// Record the outcome of one iteration. Every outcome, failures
    /// included, is absorbed the same way: the worker moves on to its next
    /// iteration, and the total it was asked to perform is conserved.
    pub fn record(self, outcome: FetchOutcome) -> (r: WorkerState)
        requires
            self.remaining >= 1,
            self.wf(),
        ensures
            r == self.record_spec(outcome),
            r.remaining == self.remaining - 1,
            r.total() == self.total(),
            r.wf(),
    {
        match outcome {
            FetchOutcome::Received => WorkerState {
                remaining: self.remaining - 1,
                received: self.received + 1,
                ..self
            },
            FetchOutcome::ConnectFailed => WorkerState {
                remaining: self.remaining - 1,
                connect_failures: self.connect_failures + 1,
                ..self
            },
            FetchOutcome::ReadFailed => WorkerState {
                remaining: self.remaining - 1,
                read_failures: self.read_failures + 1,
                ..self
            },
        }
    }

    /// Whether the worker has performed all its iterations.
    pub fn is_done(&self) -> (r: bool)
        ensures
            r == (self.remaining == 0),
    {
        self.remaining == 0
    }

    /// Iterations recorded so far, whatever their outcome.
    pub fn attempts(&self) -> (r: u32)
        requires
            self.wf(),
        ensures
            r == self.received + self.connect_failures + self.read_failures,
    {
        self.received + self.connect_failures + self.read_failures
    }
}

/// The worker state after a run of recorded outcomes.
pub open spec fn worker_after(init: WorkerState, outcomes: Seq<FetchOutcome>) -> WorkerState
    decreases outcomes.len(),
{
    if outcomes.len() == 0 {
        init
    } else {
        worker_after(init.record_spec(outcomes[0]), outcomes.drop_first())
    }
}

/// A worker runs to completion whatever the outcomes were: after starting
/// with a requested count and recording one outcome per iteration — any mix
/// of received responses, failed connects and failed reads — nothing remains
/// and every iteration is accounted for in the counters. Failures are
/// reported, never fatal.
pub proof fn lemma_worker_runs_to_completion(count: u32, outcomes: Seq<FetchOutcome>)
    requires
        outcomes.len() == clamped(count),
    ensures
        worker_after(WorkerState::start_spec(count), outcomes).remaining == 0,
        worker_after(WorkerState::start_spec(count), outcomes).total() == clamped(count),
{
    lemma_worker_conserves(WorkerState::start_spec(count), outcomes);
}

/// Recording any run of outcomes no longer than what remains consumes
/// exactly one remaining iteration per outcome and conserves the total.
pub proof fn lemma_worker_conserves(init: WorkerState, outcomes: Seq<FetchOutcome>)
    requires
        init.wf(),
        outcomes.len() <= init.remaining,
    ensures
        worker_after(init, outcomes).remaining == init.remaining - outcomes.len(),
        worker_after(init, outcomes).total() == init.total(),
        worker_after(init, outcomes).wf(),
    decreases outcomes.len(),
{
    if outcomes.len() > 0 {
        lemma_worker_conserves(init.record_spec(outcomes[0]), outcomes.drop_first());
    }
}

/// The whole run's planned iteration count: workers times requests per
/// worker, both clamped to at least one.
pub open spec fn planned_iterations_spec(workers: u32, requests: u32) -> int {
    clamped(workers) * clamped(requests)
}

/// How many iterations a run with the given worker and request counts
/// performs in all once every worker has joined.
pub fn planned_iterations(workers: u32, requests: u32) -> (r: u64)
    ensures
        r == planned_iterations_spec(workers, requests),
        r >= 1,
{
    let w = crate::config::clamp_to_positive(workers);
    let q = crate::config::clamp_to_positive(requests);
    proof {
        assert((w as u64) * (q as u64) <= u64::MAX && (w as u64) * (q as u64) >= 1) by (nonlinear_arith)
            requires
                1 <= w <= u32::MAX && 1 <= q <= u32::MAX,
        ;
    }
    (w as u64) * (q as u64)
}

} // verus!
