use time868::client::{planned_iterations, FetchOutcome, WorkerState};

#[test]
fn worker_counts_every_outcome() {
    let mut state = WorkerState::start(6);
    for outcome in [
        FetchOutcome::Received,
        FetchOutcome::ConnectFailed,
        FetchOutcome::Received,
        FetchOutcome::ReadFailed,
        FetchOutcome::ConnectFailed,
        FetchOutcome::Received,
    ] {
        assert!(!state.is_done());
        state = state.record(outcome);
    }
    assert!(state.is_done());
    assert_eq!(state.attempts(), 6);
    assert_eq!(state.received, 3);
    assert_eq!(state.connect_failures, 2);
    assert_eq!(state.read_failures, 1);
}

#[test]
fn zero_requests_still_makes_one() {
    let state = WorkerState::start(0);
    assert_eq!(state.remaining, 1);
    assert_eq!(WorkerState::start(0), WorkerState::start(1));
}

#[test]
fn four_workers_of_ten_complete_all_forty() {
    // The load-client scenario: four workers, ten requests each, some
    // connects induced to fail. Every worker still records all ten
    // iterations, and the run totals forty attempts with no iteration lost.
    let mut total_attempts = 0u32;
    for worker in 0..4u32 {
        let mut state = WorkerState::start(10);
        for iteration in 0..10u32 {
            let outcome = if (worker + iteration) % 3 == 0 {
                FetchOutcome::ConnectFailed
            } else {
                FetchOutcome::Received
            };
            state = state.record(outcome);
        }
        assert!(state.is_done());
        assert_eq!(state.attempts(), 10);
        total_attempts += state.attempts();
    }
    assert_eq!(total_attempts, 40);
    assert_eq!(planned_iterations(4, 10), 40);
}

#[test]
fn planned_iterations_clamps_each_count() {
    assert_eq!(planned_iterations(0, 0), 1);
    assert_eq!(planned_iterations(0, 7), 7);
    assert_eq!(planned_iterations(3, 0), 3);
    assert_eq!(planned_iterations(1000, 1000), 1000000);
    assert_eq!(planned_iterations(u32::MAX, u32::MAX), (u32::MAX as u64) * (u32::MAX as u64));
}
