use http_server::worker::{PoolSize, WorkerAction, WorkerEvent, WorkerState};

const STATES: [WorkerState; 3] = [WorkerState::Idle, WorkerState::Running, WorkerState::Stopped];

const EVENTS: [WorkerEvent; 5] = [
    WorkerEvent::JobReceived,
    WorkerEvent::JobFinished,
    WorkerEvent::JobFailed,
    WorkerEvent::ReceiveFailed,
    WorkerEvent::QueueClosed,
];

#[test]
fn idle_worker_runs_the_job_it_receives() {
    assert_eq!(
        WorkerState::Idle.step(WorkerEvent::JobReceived),
        Some((WorkerState::Running, WorkerAction::Run))
    );
}

#[test]
fn finished_job_frees_the_worker() {
    assert_eq!(
        WorkerState::Running.step(WorkerEvent::JobFinished),
        Some((WorkerState::Idle, WorkerAction::Receive))
    );
}

#[test]
fn failed_job_is_reported_and_the_worker_goes_on() {
    assert_eq!(
        WorkerState::Running.step(WorkerEvent::JobFailed),
        Some((WorkerState::Idle, WorkerAction::Report))
    );
}

#[test]
fn failed_receive_is_reported_and_the_worker_goes_on() {
    assert_eq!(
        WorkerState::Idle.step(WorkerEvent::ReceiveFailed),
        Some((WorkerState::Idle, WorkerAction::Report))
    );
}

#[test]
fn closed_queue_stops_the_worker() {
    assert_eq!(
        WorkerState::Idle.step(WorkerEvent::QueueClosed),
        Some((WorkerState::Stopped, WorkerAction::Exit))
    );
}

#[test]
fn stopped_worker_takes_no_step() {
    for event in EVENTS {
        assert_eq!(WorkerState::Stopped.step(event), None);
    }
}

#[test]
fn running_worker_takes_no_second_job() {
    assert_eq!(WorkerState::Running.step(WorkerEvent::JobReceived), None);
    assert_eq!(WorkerState::Running.step(WorkerEvent::ReceiveFailed), None);
    assert_eq!(WorkerState::Running.step(WorkerEvent::QueueClosed), None);
}

#[test]
fn idle_worker_has_no_job_to_end() {
    assert_eq!(WorkerState::Idle.step(WorkerEvent::JobFinished), None);
    assert_eq!(WorkerState::Idle.step(WorkerEvent::JobFailed), None);
}

#[test]
fn only_an_idle_worker_starts_a_job() {
    for state in STATES {
        for event in EVENTS {
            if let Some((after, WorkerAction::Run)) = state.step(event) {
                assert_eq!(state, WorkerState::Idle);
                assert_eq!(after, WorkerState::Running);
            }
        }
    }
}

#[test]
fn only_a_closed_queue_stops_a_worker() {
    for state in STATES {
        for event in EVENTS {
            if let Some((WorkerState::Stopped, action)) = state.step(event) {
                assert_eq!(event, WorkerEvent::QueueClosed);
                assert_eq!(action, WorkerAction::Exit);
            }
        }
    }
}

#[test]
fn a_worker_runs_many_jobs_one_after_the_other() {
    let mut state = WorkerState::Idle;
    let mut started = 0;
    let events = [
        WorkerEvent::JobReceived,
        WorkerEvent::JobFinished,
        WorkerEvent::JobReceived,
        WorkerEvent::JobFailed,
        WorkerEvent::ReceiveFailed,
        WorkerEvent::JobReceived,
        WorkerEvent::JobFinished,
        WorkerEvent::QueueClosed,
    ];
    for event in events {
        let (after, action) = state.step(event).unwrap();
        if action == WorkerAction::Run {
            started += 1;
        }
        state = after;
    }
    assert_eq!(started, 3);
    assert_eq!(state, WorkerState::Stopped);
}

#[test]
fn a_pool_has_at_least_one_worker() {
    assert_eq!(PoolSize::new(0), None);
    assert_eq!(PoolSize::new(1).unwrap().get(), 1);
    assert_eq!(PoolSize::new(4).unwrap().get(), 4);
    assert_eq!(PoolSize::new(usize::MAX).unwrap().get(), usize::MAX);
}
