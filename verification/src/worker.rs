//! The life of a pool worker as a state machine, and the size of a pool.

use vstd::prelude::*;

verus! {

/// Where a worker stands.
#[derive(Debug, Clone, Copy, PartialEq, Eq, Structural)]
pub enum WorkerState {
    /// Waiting for a job.
    Idle,
    /// Running one job.
    Running,
    /// Gone for good.
    Stopped,
}

/// What happens to a worker.
#[derive(Debug, Clone, Copy, PartialEq, Eq, Structural)]
pub enum WorkerEvent {
    /// A job was taken from the queue.
    JobReceived,
    /// The job that was running came to its end.
    JobFinished,
    /// The job that was running failed.
    JobFailed,
    /// Taking a job failed though the queue is still open.
    ReceiveFailed,
    /// The queue was closed: nothing more will come.
    QueueClosed,
}

/// What a worker does next.
#[derive(Debug, Clone, Copy, PartialEq, Eq, Structural)]
pub enum WorkerAction {
    /// Wait for the next job.
    Receive,
    /// Run the job just received, to its end.
    Run,
    /// Report the failure, then wait for the next job.
    Report,
    /// Leave the loop.
    Exit,
}

/// The state a worker is in after `event`, and what it does next; `None`
/// where the event cannot reach a worker in that state.
///
/// An idle worker that receives a job runs it; a failure to receive is
/// reported and the worker waits again; only the closing of the queue stops
/// it. A running worker does nothing else until its job has finished or
/// failed, and waits for the next job after either. A stopped worker stays
/// stopped.
pub open spec fn next(state: WorkerState, event: WorkerEvent) -> Option<
    (WorkerState, WorkerAction),
> {
    match (state, event) {
        (WorkerState::Idle, WorkerEvent::JobReceived) => Some(
            (WorkerState::Running, WorkerAction::Run),
        ),
        (WorkerState::Idle, WorkerEvent::ReceiveFailed) => Some(
            (WorkerState::Idle, WorkerAction::Report),
        ),
        (WorkerState::Idle, WorkerEvent::QueueClosed) => Some(
            (WorkerState::Stopped, WorkerAction::Exit),
        ),
        (WorkerState::Running, WorkerEvent::JobFinished) => Some(
            (WorkerState::Idle, WorkerAction::Receive),
        ),
        (WorkerState::Running, WorkerEvent::JobFailed) => Some(
            (WorkerState::Idle, WorkerAction::Report),
        ),
        _ => None,
    }
}

impl WorkerState {
    /// Moves a worker on by one event.
    pub fn step(self, event: WorkerEvent) -> (r: Option<(WorkerState, WorkerAction)>)
        ensures
            r == next(self, event),
    {
        match (self, event) {
            (WorkerState::Idle, WorkerEvent::JobReceived) => Some(
                (WorkerState::Running, WorkerAction::Run),
            ),
            (WorkerState::Idle, WorkerEvent::ReceiveFailed) => Some(
                (WorkerState::Idle, WorkerAction::Report),
            ),
            (WorkerState::Idle, WorkerEvent::QueueClosed) => Some(
                (WorkerState::Stopped, WorkerAction::Exit),
            ),
            (WorkerState::Running, WorkerEvent::JobFinished) => Some(
                (WorkerState::Idle, WorkerAction::Receive),
            ),
            (WorkerState::Running, WorkerEvent::JobFailed) => Some(
                (WorkerState::Idle, WorkerAction::Report),
            ),
            _ => None,
        }
    }
}

/// A job is started only by an idle worker, which is then running: a worker
/// never has two jobs at once.
pub proof fn lemma_one_job_at_a_time(state: WorkerState, event: WorkerEvent)
    requires
        next(state, event) matches Some((_, action)) && action == WorkerAction::Run,
    ensures
        state == WorkerState::Idle,
        next(state, event) == Some((WorkerState::Running, WorkerAction::Run)),
{
}

/// Only the closing of the queue stops a worker, and a stopped worker takes
/// no further step.
pub proof fn lemma_stops_only_when_closed(state: WorkerState, event: WorkerEvent)
    ensures
        next(state, event) matches Some((after, _)) && after == WorkerState::Stopped ==> event
            == WorkerEvent::QueueClosed,
        state == WorkerState::Stopped ==> next(state, event) is None,
{
}

/// A job that fails does not stop its worker: it is reported and the worker
/// waits for the next one.
pub proof fn lemma_failure_is_survived()
    ensures
        next(WorkerState::Running, WorkerEvent::JobFailed) == Some(
            (WorkerState::Idle, WorkerAction::Report),
        ),
{
}

/// The state of a worker that has gone through `events`, one after the
/// other, from `state`; `None` where one of them could not happen.
pub open spec fn after_events(state: WorkerState, events: Seq<WorkerEvent>) -> Option<WorkerState>
    decreases events.len(),
{
    if events.len() == 0 {
        Some(state)
    } else {
        match after_events(state, events.drop_last()) {
            Some(before) => match next(before, events.last()) {
                Some((after, _)) => Some(after),
                None => None,
            },
            None => None,
        }
    }
}

/// How many of `events` are `event`.
pub open spec fn occurrences(events: Seq<WorkerEvent>, event: WorkerEvent) -> nat
    decreases events.len(),
{
    if events.len() == 0 {
        0
    } else {
        let earlier = occurrences(events.drop_last(), event);
        if events.last() == event {
            earlier + 1
        } else {
            earlier
        }
    }
}

/// Whatever a worker goes through from its start, the jobs it has received
/// are as many as the jobs that have ended, and one more while it is
/// running: every job received is run, and one at a time.
pub proof fn lemma_jobs_in_flight(events: Seq<WorkerEvent>)
    requires
        after_events(WorkerState::Idle, events) is Some,
    ensures
        occurrences(events, WorkerEvent::JobReceived) == occurrences(
            events,
            WorkerEvent::JobFinished,
        ) + occurrences(events, WorkerEvent::JobFailed) + (if after_events(
            WorkerState::Idle,
            events,
        ) == Some(WorkerState::Running) {
            1nat
        } else {
            0nat
        }),
    decreases events.len(),
{
    if events.len() > 0 {
        lemma_jobs_in_flight(events.drop_last());
    }
}

/// The number of workers of a pool: never zero.
#[derive(Debug, Clone, Copy, PartialEq, Eq)]
pub struct PoolSize {
    workers: usize,
}

impl View for PoolSize {
    type V = nat;

    closed spec fn view(&self) -> nat {
        self.workers as nat
    }
}

impl PoolSize {
    /// A pool size is positive.
    #[verifier::type_invariant]
    spec fn positive(self) -> bool {
        self.workers > 0
    }

    /// Accepts every number of workers but zero.
    pub fn new(workers: usize) -> (size: Option<PoolSize>)
        ensures
            workers == 0 <==> size is None,
            size matches Some(s) ==> s@ == workers,
    {
        if workers == 0 {
            None
        } else {
            Some(PoolSize { workers })
        }
    }

    /// The number of workers.
    pub fn get(&self) -> (workers: usize)
        ensures
            workers == self@,
            workers > 0,
    {
        proof {
            use_type_invariant(self);
        }
        self.workers
    }
}

} // verus!
