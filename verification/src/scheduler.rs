use vstd::prelude::*;

use std::marker::PhantomData;

use crate::identifier::SnowflakeID;

verus! {

/// Work handed to a scheduler worker for a task.
#[derive(Clone, Copy, Debug, PartialEq, Eq, Structural)]
pub enum SchedulerWork {
    Trigger,
    Dispatch,
}

/// The types a scheduler is configured with: how tasks are identified and how they fail.
pub trait SchedulerConfig: Sized + 'static {
    type TaskIdentifier;
    type TaskError;
}

/// The default configuration: snowflake identifiers and the error type `E`.
pub struct DefaultSchedulerConfig<E>(PhantomData<E>);

impl<E: 'static> SchedulerConfig for DefaultSchedulerConfig<E> {
    type TaskIdentifier = SnowflakeID;
    type TaskError = E;
}

/// The number of workers a scheduler starts when none is given.
pub const DEFAULT_WORKERS: usize = 64;

/// What a scheduler is built from: its dispatcher, its task store, its engine and the number
/// of its workers.
pub struct SchedulerInitConfig<D, S, G> {
    dispatcher: D,
    store: S,
    engine: G,
    workers: usize,
}

impl<D, S, G> SchedulerInitConfig<D, S, G> {
    pub closed spec fn dispatcher_spec(self) -> D {
        self.dispatcher
    }

    pub closed spec fn store_spec(self) -> S {
        self.store
    }

    pub closed spec fn engine_spec(self) -> G {
        self.engine
    }

    pub closed spec fn workers_spec(self) -> usize {
        self.workers
    }

    /// A configuration with the given parts and the default number of workers.
    pub fn new(dispatcher: D, store: S, engine: G) -> (r: Self)
        ensures
            r.dispatcher_spec() == dispatcher,
            r.store_spec() == store,
            r.engine_spec() == engine,
            r.workers_spec() == DEFAULT_WORKERS,
    {
        SchedulerInitConfig { dispatcher, store, engine, workers: DEFAULT_WORKERS }
    }

    /// The same configuration with `workers` workers.
    pub fn with_workers(self, workers: usize) -> (r: Self)
        ensures
            r.dispatcher_spec() == self.dispatcher_spec(),
            r.store_spec() == self.store_spec(),
            r.engine_spec() == self.engine_spec(),
            r.workers_spec() == workers,
    {
        SchedulerInitConfig { workers, ..self }
    }

    /// The number of workers.
    pub fn workers(&self) -> (r: usize)
        ensures
            r == self.workers_spec(),
    {
        self.workers
    }

    /// The configuration's parts: dispatcher, store and engine.
    pub fn into_parts(self) -> (r: (D, S, G))
        ensures
            r == (self.dispatcher_spec(), self.store_spec(), self.engine_spec()),
    {
        (self.dispatcher, self.store, self.engine)
    }
}

/// The worker that a task goes to: the low bits of its identifier, as many as the number of
/// workers (a power of two) allows.
pub fn dispatch_worker_index(id: usize, workers: usize) -> (r: usize)
    requires
        workers > 0,
    ensures
        r == id & ((workers - 1) as usize),
        r < workers,
{
    let mask = workers - 1;
    let r = id & mask;
    proof {
        assert(r <= mask) by (bit_vector)
            requires
                r == id & mask,
        ;
    }
    r
}

/// Where a worker stands with a piece of work taken from a queue.
#[derive(Clone, Copy, Debug, PartialEq, Eq, Structural)]
pub enum WorkPhase {
    /// The task of the work is being looked up in the store.
    LookingUp,
    /// The task's trigger is computing its next time.
    Triggering,
    /// The engine is scheduling the task at that time.
    Scheduling,
    /// The dispatcher is running the task.
    Dispatching,
    /// Nothing is left to do with the work.
    Finished,
}

/// What the outside work that a worker started has given.
#[derive(Clone, Copy, Debug, PartialEq, Eq, Structural)]
pub enum WorkEvent {
    /// The store holds the task (or not).
    TaskFound(bool),
    /// The trigger computed a time (or failed).
    TriggerComputed(bool),
    /// The engine scheduled the task (or failed).
    Scheduled(bool),
    /// The task ran; `true` when it failed.
    Ran(bool),
}

/// What a worker does next.
#[derive(Clone, Copy, Debug, PartialEq, Eq, Structural)]
pub enum WorkAction {
    /// Ask the task's trigger for its next time, from the clock's current time.
    ComputeTrigger,
    /// Hand the computed time to the engine.
    Schedule,
    /// Run the task with the dispatcher.
    Dispatch,
    /// Drop the task from the store: its trigger or the engine failed.
    RemoveTask,
    /// Queue the task for rescheduling, with whether its run failed.
    QueueReschedule(bool),
    /// Go on with the next piece of work.
    NextWork,
}

/// The decision a worker takes on `event` while at `phase` with a piece of `work`: the phase
/// that follows and the action to perform. A found task is triggered then scheduled, or
/// dispatched; a failure of the trigger or of the engine drops the task; a run is always
/// queued for rescheduling; a missing task, or an event that does not belong to the phase,
/// ends the work.
pub open spec fn work_step_spec(work: SchedulerWork, phase: WorkPhase, event: WorkEvent) -> (
    WorkPhase,
    WorkAction,
) {
    match (phase, event) {
        (WorkPhase::LookingUp, WorkEvent::TaskFound(true)) => match work {
            SchedulerWork::Trigger => (WorkPhase::Triggering, WorkAction::ComputeTrigger),
            SchedulerWork::Dispatch => (WorkPhase::Dispatching, WorkAction::Dispatch),
        },
        (WorkPhase::Triggering, WorkEvent::TriggerComputed(true)) => (
            WorkPhase::Scheduling,
            WorkAction::Schedule,
        ),
        (WorkPhase::Triggering, WorkEvent::TriggerComputed(false)) => (
            WorkPhase::Finished,
            WorkAction::RemoveTask,
        ),
        (WorkPhase::Scheduling, WorkEvent::Scheduled(false)) => (
            WorkPhase::Finished,
            WorkAction::RemoveTask,
        ),
        (WorkPhase::Dispatching, WorkEvent::Ran(failed)) => (
            WorkPhase::Finished,
            WorkAction::QueueReschedule(failed),
        ),
        _ => (WorkPhase::Finished, WorkAction::NextWork),
    }
}

/// One decision of a worker of the scheduler (see `work_step_spec`); the worker performs the
/// action and hands back what it gave.
pub fn work_step(work: SchedulerWork, phase: WorkPhase, event: WorkEvent) -> (r: (
    WorkPhase,
    WorkAction,
))
    ensures
        r == work_step_spec(work, phase, event),
{
    match (phase, event) {
        (WorkPhase::LookingUp, WorkEvent::TaskFound(true)) => match work {
            SchedulerWork::Trigger => (WorkPhase::Triggering, WorkAction::ComputeTrigger),
            SchedulerWork::Dispatch => (WorkPhase::Dispatching, WorkAction::Dispatch),
        },
        (WorkPhase::Triggering, WorkEvent::TriggerComputed(true)) => (
            WorkPhase::Scheduling,
            WorkAction::Schedule,
        ),
        (WorkPhase::Triggering, WorkEvent::TriggerComputed(false)) => (
            WorkPhase::Finished,
            WorkAction::RemoveTask,
        ),
        (WorkPhase::Scheduling, WorkEvent::Scheduled(false)) => (
            WorkPhase::Finished,
            WorkAction::RemoveTask,
        ),
        (WorkPhase::Dispatching, WorkEvent::Ran(failed)) => (
            WorkPhase::Finished,
            WorkAction::QueueReschedule(failed),
        ),
        _ => (WorkPhase::Finished, WorkAction::NextWork),
    }
}

/// Whether a worker that has just handled a piece of work from the queue of worker `pointing`
/// goes on taking work from that queue: only from its own, so that it takes a single piece from
/// the queue of another worker.
pub fn keeps_draining(own: usize, pointing: usize) -> (r: bool)
    ensures
        r == (own == pointing),
{
    own == pointing
}

/// A task whose trigger or engine fails is dropped, and only then: the worker drops a task
/// exactly on a failed trigger computation or a failed scheduling.
pub proof fn law_tasks_are_dropped_on_failure(work: SchedulerWork, phase: WorkPhase, event: WorkEvent)
    ensures
        (work_step_spec(work, phase, event).1 == WorkAction::RemoveTask) <==> (
        (phase == WorkPhase::Triggering && event == WorkEvent::TriggerComputed(false)) || (phase
            == WorkPhase::Scheduling && event == WorkEvent::Scheduled(false))),
{
}

/// Every run of a task is queued for rescheduling, carrying whether it failed.
pub proof fn law_runs_are_rescheduled(work: SchedulerWork, failed: bool)
    ensures
        work_step_spec(work, WorkPhase::Dispatching, WorkEvent::Ran(failed)) == (
            WorkPhase::Finished,
            WorkAction::QueueReschedule(failed),
        ),
{
}

/// A piece of work reaches the dispatcher only when it is dispatch work and its task is found,
/// and the trigger only when it is trigger work and its task is found.
pub proof fn law_found_tasks_are_worked(work: SchedulerWork, event: WorkEvent)
    ensures
        work_step_spec(work, WorkPhase::LookingUp, event).1 == WorkAction::Dispatch <==> (work
            == SchedulerWork::Dispatch && event == WorkEvent::TaskFound(true)),
        work_step_spec(work, WorkPhase::LookingUp, event).1 == WorkAction::ComputeTrigger <==> (
        work == SchedulerWork::Trigger && event == WorkEvent::TaskFound(true)),
{
}

} // verus!
