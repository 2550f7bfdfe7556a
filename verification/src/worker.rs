//! What a background worker does between two flushes.

use std::sync::atomic::AtomicUsize;
use std::sync::Arc;

use vstd::prelude::*;

use crate::admission::inside;
use crate::admission::is_closed;
use crate::admission::law_drained_door_has_no_producers;
use crate::admission::shut_through;
use crate::admission::Admission;
use crate::admission::DoorModel;
use crate::admission::DoorStep;
use crate::inbox::items_of;
use crate::queue::law_depth_counts_what_is_not_acknowledged;
use crate::queue::law_nothing_is_lost_or_repeated;
use crate::queue::values;
use crate::queue::QueueView;
use crate::shared::counts;
use crate::shared::own_steps;
use crate::shared::risen_elsewhere;
use crate::shared::HistoryStep;
use crate::shared::WordAccess;
use crate::shared::WordStep;
use crate::shared::WordView;

verus! {

/// What a worker tells its cycle about itself.
#[derive(Clone, Copy, Debug, PartialEq, Eq, Structural)]
pub enum WorkerEvent {
    Started,
    DrainStarted,
    DrainCompleted,
}

/// Whether a worker waits for its interval while there is a backlog.
#[derive(Clone, Copy, Debug, PartialEq, Eq, Structural)]
pub enum WorkerCadence {
    Interval,
    EagerBacklog,
}

/// What a worker waits for before it flushes, unless it is told to shut down first.
#[derive(Clone, Copy, Debug, PartialEq, Eq, Structural)]
pub enum Pause {
    /// The next tick of the interval.
    Tick,
    /// Only that other tasks had their turn.
    Yield,
}

/// What a worker does after a flush.
#[derive(Clone, Copy, Debug, PartialEq, Eq, Structural)]
pub enum AfterFlush {
    /// It goes on as usual.
    Continue,
    /// It drains, and lets other tasks have their turn before it flushes again.
    Yield,
    /// It drains, but nothing is ready: it rests before it flushes again.
    Rest,
    /// Everything is written: it is done.
    Finish,
}

/// A worker between two steps.
#[derive(Clone, Copy, Debug, PartialEq, Eq, Structural)]
pub struct WorkerState {
    pub cadence: WorkerCadence,
    pub draining: bool,
    pub backlog: bool,
}

impl WorkerState {
    /// A worker that just started, with what it announces.
    pub fn start(cadence: WorkerCadence) -> (started: (WorkerState, WorkerEvent))
        ensures
            started.0 == (WorkerState { cadence, draining: false, backlog: false }),
            started.1 == WorkerEvent::Started,
    {
        (WorkerState { cadence, draining: false, backlog: false }, WorkerEvent::Started)
    }

    /// What to wait for before the next flush, if anything. Shutting down ends the wait.
    pub open spec fn pause_spec(self) -> Option<Pause> {
        if self.draining {
            None
        } else if self.backlog && self.cadence == WorkerCadence::EagerBacklog {
            Some(Pause::Yield)
        } else {
            Some(Pause::Tick)
        }
    }

    /// What to wait for before the next flush, if anything. Shutting down ends the wait.
    pub fn pause(&self) -> (pause: Option<Pause>)
        ensures
            pause == self.pause_spec(),
    {
        if self.draining {
            None
        } else if self.backlog && self.cadence == WorkerCadence::EagerBacklog {
            Some(Pause::Yield)
        } else {
            Some(Pause::Tick)
        }
    }

    /// Starts to drain, once no producer is left, with what is announced then.
    pub fn drain(&mut self) -> (event: WorkerEvent)
        ensures
            *final(self) == (WorkerState { draining: true, ..*old(self) }),
            event == WorkerEvent::DrainStarted,
    {
        self.draining = true;
        WorkerEvent::DrainStarted
    }

    /// What to do after a flush that left the queues ready or not, empty or not.
    pub open spec fn after_flush_spec(self, ready: bool, empty: bool) -> AfterFlush {
        if !self.draining {
            AfterFlush::Continue
        } else if empty {
            AfterFlush::Finish
        } else if ready {
            AfterFlush::Yield
        } else {
            AfterFlush::Rest
        }
    }

    /// What to do after a flush, given whether a queue is ready and whether all are empty.
    pub fn after_flush(&mut self, ready: bool, empty: bool) -> (next: AfterFlush)
        ensures
            *final(self) == (WorkerState { backlog: ready, ..*old(self) }),
            next == old(self).after_flush_spec(ready, empty),
    {
        self.backlog = ready;
        if !self.draining {
            AfterFlush::Continue
        } else if empty {
            AfterFlush::Finish
        } else if ready {
            AfterFlush::Yield
        } else {
            AfterFlush::Rest
        }
    }

    /// What is announced when the worker is done.
    pub fn finished() -> (event: WorkerEvent)
        ensures
            event == WorkerEvent::DrainCompleted,
    {
        WorkerEvent::DrainCompleted
    }
}

/// Closes a door when it is dropped, also where a panic drops it: a worker that is gone
/// accepts nothing more.
pub struct CloseOnExit {
    access: WordAccess<Arc<AtomicUsize>>,
}

impl View for CloseOnExit {
    type V = WordView;

    /// The shared word of the door, and what was done to it through this value.
    closed spec fn view(&self) -> WordView {
        self.access@
    }
}

impl CloseOnExit {
    /// Will close the door behind `admission`.
    pub fn new(admission: Admission) -> (guard: CloseOnExit)
        ensures
            guard@ == WordView::untouched(admission.door()),
    {
        CloseOnExit { access: admission.access() }
    }
}

impl Drop for CloseOnExit {
    /// Closes the door.
    fn drop(&mut self)
        ensures
            final(self)@ == old(self)@.stepped(DoorStep::Close.on_word()),
        opens_invariants none
        no_unwind
    {
        shut_through(&mut self.access);
    }
}

/// One thing that happens to a worker.
pub enum WorkerInput {
    /// It was told to shut down, and no producer is left.
    Shutdown,
    /// A flush ended.
    Flushed { ready: bool, empty: bool },
}

/// A worker with everything that it announced.
pub struct WorkerRun {
    pub state: WorkerState,
    pub finished: bool,
    pub announced: Seq<WorkerEvent>,
}

impl WorkerRun {
    /// A worker that just started.
    pub open spec fn started(cadence: WorkerCadence) -> WorkerRun {
        WorkerRun {
            state: WorkerState { cadence, draining: false, backlog: false },
            finished: false,
            announced: seq![WorkerEvent::Started],
        }
    }

    /// The worker after an input. It takes one order to shut down, and nothing once it is
    /// done.
    pub open spec fn after(self, input: WorkerInput) -> WorkerRun {
        if self.finished {
            self
        } else {
            match input {
                WorkerInput::Shutdown => if self.state.draining {
                    self
                } else {
                    WorkerRun {
                        state: WorkerState { draining: true, ..self.state },
                        announced: self.announced.push(WorkerEvent::DrainStarted),
                        ..self
                    }
                },
                WorkerInput::Flushed { ready, empty } => {
                    let finishes = self.state.after_flush_spec(ready, empty) == AfterFlush::Finish;
                    WorkerRun {
                        state: WorkerState { backlog: ready, ..self.state },
                        finished: finishes,
                        announced: if finishes {
                            self.announced.push(WorkerEvent::DrainCompleted)
                        } else {
                            self.announced
                        },
                    }
                },
            }
        }
    }

    /// The worker after all the inputs.
    pub open spec fn after_all(self, inputs: Seq<WorkerInput>) -> WorkerRun
        decreases inputs.len(),
    {
        if inputs.len() == 0 {
            self
        } else {
            self.after_all(inputs.drop_last()).after(inputs.last())
        }
    }
}

/// A worker announces its start, then at most once that it drains, then at most once that it
/// is done; it is done only after it drained.
pub proof fn law_worker_announces_in_order(cadence: WorkerCadence, inputs: Seq<WorkerInput>)
    ensures
        ({
            let run = WorkerRun::started(cadence).after_all(inputs);
            &&& run.finished ==> run.state.draining
            &&& run.announced == if run.finished {
                seq![
                    WorkerEvent::Started,
                    WorkerEvent::DrainStarted,
                    WorkerEvent::DrainCompleted,
                ]
            } else if run.state.draining {
                seq![WorkerEvent::Started, WorkerEvent::DrainStarted]
            } else {
                seq![WorkerEvent::Started]
            }
        }),
    decreases inputs.len(),
{
    if inputs.len() > 0 {
        law_worker_announces_in_order(cadence, inputs.drop_last());
    }
}

/// A worker is done exactly with a flush that, while it drains, leaves every queue empty.
pub proof fn law_worker_stops_only_when_empty(run: WorkerRun, input: WorkerInput)
    requires
        !run.finished,
    ensures
        run.after(input).finished <==> run.state.draining && (input matches WorkerInput::Flushed {
            empty,
            ..
        } && empty),
{
}

/// A worker that drains never waits for a tick, and with eager cadence a worker with a
/// backlog does not either.
pub proof fn law_backlogs_do_not_wait_for_ticks(state: WorkerState)
    ensures
        state.draining ==> state.pause_spec() is None,
        state.backlog && state.cadence == WorkerCadence::EagerBacklog ==> state.pause_spec()
            != Some(Pause::Tick),
        !state.draining && state.cadence == WorkerCadence::Interval ==> state.pause_spec() == Some(
            Pause::Tick,
        ),
{
}

/// What a worker that is done leaves behind. It drained behind a door that was closed and had
/// nobody inside, so nobody comes after it. Its last look found no batch pending and nothing on
/// the counter on which `handed_over` items were counted in all. Then every item that was handed
/// over arrived and is acknowledged, once and in order.
pub proof fn law_finished_workers_saved_every_item<T, Id>(
    door: DoorModel,
    later: Seq<DoorStep>,
    queue: QueueView<T, Id>,
    start: usize,
    history: Seq<HistoryStep>,
    handed_over: nat,
)
    requires
        door.counted(),
        is_closed(door.word),
        inside(door.word) == 0,
        door.enables_all(later),
        queue.wf(),
        queue.pending is None,
        counts(start, history),
        own_steps(history) == queue.depth.steps,
        start + risen_elsewhere(history) == handed_over,
        items_of(queue.answers).len() <= handed_over <= usize::MAX,
        history.len() > 0,
        history.last().step == (WordStep::Load { found: 0 }),
    ensures
        door.after_all(later).admitted == 0,
        queue.acknowledged.len() == handed_over,
        items_of(queue.answers).len() == handed_over,
        queue.acknowledged == values(items_of(queue.answers)),
{
    law_drained_door_has_no_producers(door, later);
    law_nothing_is_lost_or_repeated(queue);
    law_depth_counts_what_is_not_acknowledged(queue, start, history, handed_over);
}

/// What a worker does after a flush follows from whether it drains and from what the flush left:
/// it goes on as usual unless it drains; it finishes exactly if nothing is left; and while
/// something is left it rests exactly if nothing of it is ready.
pub proof fn law_workers_rest_only_without_ready_queues(
    state: WorkerState,
    ready: bool,
    empty: bool,
)
    ensures
        state.after_flush_spec(ready, empty) == AfterFlush::Continue <==> !state.draining,
        state.after_flush_spec(ready, empty) == AfterFlush::Finish <==> state.draining && empty,
        state.after_flush_spec(ready, empty) == AfterFlush::Rest <==> state.draining && !empty
            && !ready,
        state.after_flush_spec(ready, empty) == AfterFlush::Yield <==> state.draining && !empty
            && ready,
{
}

/// A worker waits before every flush unless it drains, and it waits for a tick exactly unless it
/// has a backlog and works off backlogs eagerly.
pub proof fn law_workers_wait_for_ticks_without_backlog(state: WorkerState)
    ensures
        state.pause_spec() is None <==> state.draining,
        state.pause_spec() == Some(Pause::Tick) <==> !state.draining && (!state.backlog
            || state.cadence == WorkerCadence::Interval),
        state.pause_spec() == Some(Pause::Yield) <==> !state.draining && state.backlog
            && state.cadence == WorkerCadence::EagerBacklog,
{
}

/// Every input does to a worker what it is: an order to shut down starts the drain and leaves the
/// rest, a flush sets the backlog and leaves the rest, and the cadence never changes.
pub proof fn law_inputs_change_only_what_they_are_about(run: WorkerRun, ready: bool, empty: bool)
    requires
        !run.finished,
    ensures
        run.after(WorkerInput::Shutdown).state.draining,
        run.after(WorkerInput::Shutdown).state.backlog == run.state.backlog,
        run.after(WorkerInput::Shutdown).state.cadence == run.state.cadence,
        run.after(WorkerInput::Flushed { ready, empty }).state.draining == run.state.draining,
        run.after(WorkerInput::Flushed { ready, empty }).state.backlog == ready,
        run.after(WorkerInput::Flushed { ready, empty }).state.cadence == run.state.cadence,
{
}

} // verus!
