use std::sync::atomic::{AtomicUsize, Ordering};
use std::sync::Arc;

use data_save_manager::admission::{refuses_entry, reservations, CLOSED};
use data_save_manager::worker::{AfterFlush, CloseOnExit, Pause, WorkerState};
use data_save_manager::{
    Admission, BatchQueue, Moment, Queued, WorkerCadence, WorkerEvent,
};
use tokio::sync::mpsc::unbounded_channel;

/// A cycle with a number of batches left, which flushes one at a time.
struct Cycle {
    remaining: usize,
    state: WorkerState,
    events: Vec<WorkerEvent>,
    yields: usize,
}

impl Cycle {
    fn start(remaining: usize, cadence: WorkerCadence) -> Self {
        let (state, event) = WorkerState::start(cadence);
        Cycle {
            remaining,
            state,
            events: vec![event],
            yields: 0,
        }
    }

    fn flush(&mut self) -> AfterFlush {
        self.remaining = self.remaining.saturating_sub(1);
        let empty = self.remaining == 0;
        self.state.after_flush(!empty, empty)
    }

    /// Flushes as long as nothing has to be waited for.
    fn flush_until_tick(&mut self) {
        while self.state.pause() == Some(Pause::Yield) {
            assert_eq!(self.flush(), AfterFlush::Continue);
        }
    }

    fn drain(&mut self) {
        let event = self.state.drain();
        self.events.push(event);
        loop {
            assert_eq!(self.state.pause(), None);
            match self.flush() {
                AfterFlush::Finish => break,
                AfterFlush::Yield => self.yields += 1,
                other => panic!("unexpected {other:?}"),
            }
        }
        self.events.push(WorkerState::finished());
    }
}

#[test]
fn drain_waits_for_admitted_producers_and_saves_every_item() {
    let admission = Admission::default();
    let guard = admission.enter().unwrap();
    let mut cycle = Cycle::start(0, WorkerCadence::EagerBacklog);
    admission.close();
    assert_eq!(admission.producers_inside(), 1);
    assert!(admission.enter().is_none());
    cycle.remaining = 100;
    drop(guard);
    assert_eq!(admission.producers_inside(), 0);
    cycle.drain();
    assert_eq!(cycle.remaining, 0);
    assert_eq!(
        cycle.events,
        vec![
            WorkerEvent::Started,
            WorkerEvent::DrainStarted,
            WorkerEvent::DrainCompleted
        ]
    );
}

#[test]
fn backlog_is_drained_without_waiting_a_tick_per_batch() {
    let mut cycle = Cycle::start(100, WorkerCadence::EagerBacklog);
    assert_eq!(cycle.state.pause(), Some(Pause::Tick));
    assert_eq!(cycle.flush(), AfterFlush::Continue);
    cycle.flush_until_tick();
    assert_eq!(cycle.remaining, 0);
}

#[test]
fn interval_cadence_preserves_normal_write_rate_but_drains_immediately() {
    let mut cycle = Cycle::start(100, WorkerCadence::Interval);
    assert_eq!(cycle.state.pause(), Some(Pause::Tick));
    cycle.flush();
    cycle.flush_until_tick();
    assert_eq!(cycle.remaining, 99);
    assert_eq!(cycle.state.pause(), Some(Pause::Tick));
    cycle.flush();
    cycle.flush_until_tick();
    assert_eq!(cycle.remaining, 98);
    cycle.drain();
    assert_eq!(cycle.remaining, 0);
}

#[test]
fn immediate_writers_yield_between_drain_cycles() {
    let mut cycle = Cycle::start(10_000, WorkerCadence::EagerBacklog);
    cycle.drain();
    assert_eq!(cycle.remaining, 0);
    assert_eq!(cycle.yields, 9_999);
}

#[test]
fn a_drain_rests_while_nothing_is_ready() {
    let (mut state, _) = WorkerState::start(WorkerCadence::EagerBacklog);
    state.drain();
    assert_eq!(state.after_flush(false, false), AfterFlush::Rest);
    assert_eq!(state.after_flush(true, false), AfterFlush::Yield);
    assert_eq!(state.after_flush(true, true), AfterFlush::Finish);
}

#[test]
fn an_empty_worker_that_does_not_drain_goes_on() {
    let (mut state, event) = WorkerState::start(WorkerCadence::EagerBacklog);
    assert_eq!(event, WorkerEvent::Started);
    assert_eq!(state.after_flush(false, true), AfterFlush::Continue);
    assert_eq!(state.pause(), Some(Pause::Tick));
    assert_eq!(state.after_flush(true, false), AfterFlush::Continue);
    assert_eq!(state.pause(), Some(Pause::Yield));
}

fn runtime() -> tokio::runtime::Runtime {
    tokio::runtime::Builder::new_multi_thread()
        .worker_threads(2)
        .build()
        .unwrap()
}

#[test]
fn enqueue_guard_releases_on_panic() {
    let admission = Admission::default();
    let inside = admission.clone();
    let runtime = runtime();
    let producer = runtime.spawn(async move {
        let _guard = inside.enter().unwrap();
        if true {
            panic!("producer panic");
        }
    });
    assert!(runtime.block_on(producer).unwrap_err().is_panic());
    admission.close();
    assert_eq!(admission.producers_inside(), 0);
    assert!(admission.enter().is_none());
}

#[test]
fn worker_panic_closes_admission_instead_of_accepting_more_items() {
    let admission = Admission::default();
    let worker_side = CloseOnExit::new(admission.clone());
    assert!(admission.enter().is_some());
    let runtime = runtime();
    let worker = runtime.spawn(async move {
        let _close_on_exit = worker_side;
        if true {
            panic!("invalid writer adapter");
        }
    });
    assert!(runtime.block_on(worker).unwrap_err().is_panic());
    assert!(admission.enter().is_none());
}

#[test]
fn concurrent_shutdown_never_outruns_an_accepted_enqueue() {
    let runtime = runtime();
    for _ in 0..20 {
        let (tx, rx) = unbounded_channel();
        let admission = Admission::default();
        let depth = Arc::new(AtomicUsize::new(0));
        let accepted = Arc::new(AtomicUsize::new(0));
        let mut saved = 0;
        let mut queue: BatchQueue<usize> = BatchQueue::new("concurrent", depth.clone(), None, rx);
        let barrier = Arc::new(std::sync::Barrier::new(9));
        let mut producers = Vec::new();
        for _ in 0..8 {
            let admission = admission.clone();
            let depth = depth.clone();
            let accepted = accepted.clone();
            let tx = tx.clone();
            let barrier = barrier.clone();
            producers.push(runtime.spawn_blocking(move || {
                barrier.wait();
                for value in 0..1000 {
                    let Some(_guard) = admission.enter() else {
                        break;
                    };
                    depth.fetch_add(1, Ordering::Relaxed);
                    tx.send(Queued {
                        value,
                        enqueued_at: Moment { nanos: 0 },
                    })
                    .ok()
                    .unwrap();
                    accepted.fetch_add(1, Ordering::Relaxed);
                }
            }));
        }
        barrier.wait();
        while accepted.load(Ordering::Relaxed) < 10 {
            std::hint::spin_loop();
        }
        let now = Moment { nanos: 0 };
        let (mut state, _) = WorkerState::start(WorkerCadence::EagerBacklog);
        admission.close();
        while admission.producers_inside() != 0 {
            std::hint::spin_loop();
        }
        state.drain();
        loop {
            if queue.prepare(now) {
                queue.begin_attempt();
                let count = queue.items().len();
                saved += count;
                queue.complete(Some(count as u64), now);
            }
            if state.after_flush(queue.is_ready(now), queue.is_empty()) == AfterFlush::Finish {
                break;
            }
        }
        for producer in producers {
            runtime.block_on(producer).unwrap();
        }
        assert_eq!(saved, accepted.load(Ordering::Relaxed));
        assert_eq!(depth.load(Ordering::Relaxed), 0);
    }
}

#[test]
fn the_door_counts_reservations_and_stays_closed() {
    let admission = Admission::default();
    let first = admission.enter().unwrap();
    let second = admission.enter().unwrap();
    assert_eq!(admission.producers_inside(), 2);
    admission.clone().close();
    assert!(admission.enter().is_none());
    assert_eq!(admission.producers_inside(), 2);
    drop(first);
    assert_eq!(admission.producers_inside(), 1);
    admission.close();
    assert_eq!(admission.producers_inside(), 1);
    drop(second);
    assert_eq!(admission.producers_inside(), 0);
    assert!(admission.enter().is_none());
}

#[test]
fn door_words_split_into_closing_bit_and_count() {
    assert!(!refuses_entry(0));
    assert!(!refuses_entry(CLOSED - 1));
    assert!(refuses_entry(CLOSED));
    assert!(refuses_entry(CLOSED + 3));
    assert_eq!(reservations(7), 7);
    assert_eq!(reservations(CLOSED + 7), 7);
}

#[test]
fn refused_reservations_are_taken_back() {
    let admission = Admission::default();
    assert_eq!(admission.look().0, 0);
    let guard = admission.try_enter();
    assert!(guard.is_ok());
    assert_eq!(admission.look().0, 1);
    admission.shut();
    for _ in 0..3 {
        assert!(admission.try_enter().is_err());
        assert_eq!(admission.look().0, 1);
    }
    drop(guard);
    assert_eq!(admission.look().0, 0);
    assert!(admission.clone().try_enter().is_err());
}
