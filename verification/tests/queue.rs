use std::cell::{Cell, RefCell};
use std::sync::atomic::{AtomicUsize, Ordering};
use std::sync::Arc;

use data_save_manager::depth::DepthCounter;
use data_save_manager::queue::{Completion, Ended};
use data_save_manager::{
    BatchIdentity, BatchInfo, BatchQueue, FlushOutcome, Moment, Queued, ReceiptId,
};
use tokio::sync::mpsc::unbounded_channel;

const SECOND: i64 = 1_000_000_000;

#[derive(Default)]
struct Recorder {
    failures: Cell<usize>,
    calls: RefCell<Vec<Vec<usize>>>,
}

impl Recorder {
    fn failing(times: usize) -> Self {
        Recorder {
            failures: Cell::new(times),
            ..Default::default()
        }
    }

    fn write(&self, items: &[usize]) -> Result<u64, &'static str> {
        self.calls.borrow_mut().push(items.to_vec());
        let left = self.failures.get();
        if left > 0 {
            self.failures.set(left - 1);
            Err("database unavailable")
        } else {
            Ok(0)
        }
    }
}

struct Events<Id = ()> {
    attempts: Vec<BatchInfo<Id>>,
    successes: Vec<(BatchInfo<Id>, u64)>,
    failures: Vec<(BatchInfo<Id>, bool)>,
}

impl<Id> Events<Id> {
    fn new() -> Self {
        Events {
            attempts: Vec::new(),
            successes: Vec::new(),
            failures: Vec::new(),
        }
    }
}

fn moment(nanos: i64) -> Moment {
    Moment { nanos }
}

/// Writes the batch that is due at `now`, if there is one.
fn flush<T, Id, E>(
    queue: &mut BatchQueue<T, Id>,
    now: i64,
    events: &mut Events<Id>,
    write: impl FnOnce(Id, &'static str, &[T]) -> Result<u64, E>,
) -> FlushOutcome
where
    Id: BatchIdentity + Copy,
{
    if !queue.prepare(moment(now)) {
        return FlushOutcome::Idle;
    }
    let mut info = queue.begin_attempt().info;
    events.attempts.push(info);
    let rows = write(info.id, info.queue, queue.items()).ok();
    let completion = queue.complete(rows, moment(now));
    info.pending = completion.pending;
    match rows {
        Some(rows) => events.successes.push((info, rows)),
        None => events.failures.push((info, completion.alert)),
    }
    completion.outcome
}

fn queue(items: usize) -> (BatchQueue<usize>, Arc<AtomicUsize>, Arc<AtomicUsize>) {
    let (tx, rx) = unbounded_channel();
    for value in 0..items {
        tx.send(Queued {
            value,
            enqueued_at: moment(value as i64),
        })
        .ok()
        .unwrap();
    }
    let depth = Arc::new(AtomicUsize::new(items));
    let total = Arc::new(AtomicUsize::new(items));
    (
        BatchQueue::new("test", depth.clone(), Some(total.clone()), rx),
        depth,
        total,
    )
}

#[test]
fn batches_are_bounded_and_zero_rows_acknowledges_inputs() {
    let (mut queue, depth, total) = queue(501);
    let writer = Recorder::default();
    let mut events = Events::new();
    assert_eq!(
        flush(&mut queue, 0, &mut events, |_, _, items| writer.write(items)),
        FlushOutcome::Success
    );
    assert_eq!(depth.load(Ordering::Relaxed), 1);
    assert_eq!(total.load(Ordering::Relaxed), 1);
    assert_eq!(events.successes[0].0.len, 500);
    assert_eq!(events.successes[0].0.pending, 1);
    flush(&mut queue, 0, &mut events, |_, _, items| writer.write(items));
    assert_eq!(writer.calls.borrow()[1], vec![500]);
    assert_eq!(depth.load(Ordering::Relaxed), 0);
    assert_eq!(total.load(Ordering::Relaxed), 0);
    assert!(queue.is_empty());
    assert!(!queue.is_ready(moment(0)));
    assert_eq!(
        flush(&mut queue, 0, &mut events, |_, _, items| writer.write(items)),
        FlushOutcome::Idle
    );
}

#[test]
fn failures_retain_payload_age_fifo_and_depth_without_splitting() {
    let (mut queue, depth, total) = queue(501);
    let writer = Recorder::failing(6);
    let mut events = Events::new();
    let mut now = 0;
    for attempt in 1..=6 {
        assert_eq!(
            flush(&mut queue, now, &mut events, |_, _, items| writer.write(items)),
            FlushOutcome::Retained
        );
        assert!(!queue.is_ready(moment(now)));
        assert!(!queue.is_empty());
        assert_eq!(depth.load(Ordering::Relaxed), 501);
        assert_eq!(total.load(Ordering::Relaxed), 501);
        assert_eq!(events.failures.last().unwrap().0.attempt, attempt);
        assert_eq!(
            flush(&mut queue, now, &mut events, |_, _, items| writer.write(items)),
            FlushOutcome::Idle
        );
        now += SECOND;
    }
    assert_eq!(
        events.failures.iter().filter(|(_, alert)| *alert).count(),
        1
    );
    assert!(events.failures[4].1);
    assert!(events
        .failures
        .iter()
        .all(|(info, _)| info.oldest_enqueued_at == events.failures[0].0.oldest_enqueued_at));
    flush(&mut queue, now, &mut events, |_, _, items| writer.write(items));
    flush(&mut queue, now, &mut events, |_, _, items| writer.write(items));
    let calls = writer.calls.borrow();
    assert!(calls[..7].iter().all(|items| items == &calls[0]));
    assert_eq!(calls[7], vec![500]);
    assert!(queue.is_empty());
}

#[test]
fn failed_queue_does_not_prevent_another_queue_progress() {
    let (mut bad, _, _) = queue(1);
    let (mut healthy, _, _) = queue(1);
    let failing = Recorder::failing(1);
    flush(&mut bad, 0, &mut Events::new(), |_, _, items| {
        failing.write(items)
    });
    assert!(!bad.is_ready(moment(0)));
    assert!(healthy.is_ready(moment(0)));
    let writer = Recorder::default();
    flush(&mut healthy, 0, &mut Events::new(), |_, _, items| {
        writer.write(items)
    });
    assert!(healthy.is_empty());
    assert!(!bad.is_empty());
}

#[test]
fn failure_diagnostics_include_items_accepted_during_the_write() {
    let (mut queue, depth, _) = queue(1);
    let mut events = Events::new();
    flush(&mut queue, 0, &mut events, |_, _, _| {
        depth.fetch_add(2, Ordering::Relaxed);
        Err::<u64, _>("slow write failed")
    });
    assert_eq!(events.failures[0].0.pending, 3);
}

#[test]
fn cancelled_flush_keeps_the_owned_batch_for_retry() {
    let (mut queue, depth, _) = queue(3);
    assert!(queue.prepare(moment(0)));
    assert!(!queue.begin_attempt().retry);
    assert_eq!(depth.load(Ordering::Relaxed), 3);
    let writer = Recorder::default();
    flush(&mut queue, SECOND, &mut Events::new(), |_, _, items| {
        writer.write(items)
    });
    assert_eq!(writer.calls.borrow()[0], vec![0, 1, 2]);
    assert!(queue.is_empty());
}

#[test]
fn oldest_timestamp_is_minimum_even_for_concurrent_producer_order() {
    let (tx, rx) = unbounded_channel();
    let now = moment(10 * SECOND);
    let old = moment(8 * SECOND);
    for (value, enqueued_at) in [(1, now), (2, old)] {
        tx.send(Queued { value, enqueued_at }).ok().unwrap();
    }
    let mut queue: BatchQueue<usize> =
        BatchQueue::new("age", Arc::new(AtomicUsize::new(2)), None, rx);
    let mut events = Events::new();
    let writer = Recorder::default();
    flush(&mut queue, now.nanos, &mut events, |_, _, items| {
        writer.write(items)
    });
    assert_eq!(events.successes[0].0.oldest_enqueued_at, old);
}

struct OwnedOnly(String);

#[test]
fn payload_does_not_require_clone_or_serialization() {
    let (tx, rx) = unbounded_channel();
    tx.send(Queued {
        value: OwnedOnly("no Clone bound".into()),
        enqueued_at: moment(0),
    })
    .ok()
    .unwrap();
    let mut queue: BatchQueue<OwnedOnly> =
        BatchQueue::new("owned", Arc::new(AtomicUsize::new(1)), None, rx);
    let outcome = flush(&mut queue, 0, &mut Events::new(), |_, name, items| {
        assert_eq!(name, "owned");
        assert_eq!(items[0].0, "no Clone bound");
        Ok::<u64, &'static str>(1)
    });
    assert_eq!(outcome, FlushOutcome::Success);
}

#[test]
fn receipt_id_is_stable_across_errors_and_cancellation() {
    let (tx, rx) = unbounded_channel();
    tx.send(Queued {
        value: 1usize,
        enqueued_at: moment(0),
    })
    .ok()
    .unwrap();
    let mut queue: BatchQueue<usize, ReceiptId> =
        BatchQueue::new("receipt", Arc::new(AtomicUsize::new(1)), None, rx);
    let mut ids = Vec::new();
    let mut events = Events::new();
    flush(&mut queue, 0, &mut events, |id, _, _| {
        ids.push(id);
        Err::<u64, _>("lost commit acknowledgement")
    });
    assert!(queue.prepare(moment(SECOND)));
    ids.push(queue.begin_attempt().info.id);
    flush(&mut queue, 2 * SECOND, &mut events, |id, _, _| {
        ids.push(id);
        Ok::<u64, &'static str>(0)
    });
    assert_eq!(ids.len(), 3);
    assert_ne!(ids[0].bits, 0);
    assert!(ids.iter().all(|id| *id == ids[0]));
}

#[test]
fn receipt_ids_are_random_uuids() {
    let first = ReceiptId::new_batch();
    let second = ReceiptId::new_batch();
    assert_ne!(first, second);
    for id in [first, second] {
        assert_eq!(uuid::Uuid::from_u128(id.bits).get_version_num(), 4);
        assert_eq!(
            uuid::Uuid::from_u128(id.bits).get_variant(),
            uuid::Variant::RFC4122
        );
    }
}

#[test]
fn a_new_batch_gets_a_new_identity_and_starts_over() {
    let (tx, rx) = unbounded_channel();
    let mut queue: BatchQueue<usize, ReceiptId> =
        BatchQueue::new("fresh", Arc::new(AtomicUsize::new(2)), None, rx);
    let mut events = Events::new();
    for value in 0..2 {
        tx.send(Queued {
            value,
            enqueued_at: moment(0),
        })
        .ok()
        .unwrap();
        flush(&mut queue, value as i64, &mut events, |_, _, _| {
            Ok::<u64, &'static str>(3)
        });
    }
    assert_eq!(events.attempts.len(), 2);
    assert_ne!(events.attempts[0].id, events.attempts[1].id);
    assert_eq!(events.attempts[1].attempt, 1);
    assert_eq!(events.attempts[1].len, 1);
    assert_eq!(events.successes[1].1, 3);
}

#[test]
fn retries_rest_for_exactly_one_second() {
    let (mut queue, _, _) = queue(1);
    let writer = Recorder::failing(1);
    flush(&mut queue, 5, &mut Events::new(), |_, _, items| {
        writer.write(items)
    });
    assert!(!queue.prepare(moment(5 + SECOND - 1)));
    assert!(!queue.is_ready(moment(5 + SECOND - 1)));
    assert!(queue.is_ready(moment(5 + SECOND)));
    assert!(queue.prepare(moment(5 + SECOND)));
    assert!(queue.begin_attempt().retry);
}

#[test]
fn a_closed_channel_is_drained_and_then_idle() {
    let (mut queue, _, _) = queue(2);
    let writer = Recorder::default();
    let mut events = Events::new();
    flush(&mut queue, 0, &mut events, |_, _, items| writer.write(items));
    assert_eq!(writer.calls.borrow()[0], vec![0, 1]);
    assert!(!queue.prepare(moment(1)));
}

#[test]
fn accepted_items_that_are_not_yet_sent_keep_a_queue_busy() {
    let (tx, rx) = unbounded_channel::<Queued<usize>>();
    let depth = Arc::new(AtomicUsize::new(1));
    let mut queue: BatchQueue<usize> = BatchQueue::new("busy", depth.clone(), None, rx);
    assert!(!queue.is_empty());
    assert!(queue.is_ready(moment(0)));
    assert!(!queue.prepare(moment(0)));
    depth.store(0, Ordering::Relaxed);
    assert!(queue.is_empty());
    tx.send(Queued {
        value: 1,
        enqueued_at: moment(0),
    })
    .ok()
    .unwrap();
    assert!(!queue.is_empty());
    assert!(!queue.is_empty_given(true, 1));
    assert!(queue.is_empty_given(true, 0));
    assert!(!queue.is_ready_given(true, 0, moment(0)));
    assert!(queue.is_ready_given(false, 0, moment(0)));
}

#[test]
fn acknowledgements_come_off_both_counters_whatever_the_rows() {
    for rows in [0, 1, u64::MAX] {
        let (mut queue, depth, total) = queue(4);
        total.fetch_add(10, Ordering::Relaxed);
        assert!(queue.prepare(moment(0)));
        assert_eq!(queue.begin_attempt().info.pending, 4);
        depth.fetch_add(3, Ordering::Relaxed);
        let completion = queue.complete(Some(rows), moment(0));
        assert_eq!(
            completion,
            Completion {
                outcome: FlushOutcome::Success,
                released: 4,
                alert: false,
                pending: 3,
            }
        );
        assert_eq!(depth.load(Ordering::Relaxed), 3);
        assert_eq!(total.load(Ordering::Relaxed), 10);
    }
}

#[test]
fn failures_take_nothing_off_the_counters() {
    let (mut queue, depth, total) = queue(2);
    assert!(queue.prepare(moment(0)));
    queue.begin_attempt();
    let ended = queue.end_attempt(None, moment(0));
    assert_eq!(ended.outcome, FlushOutcome::Retained);
    assert_eq!(ended.released, 0);
    assert_eq!(depth.load(Ordering::Relaxed), 2);
    assert_eq!(total.load(Ordering::Relaxed), 2);
}

#[test]
fn reports_carry_the_depth_they_are_given() {
    let ended = Ended {
        outcome: FlushOutcome::Retained,
        released: 0,
        alert: true,
    };
    let completion = ended.report(3);
    assert_eq!(completion.pending, 3);
    assert!(completion.alert);
    assert_eq!(completion.outcome, FlushOutcome::Retained);
}

#[test]
fn queues_use_the_counters_they_are_made_with() {
    let (queue, depth, total) = queue(1);
    assert!(Arc::ptr_eq(&queue.depth(), &depth));
    assert!(!Arc::ptr_eq(&queue.depth(), &total));
    let counter = Arc::new(AtomicUsize::new(0));
    assert!(Arc::ptr_eq(
        &DepthCounter::new(counter.clone()).handle(),
        &counter
    ));
}

#[test]
fn looks_agree_with_what_the_counter_shows() {
    let (_tx, rx) = unbounded_channel::<Queued<usize>>();
    let depth = Arc::new(AtomicUsize::new(0));
    let queue: BatchQueue<usize> = BatchQueue::new("looks", depth.clone(), None, rx);
    assert!(queue.look_empty().0);
    assert!(!queue.look_ready(moment(0)).0);
    depth.store(1, Ordering::Relaxed);
    assert!(!queue.look_empty().0);
    assert!(queue.look_ready(moment(0)).0);
}
