use std::sync::atomic::{AtomicU64, AtomicUsize, Ordering};
use std::sync::Arc;

use data_save_manager::telemetry::{
    attempt_ended, attempt_started, count_up, Amount, Attribute, AttributeSets, InFlight,
    Instrument, InstrumentKind, LabelSet, Recording,
};
use data_save_manager::{BatchQueue, FlushOutcome, Moment, Queued};
use opentelemetry::Value;
use tokio::sync::mpsc::unbounded_channel;

const SECOND: i64 = 1_000_000_000;

const INSTRUMENTS: [Instrument; 13] = [
    Instrument::Pending,
    Instrument::InFlight,
    Instrument::AcceptedItems,
    Instrument::PayloadBytes,
    Instrument::AcknowledgedItems,
    Instrument::AttemptedItems,
    Instrument::Attempts,
    Instrument::Retries,
    Instrument::WriterRows,
    Instrument::Outcomes,
    Instrument::FlushDuration,
    Instrument::BatchAge,
    Instrument::BatchSize,
];

fn attribute(key: &str, value: &'static str) -> Attribute {
    Attribute {
        key: key.to_string(),
        value: Value::from(value),
    }
}

fn attrs(project: &'static str, instance: &'static str) -> Vec<Attribute> {
    vec![attribute("project", project), attribute("instId", instance)]
}

fn pairs(attributes: &[Attribute]) -> Vec<(String, Value)> {
    attributes
        .iter()
        .map(|attribute| (attribute.key.clone(), attribute.value.clone()))
        .collect()
}

/// Every measurement that was recorded.
#[derive(Default)]
struct Metrics(Vec<Recording>);

impl Metrics {
    fn of(&self, instrument: Instrument) -> Vec<Recording> {
        self.0
            .iter()
            .copied()
            .filter(|recording| recording.instrument == instrument)
            .collect()
    }

    fn total(&self, instrument: Instrument) -> u64 {
        self.of(instrument)
            .iter()
            .map(|recording| match recording.amount {
                Amount::Number(number) => number,
                other => panic!("unexpected {other:?}"),
            })
            .sum()
    }

    /// Writes the batch that is due at `now`, if there is one, and records the attempt. A
    /// writer that answers nothing is cancelled.
    fn flush(
        &mut self,
        queue: &mut BatchQueue<usize>,
        now: i64,
        answer: Option<Result<u64, ()>>,
    ) -> Option<FlushOutcome> {
        let now = Moment { nanos: now };
        if !queue.prepare(now) {
            return Some(FlushOutcome::Idle);
        }
        let attempt = queue.begin_attempt();
        self.0.extend(attempt_started(attempt.info.len, attempt.retry));
        let rows = answer?.ok();
        self.0.extend(attempt_ended(attempt.info.len, rows));
        Some(queue.complete(rows, now).outcome)
    }
}

fn queue(items: usize) -> (BatchQueue<usize>, Arc<AtomicUsize>) {
    let (tx, rx) = unbounded_channel();
    for value in 0..items {
        tx.send(Queued {
            value,
            enqueued_at: Moment { nanos: 0 },
        })
        .ok()
        .unwrap();
    }
    let depth = Arc::new(AtomicUsize::new(items));
    (BatchQueue::new("tokens", depth.clone(), None, rx), depth)
}

#[test]
fn cancellation_counts_attempt_not_completion_and_retry_zero_rows_acknowledges_all() {
    let mut metrics = Metrics::default();
    let (mut queue, depth) = queue(2);
    assert_eq!(metrics.flush(&mut queue, 0, None), None);
    assert_eq!(metrics.total(Instrument::Attempts), 1);
    assert_eq!(metrics.total(Instrument::AttemptedItems), 2);
    assert_eq!(depth.load(Ordering::Relaxed), 2);
    assert_eq!(metrics.total(Instrument::AcknowledgedItems), 0);
    assert!(metrics.of(Instrument::Outcomes).is_empty());
    assert!(metrics.of(Instrument::FlushDuration).is_empty());
    assert_eq!(
        metrics.flush(&mut queue, 0, Some(Err(()))),
        Some(FlushOutcome::Retained)
    );
    assert_eq!(
        metrics.flush(&mut queue, 0, Some(Ok(0))),
        Some(FlushOutcome::Idle)
    );
    assert_eq!(
        metrics.flush(&mut queue, SECOND, Some(Ok(0))),
        Some(FlushOutcome::Success)
    );
    assert_eq!(metrics.total(Instrument::Attempts), 3);
    assert_eq!(metrics.total(Instrument::AttemptedItems), 6);
    assert_eq!(metrics.total(Instrument::Retries), 2);
    assert_eq!(metrics.total(Instrument::AcknowledgedItems), 2);
    assert_eq!(metrics.total(Instrument::WriterRows), 0);
    assert_eq!(depth.load(Ordering::Relaxed), 0);
    let outcomes = metrics.of(Instrument::Outcomes);
    assert_eq!(outcomes.len(), 2);
    for labels in [LabelSet::Success, LabelSet::Failure] {
        let outcome = outcomes.iter().find(|outcome| outcome.labels == labels);
        assert_eq!(outcome.unwrap().amount, Amount::Number(1));
    }
    assert_eq!(metrics.of(Instrument::BatchSize).len(), 3);
    assert_eq!(metrics.total(Instrument::BatchSize), 6);
    for recording in metrics.of(Instrument::FlushDuration) {
        assert_eq!(recording.amount, Amount::AttemptTime);
    }
    assert_eq!(metrics.of(Instrument::FlushDuration).len(), 2);
    for recording in metrics.of(Instrument::BatchAge) {
        assert_eq!(recording.amount, Amount::OldestItemTime);
    }
    assert_eq!(metrics.of(Instrument::BatchAge).len(), 2);
    assert_eq!(Instrument::FlushDuration.definition().unit, Some("s"));
    assert_eq!(Instrument::BatchAge.definition().unit, Some("s"));
    let seconds = |instrument: Instrument| -> Vec<f64> {
        instrument
            .bounds_millis()
            .into_iter()
            .map(|millis| millis as f64 / 1000.0)
            .collect()
    };
    assert_eq!(
        seconds(Instrument::FlushDuration),
        [0.001, 0.005, 0.01, 0.05, 0.1, 0.5, 1.0, 5.0, 10.0, 30.0, 60.0, 120.0]
    );
    assert_eq!(
        seconds(Instrument::BatchAge),
        [0.1, 1.0, 5.0, 10.0, 30.0, 60.0, 120.0, 300.0]
    );
    assert!(queue.is_empty());
}

#[test]
fn writer_rows_are_not_acknowledged_item_count_and_idle_does_not_record() {
    let mut metrics = Metrics::default();
    let (mut queue, _) = queue(1);
    assert_eq!(
        metrics.flush(&mut queue, 0, Some(Ok(17))),
        Some(FlushOutcome::Success)
    );
    assert_eq!(
        metrics.flush(&mut queue, 0, Some(Ok(17))),
        Some(FlushOutcome::Idle)
    );
    assert_eq!(metrics.total(Instrument::AcknowledgedItems), 1);
    assert_eq!(metrics.total(Instrument::WriterRows), 17);
    assert_eq!(metrics.total(Instrument::Outcomes), 1);
    assert_eq!(metrics.total(Instrument::Retries), 0);
}

#[test]
fn queues_projects_and_instances_are_isolated_with_canonical_queue_attribute() {
    for (name, project, instance, count) in [
        ("tokens", "chunpy", "a", 1),
        ("tokens", "fuddo", "b", 2),
        ("candles", "chunpy", "a", 3),
        ("tokens", "chunpy", "b", 4),
    ] {
        let mut attributes = attrs(project, instance);
        attributes.push(attribute("queue", "wrong"));
        attributes.push(attribute("outcome", "wrong"));
        let sets = AttributeSets::new(name, attributes);
        let mut expected = attrs(project, instance);
        expected.push(attribute("queue", name));
        assert_eq!(sets.common.len(), 3);
        assert_eq!(pairs(&sets.common), pairs(&expected));
        expected.push(attribute("outcome", "success"));
        assert_eq!(sets.success.len(), 4);
        assert_eq!(pairs(&sets.success), pairs(&expected));
        expected.pop();
        expected.push(attribute("outcome", "failure"));
        assert_eq!(pairs(&sets.failure), pairs(&expected));

        let accepted = AtomicU64::new(0);
        let mut metrics = Metrics::default();
        let (mut queue, _) = queue(count);
        for _ in 0..count {
            count_up(&accepted, 1);
        }
        metrics.flush(&mut queue, 0, Some(Ok(0)));
        assert_eq!(accepted.load(Ordering::Relaxed), count as u64);
        for instrument in [Instrument::AcknowledgedItems, Instrument::AttemptedItems] {
            let series = metrics.of(instrument);
            assert_eq!(series.len(), 1);
            assert_eq!(series[0].amount, Amount::Number(count as u64));
            assert_eq!(series[0].labels, LabelSet::Common);
        }
        let outcomes = metrics.of(Instrument::Outcomes);
        assert_eq!(outcomes.len(), 1);
        assert_eq!(outcomes[0].amount, Amount::Number(1));
        assert_eq!(outcomes[0].labels, LabelSet::Success);
    }
}

#[test]
fn cumulative_totals_survive_all_handles_dropped_before_first_collection() {
    let accepted = Arc::new(AtomicU64::new(0));
    let payload_bytes = Arc::new(AtomicU64::new(0));
    let handle = (accepted.clone(), payload_bytes.clone());
    let clone = handle.clone();
    count_up(&handle.0, 2);
    count_up(&clone.0, 1);
    count_up(&handle.1, 100);
    count_up(&clone.1, 25);
    drop(handle);
    drop(clone);
    for _ in 0..2 {
        assert_eq!(accepted.load(Ordering::Relaxed), 3);
        assert_eq!(payload_bytes.load(Ordering::Relaxed), 125);
    }
    let sets = AttributeSets::new("tokens", attrs("korefan", "a"));
    let mut expected = attrs("korefan", "a");
    expected.push(attribute("queue", "tokens"));
    assert_eq!(pairs(&sets.common), pairs(&expected));
}

#[test]
fn producer_clones_count_once_and_collect_current_depth_without_mutating_it() {
    let runtime = tokio::runtime::Builder::new_multi_thread()
        .worker_threads(4)
        .build()
        .unwrap();
    let depth = Arc::new(AtomicUsize::new(9));
    let accepted = Arc::new(AtomicU64::new(0));
    let payload_bytes = Arc::new(AtomicU64::new(0));
    let mut producers = Vec::new();
    for _ in 0..4 {
        let accepted = accepted.clone();
        let payload_bytes = payload_bytes.clone();
        producers.push(runtime.spawn_blocking(move || {
            for _ in 0..1000 {
                count_up(&accepted, 1);
                count_up(&payload_bytes, 3);
            }
        }));
    }
    for producer in producers {
        runtime.block_on(producer).unwrap();
    }
    assert_eq!(depth.load(Ordering::Relaxed), 9);
    assert_eq!(accepted.load(Ordering::Relaxed), 4000);
    assert_eq!(payload_bytes.load(Ordering::Relaxed), 12000);
    let sets = AttributeSets::new("tokens", attrs("chunpy", "a"));
    assert_eq!(sets.common.len(), 3);
    for wanted in [
        ("instId".to_string(), Value::from("a")),
        ("project".to_string(), Value::from("chunpy")),
        ("queue".to_string(), Value::from("tokens")),
    ] {
        assert!(pairs(&sets.common).contains(&wanted));
    }
}

#[test]
fn values_of_every_kind_are_kept() {
    let given = vec![
        Attribute {
            key: "count".into(),
            value: Value::I64(7),
        },
        Attribute {
            key: "ratio".into(),
            value: Value::F64(0.5),
        },
    ];
    let sets = AttributeSets::new("q", given);
    assert_eq!(
        pairs(&sets.failure),
        vec![
            ("count".to_string(), Value::I64(7)),
            ("ratio".to_string(), Value::F64(0.5)),
            ("queue".to_string(), Value::from("q")),
            ("outcome".to_string(), Value::from("failure")),
        ]
    );
}

#[test]
fn instruments_have_the_documented_names_and_units() {
    let expected: [(&str, Option<&str>); 13] = [
        ("data_save_pending", Some("{item}")),
        ("data_save_in_flight", Some("{attempt}")),
        ("data_save_accepted_items_total", Some("{item}")),
        ("data_save_payload_bytes_total", Some("By")),
        ("data_save_acknowledged_items_total", Some("{item}")),
        ("data_save_attempted_items_total", Some("{item}")),
        ("data_save_attempts_total", Some("{attempt}")),
        ("data_save_retries_total", Some("{attempt}")),
        ("data_save_writer_rows_total", Some("{row}")),
        ("data_save_flush_total", None),
        ("data_save_flush_duration_seconds", Some("s")),
        ("data_save_batch_age_seconds", Some("s")),
        ("data_save_batch_size", Some("{item}")),
    ];
    for (instrument, (name, unit)) in INSTRUMENTS.into_iter().zip(expected) {
        assert_eq!(instrument.definition().name, name);
        assert_eq!(instrument.definition().unit, unit);
        let is_time = instrument.definition().kind == InstrumentKind::SecondsHistogram;
        assert_eq!(instrument.bounds_millis().is_empty(), !is_time);
    }
}

#[test]
fn attempts_are_in_flight_until_they_are_dropped() {
    let in_flight = AtomicUsize::new(0);
    let first = InFlight::begin(&in_flight);
    let second = InFlight::begin(&in_flight);
    assert_eq!(in_flight.load(Ordering::Relaxed), 2);
    drop(first);
    assert_eq!(in_flight.load(Ordering::Relaxed), 1);
    drop(second);
    assert_eq!(in_flight.load(Ordering::Relaxed), 0);
}

#[test]
fn totals_grow_by_what_is_counted() {
    let total = AtomicU64::new(0);
    for count in [100, 25, 0] {
        count_up(&total, count);
    }
    assert_eq!(total.load(Ordering::Relaxed), 125);
}
