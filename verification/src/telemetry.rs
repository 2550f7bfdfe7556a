//! What is measured of a queue: the instruments, their labels, and what each writer attempt
//! adds to them.

use std::sync::atomic::AtomicU64;
use std::sync::atomic::AtomicUsize;
use std::sync::atomic::Ordering;

use vstd::prelude::*;

use crate::shared::counts;
use crate::shared::law_counters_show_what_is_left;
use crate::shared::own_steps;
use crate::shared::risen_elsewhere;
use crate::shared::shown_after;
use crate::shared::HistoryStep;
use crate::shared::TotalAccess;
use crate::shared::TotalView;
use crate::shared::WordAccess;
use crate::shared::WordStep;
use crate::shared::WordView;
use crate::text::same_text;

verus! {

/// `opentelemetry::Value`, carried through and never looked into.
#[verifier::external_type_specification]
#[verifier::external_body]
pub struct ExValue(opentelemetry::Value);

/// The attribute value that `opentelemetry::Value::from` makes of a text.
pub uninterp spec fn text_value(text: Seq<char>) -> opentelemetry::Value;

/// `<opentelemetry::Value as From<&'static str>>::from`: a text as an attribute value, which
/// depends on nothing but the text.
#[verifier::external_body]
fn value_of_text(text: &'static str) -> (value: opentelemetry::Value)
    ensures
        value == text_value(text@),
{
    opentelemetry::Value::from(text)
}

/// `<opentelemetry::Value as Clone>::clone`: an equal value.
pub assume_specification[ <opentelemetry::Value as Clone>::clone ](
    value: &opentelemetry::Value,
) -> (copy: opentelemetry::Value)
    ensures
        copy == *value,
;

/// A label on a measurement.
#[derive(Debug)]
pub struct Attribute {
    pub key: String,
    pub value: opentelemetry::Value,
}

/// A label as its key and value.
pub type Label = (Seq<char>, opentelemetry::Value);

impl View for Attribute {
    type V = Label;

    open spec fn view(&self) -> Label {
        (self.key@, self.value)
    }
}

/// The labels of a queue's measurements: those of every measurement, and those of attempts
/// that succeeded or failed.
pub struct AttributeSets {
    pub common: Vec<Attribute>,
    pub success: Vec<Attribute>,
    pub failure: Vec<Attribute>,
}

/// Labels as keys with values.
pub open spec fn labels(attributes: Seq<Attribute>) -> Seq<Label> {
    attributes.map_values(|attribute: Attribute| attribute@)
}

/// Whether a label is one that callers cannot set.
pub open spec fn reserved(label: Label) -> bool {
    label.0 == "queue"@ || label.0 == "outcome"@
}

/// A label with a text as its value.
pub open spec fn text_label(key: Seq<char>, text: Seq<char>) -> Label {
    (key, text_value(text))
}

/// The labels of every measurement of a queue: those of the caller that are not reserved,
/// in their order, and the name of the queue.
pub open spec fn common_labels(queue: Seq<char>, given: Seq<Label>) -> Seq<Label> {
    given.filter(|label: Label| !reserved(label)).push(text_label("queue"@, queue))
}

impl Attribute {
    /// A label with a text as its value.
    fn text(key: &'static str, text: &'static str) -> (attribute: Attribute)
        ensures
            attribute@ == text_label(key@, text@),
    {
        Attribute { key: key.to_owned(), value: value_of_text(text) }
    }
}

fn copied(attributes: &Vec<Attribute>) -> (copies: Vec<Attribute>)
    ensures
        labels(copies@) == labels(attributes@),
{
    let mut copies: Vec<Attribute> = Vec::new();
    for at in 0..attributes.len()
        invariant
            labels(copies@) == labels(attributes@).take(at as int),
    {
        let ghost before = labels(copies@);
        let key: String = attributes[at].key.clone();
        let value: opentelemetry::Value = attributes[at].value.clone();
        copies.push(Attribute { key, value });
        assert(labels(copies@) =~= before.push(attributes@[at as int]@));
        assert(labels(copies@) =~= labels(attributes@).take(at + 1));
    }
    assert(labels(attributes@).take(attributes@.len() as int) == labels(attributes@));
    copies
}

impl AttributeSets {
    /// The labels of a queue, from its name and the labels that the caller wants besides.
    pub fn new(queue: &'static str, attributes: Vec<Attribute>) -> (sets: AttributeSets)
        ensures
            labels(sets.common@) == common_labels(queue@, labels(attributes@)),
            labels(sets.success@) == labels(sets.common@).push(
                text_label("outcome"@, "success"@),
            ),
            labels(sets.failure@) == labels(sets.common@).push(
                text_label("outcome"@, "failure"@),
            ),
    {
        let ghost given = labels(attributes@);
        let ghost kept = |label: Label| !reserved(label);
        let mut common: Vec<Attribute> = Vec::new();
        assert(labels(common@) =~= given.take(0).filter(kept));
        for attribute in iter: attributes
            invariant
                given == labels(iter.seq()),
                kept == (|label: Label| !reserved(label)),
                labels(common@) == given.take(iter.index() as int).filter(kept),
        {
            proof {
                let at = iter.index() as int;
                assert(given[at] == attribute@);
                reveal(Seq::filter);
                assert(given.take(at + 1).drop_last() == given.take(at));
            }
            if !(same_text(attribute.key.as_str(), "queue") || same_text(
                attribute.key.as_str(),
                "outcome",
            )) {
                let ghost before = labels(common@);
                common.push(attribute);
                assert(labels(common@) =~= before.push(attribute@));
            }
        }
        assert(given.take(given.len() as int) == given);
        let ghost before = labels(common@);
        common.push(Attribute::text("queue", queue));
        assert(labels(common@) =~= before.push(text_label("queue"@, queue@)));
        let mut success: Vec<Attribute> = copied(&common);
        success.push(Attribute::text("outcome", "success"));
        assert(labels(success@) =~= labels(common@).push(text_label("outcome"@, "success"@)));
        let mut failure: Vec<Attribute> = copied(&common);
        failure.push(Attribute::text("outcome", "failure"));
        assert(labels(failure@) =~= labels(common@).push(text_label("outcome"@, "failure"@)));
        AttributeSets { common, success, failure }
    }
}

/// Something that is measured of a queue.
#[derive(Clone, Copy, Debug, PartialEq, Eq, Structural)]
pub enum Instrument {
    Pending,
    InFlight,
    AcceptedItems,
    PayloadBytes,
    AcknowledgedItems,
    AttemptedItems,
    Attempts,
    Retries,
    WriterRows,
    Outcomes,
    FlushDuration,
    BatchAge,
    BatchSize,
}

/// How an instrument is read.
#[derive(Clone, Copy, Debug, PartialEq, Eq, Structural)]
pub enum InstrumentKind {
    /// Read when metrics are collected, while the queue is there.
    ObservableGauge,
    /// Read when metrics are collected; the total outlives the queue.
    ObservableCounter,
    /// Added to.
    Counter,
    /// A distribution of times in seconds.
    SecondsHistogram,
    /// A distribution of numbers of items.
    ItemsHistogram,
}

/// What an instrument is registered with.
#[derive(Clone, Copy, Debug)]
pub struct Definition {
    pub name: &'static str,
    pub description: &'static str,
    pub unit: Option<&'static str>,
    pub kind: InstrumentKind,
}

impl Instrument {
    /// The name of the instrument.
    pub open spec fn name(self) -> Seq<char> {
        match self {
            Instrument::Pending => "data_save_pending"@,
            Instrument::InFlight => "data_save_in_flight"@,
            Instrument::AcceptedItems => "data_save_accepted_items_total"@,
            Instrument::PayloadBytes => "data_save_payload_bytes_total"@,
            Instrument::AcknowledgedItems => "data_save_acknowledged_items_total"@,
            Instrument::AttemptedItems => "data_save_attempted_items_total"@,
            Instrument::Attempts => "data_save_attempts_total"@,
            Instrument::Retries => "data_save_retries_total"@,
            Instrument::WriterRows => "data_save_writer_rows_total"@,
            Instrument::Outcomes => "data_save_flush_total"@,
            Instrument::FlushDuration => "data_save_flush_duration_seconds"@,
            Instrument::BatchAge => "data_save_batch_age_seconds"@,
            Instrument::BatchSize => "data_save_batch_size"@,
        }
    }

    /// What the instrument measures.
    pub open spec fn description(self) -> Seq<char> {
        match self {
            Instrument::Pending => "Accepted items including queued, in-flight and retry batches"@,
            Instrument::InFlight => "Active writer attempts, cleared on completion or cancellation"@,
            Instrument::AcceptedItems => "Items successfully admitted to the queue"@,
            Instrument::PayloadBytes => "Encoded payload bytes including retries, not transmitted, committed or disk bytes"@,
            Instrument::AcknowledgedItems => "Queue items acknowledged by successful writes, independent of affected rows"@,
            Instrument::AttemptedItems => "Items submitted to writer attempts including retries and cancelled attempts"@,
            Instrument::Attempts => "Started writer attempts including cancelled attempts"@,
            Instrument::Retries => "Writer attempts after a previous failure or cancellation of the same batch"@,
            Instrument::WriterRows => "Affected rows returned by successful writers, not queue items"@,
            Instrument::Outcomes => "Completed writer attempts by success or failure"@,
            Instrument::FlushDuration => "Completed writer attempt duration"@,
            Instrument::BatchAge => "Oldest item age in the attempted batch at completion, not whole queue age"@,
            Instrument::BatchSize => "Items per started writer attempt including retries and cancellations"@,
        }
    }

    /// The unit of the instrument, if it has one.
    pub open spec fn unit(self) -> Option<Seq<char>> {
        match self {
            Instrument::Pending => Some("{item}"@),
            Instrument::InFlight => Some("{attempt}"@),
            Instrument::AcceptedItems => Some("{item}"@),
            Instrument::PayloadBytes => Some("By"@),
            Instrument::AcknowledgedItems => Some("{item}"@),
            Instrument::AttemptedItems => Some("{item}"@),
            Instrument::Attempts => Some("{attempt}"@),
            Instrument::Retries => Some("{attempt}"@),
            Instrument::WriterRows => Some("{row}"@),
            Instrument::Outcomes => None,
            Instrument::FlushDuration => Some("s"@),
            Instrument::BatchAge => Some("s"@),
            Instrument::BatchSize => Some("{item}"@),
        }
    }

    /// How the instrument is read.
    pub open spec fn kind(self) -> InstrumentKind {
        match self {
            Instrument::Pending | Instrument::InFlight => InstrumentKind::ObservableGauge,
            Instrument::AcceptedItems | Instrument::PayloadBytes => InstrumentKind::ObservableCounter,
            Instrument::FlushDuration | Instrument::BatchAge => InstrumentKind::SecondsHistogram,
            Instrument::BatchSize => InstrumentKind::ItemsHistogram,
            _ => InstrumentKind::Counter,
        }
    }

    /// What the instrument is registered with.
    pub fn definition(self) -> (definition: Definition)
        ensures
            definition.name@ == self.name(),
            definition.description@ == self.description(),
            match definition.unit {
                Some(unit) => self.unit() == Some(unit@),
                None => self.unit() is None,
            },
            definition.kind == self.kind(),
    {
        match self {
            Instrument::Pending => Definition {
                name: "data_save_pending",
                description: "Accepted items including queued, in-flight and retry batches",
                unit: Some("{item}"),
                kind: InstrumentKind::ObservableGauge,
            },
            Instrument::InFlight => Definition {
                name: "data_save_in_flight",
                description: "Active writer attempts, cleared on completion or cancellation",
                unit: Some("{attempt}"),
                kind: InstrumentKind::ObservableGauge,
            },
            Instrument::AcceptedItems => Definition {
                name: "data_save_accepted_items_total",
                description: "Items successfully admitted to the queue",
                unit: Some("{item}"),
                kind: InstrumentKind::ObservableCounter,
            },
            Instrument::PayloadBytes => Definition {
                name: "data_save_payload_bytes_total",
                description: "Encoded payload bytes including retries, not transmitted, committed or disk bytes",
                unit: Some("By"),
                kind: InstrumentKind::ObservableCounter,
            },
            Instrument::AcknowledgedItems => Definition {
                name: "data_save_acknowledged_items_total",
                description: "Queue items acknowledged by successful writes, independent of affected rows",
                unit: Some("{item}"),
                kind: InstrumentKind::Counter,
            },
            Instrument::AttemptedItems => Definition {
                name: "data_save_attempted_items_total",
                description: "Items submitted to writer attempts including retries and cancelled attempts",
                unit: Some("{item}"),
                kind: InstrumentKind::Counter,
            },
            Instrument::Attempts => Definition {
                name: "data_save_attempts_total",
                description: "Started writer attempts including cancelled attempts",
                unit: Some("{attempt}"),
                kind: InstrumentKind::Counter,
            },
            Instrument::Retries => Definition {
                name: "data_save_retries_total",
                description: "Writer attempts after a previous failure or cancellation of the same batch",
                unit: Some("{attempt}"),
                kind: InstrumentKind::Counter,
            },
            Instrument::WriterRows => Definition {
                name: "data_save_writer_rows_total",
                description: "Affected rows returned by successful writers, not queue items",
                unit: Some("{row}"),
                kind: InstrumentKind::Counter,
            },
            Instrument::Outcomes => Definition {
                name: "data_save_flush_total",
                description: "Completed writer attempts by success or failure",
                unit: None,
                kind: InstrumentKind::Counter,
            },
            Instrument::FlushDuration => Definition {
                name: "data_save_flush_duration_seconds",
                description: "Completed writer attempt duration",
                unit: Some("s"),
                kind: InstrumentKind::SecondsHistogram,
            },
            Instrument::BatchAge => Definition {
                name: "data_save_batch_age_seconds",
                description: "Oldest item age in the attempted batch at completion, not whole queue age",
                unit: Some("s"),
                kind: InstrumentKind::SecondsHistogram,
            },
            Instrument::BatchSize => Definition {
                name: "data_save_batch_size",
                description: "Items per started writer attempt including retries and cancellations",
                unit: Some("{item}"),
                kind: InstrumentKind::ItemsHistogram,
            },
        }
    }

    /// The upper bounds of a time distribution's buckets, in milliseconds.
    pub open spec fn bounds(self) -> Seq<u64> {
        match self {
            Instrument::FlushDuration => seq![
                1u64,
                5,
                10,
                50,
                100,
                500,
                1_000,
                5_000,
                10_000,
                30_000,
                60_000,
                120_000,
            ],
            Instrument::BatchAge => seq![
                100u64,
                1_000,
                5_000,
                10_000,
                30_000,
                60_000,
                120_000,
                300_000,
            ],
            _ => Seq::empty(),
        }
    }

    /// The upper bounds of a time distribution's buckets, in milliseconds.
    pub fn bounds_millis(self) -> (bounds: Vec<u64>)
        ensures
            bounds@ == self.bounds(),
    {
        match self {
            Instrument::FlushDuration => vec![
                1u64,
                5,
                10,
                50,
                100,
                500,
                1_000,
                5_000,
                10_000,
                30_000,
                60_000,
                120_000,
            ],
            Instrument::BatchAge => vec![
                100u64,
                1_000,
                5_000,
                10_000,
                30_000,
                60_000,
                120_000,
                300_000,
            ],
            _ => Vec::new(),
        }
    }
}

/// Which labels a measurement gets.
#[derive(Clone, Copy, Debug, PartialEq, Eq, Structural)]
pub enum LabelSet {
    Common,
    Success,
    Failure,
}

/// What is recorded: a number, or a time that the recorder reads off its clock.
#[derive(Clone, Copy, Debug, PartialEq, Eq, Structural)]
pub enum Amount {
    Number(u64),
    /// The time since the attempt started.
    AttemptTime,
    /// The time since the oldest item of the batch was handed over.
    OldestItemTime,
}

/// One measurement.
#[derive(Clone, Copy, Debug, PartialEq, Eq, Structural)]
pub struct Recording {
    pub instrument: Instrument,
    pub amount: Amount,
    pub labels: LabelSet,
}

/// A number with the labels of every measurement.
pub open spec fn common_number(instrument: Instrument, number: u64) -> Recording {
    Recording { instrument, amount: Amount::Number(number), labels: LabelSet::Common }
}

/// What the start of an attempt at `len` items records.
pub open spec fn start_recordings(len: usize, retry: bool) -> Seq<Recording> {
    let size = common_number(Instrument::BatchSize, len as u64);
    let begun = seq![
        common_number(Instrument::Attempts, 1),
        common_number(Instrument::AttemptedItems, len as u64),
    ];
    if retry {
        begun.push(common_number(Instrument::Retries, 1)).push(size)
    } else {
        begun.push(size)
    }
}

/// What the end of an attempt at `len` items records: `rows` is what a writer that succeeded
/// returned, none if it failed.
pub open spec fn end_recordings(len: usize, rows: Option<u64>) -> Seq<Recording> {
    let labels = if rows is Some {
        LabelSet::Success
    } else {
        LabelSet::Failure
    };
    let ended = seq![
        Recording { instrument: Instrument::Outcomes, amount: Amount::Number(1), labels },
        Recording { instrument: Instrument::FlushDuration, amount: Amount::AttemptTime, labels },
        Recording { instrument: Instrument::BatchAge, amount: Amount::OldestItemTime, labels },
    ];
    match rows {
        Some(rows) => seq![
            common_number(Instrument::AcknowledgedItems, len as u64),
            common_number(Instrument::WriterRows, rows),
        ] + ended,
        None => ended,
    }
}

fn counted(instrument: Instrument, number: u64) -> (recording: Recording)
    ensures
        recording == common_number(instrument, number),
{
    Recording { instrument, amount: Amount::Number(number), labels: LabelSet::Common }
}

/// What the start of an attempt at `len` items records.
pub fn attempt_started(len: usize, retry: bool) -> (recordings: Vec<Recording>)
    ensures
        recordings@ == start_recordings(len, retry),
{
    let mut recordings: Vec<Recording> = Vec::new();
    recordings.push(counted(Instrument::Attempts, 1));
    recordings.push(counted(Instrument::AttemptedItems, len as u64));
    if retry {
        recordings.push(counted(Instrument::Retries, 1));
    }
    recordings.push(counted(Instrument::BatchSize, len as u64));
    assert(recordings@ =~= start_recordings(len, retry));
    recordings
}

/// What the end of an attempt at `len` items records.
pub fn attempt_ended(len: usize, rows: Option<u64>) -> (recordings: Vec<Recording>)
    ensures
        recordings@ == end_recordings(len, rows),
{
    let mut recordings: Vec<Recording> = Vec::new();
    let labels: LabelSet = match rows {
        Some(rows) => {
            recordings.push(counted(Instrument::AcknowledgedItems, len as u64));
            recordings.push(counted(Instrument::WriterRows, rows));
            LabelSet::Success
        },
        None => LabelSet::Failure,
    };
    recordings.push(
        Recording { instrument: Instrument::Outcomes, amount: Amount::Number(1), labels },
    );
    recordings.push(
        Recording { instrument: Instrument::FlushDuration, amount: Amount::AttemptTime, labels },
    );
    recordings.push(
        Recording { instrument: Instrument::BatchAge, amount: Amount::OldestItemTime, labels },
    );
    assert(recordings@ =~= end_recordings(len, rows));
    recordings
}

/// An attempt in flight: it counts as one until it is dropped, completed or not.
pub struct InFlight<'a> {
    access: WordAccess<&'a AtomicUsize>,
}

impl View for InFlight<'_> {
    type V = WordView;

    /// The shared count of attempts in flight, and what this attempt did to it.
    closed spec fn view(&self) -> WordView {
        self.access@
    }
}

impl<'a> InFlight<'a> {
    /// Counts one more attempt in flight.
    pub fn begin(in_flight: &'a AtomicUsize) -> (attempt: InFlight<'a>)
        ensures
            exists|found: usize|
                attempt@ == #[trigger] WordView::untouched(*in_flight).stepped(
                    WordStep::Add { found, amount: 1 },
                ),
    {
        let mut access = WordAccess::to(in_flight);
        access.add_to(1, Ordering::Relaxed);
        InFlight { access }
    }
}

impl Drop for InFlight<'_> {
    /// Counts one attempt less.
    fn drop(&mut self)
        ensures
            final(self)@ == old(self)@.stepped(WordStep::Subtract { amount: 1 }),
        opens_invariants none
        no_unwind
    {
        self.access.subtract(1, Ordering::Relaxed);
    }
}

/// How many attempts were begun in the history of a count.
pub open spec fn begun(history: Seq<HistoryStep>) -> nat
    decreases history.len(),
{
    if history.len() == 0 {
        0
    } else {
        begun(history.drop_last()) + if history.last().step is Add {
            1nat
        } else {
            0nat
        }
    }
}

/// How many attempts were dropped in the history of a count.
pub open spec fn dropped(history: Seq<HistoryStep>) -> nat
    decreases history.len(),
{
    if history.len() == 0 {
        0
    } else {
        dropped(history.drop_last()) + if history.last().step is Subtract {
            1nat
        } else {
            0nat
        }
    }
}

/// Whether everything that happens to a count is that attempts begin and are dropped, and that
/// it is read. No step is anybody's in particular.
pub open spec fn counts_attempts(history: Seq<HistoryStep>) -> bool {
    forall|i: int|
        0 <= i < history.len() ==> !(#[trigger] history[i]).own && match history[i].step {
            WordStep::Add { amount, .. } | WordStep::Subtract { amount } => amount == 1,
            WordStep::Load { .. } => true,
            WordStep::Mark { .. } => false,
        }
}

proof fn lemma_attempts_in_history(history: Seq<HistoryStep>)
    requires
        counts_attempts(history),
    ensures
        own_steps(history).len() == 0,
        risen_elsewhere(history) == begun(history) - dropped(history),
    decreases history.len(),
{
    if history.len() > 0 {
        let earlier = history.drop_last();
        assert(history[history.len() - 1] == history.last());
        assert forall|i: int| 0 <= i < earlier.len() implies #[trigger] earlier[i]
            == history[i] by {}
        lemma_attempts_in_history(earlier);
    }
}

/// A count of attempts in flight that started at zero shows how many were begun and are not
/// dropped yet.
pub proof fn law_in_flight_counts_open_attempts(history: Seq<HistoryStep>)
    requires
        counts(0, history),
        counts_attempts(history),
        dropped(history) <= begun(history) <= usize::MAX,
    ensures
        shown_after(0, history) == begun(history) - dropped(history),
{
    lemma_attempts_in_history(history);
    law_counters_show_what_is_left(0, history);
}

/// Adds a number of items or bytes to a shared total, whole and once.
pub fn count_up(total: &AtomicU64, count: usize) -> (access: TotalAccess<'_>)
    ensures
        access@ == (TotalView { total: *total, added: seq![count as u64] }),
{
    let mut access = TotalAccess::to(total);
    access.grow(count as u64);
    assert(access@.added =~= seq![count as u64]);
    access
}

/// An attempt as it went: how many items, whether the batch was attempted before, and how it
/// ended, if it did: with rows, or with a failure. An attempt that was cancelled has no end.
pub struct AttemptHistory {
    pub len: usize,
    pub retry: bool,
    pub end: Option<Option<u64>>,
}

/// Everything that attempts record, one after the other.
pub open spec fn all_recordings(attempts: Seq<AttemptHistory>) -> Seq<Recording>
    decreases attempts.len(),
{
    if attempts.len() == 0 {
        Seq::empty()
    } else {
        let last = attempts.last();
        all_recordings(attempts.drop_last()) + start_recordings(last.len, last.retry)
            + match last.end {
            Some(rows) => end_recordings(last.len, rows),
            None => Seq::empty(),
        }
    }
}

/// The sum of the numbers recorded for an instrument, under any labels.
pub open spec fn total(recordings: Seq<Recording>, instrument: Instrument) -> nat
    decreases recordings.len(),
{
    if recordings.len() == 0 {
        0
    } else {
        total(recordings.drop_last(), instrument) + match recordings.last().amount {
            Amount::Number(number) if recordings.last().instrument == instrument => number as nat,
            _ => 0,
        }
    }
}

/// The sum of a quantity over attempts.
pub open spec fn sum_over(
    attempts: Seq<AttemptHistory>,
    quantity: spec_fn(AttemptHistory) -> nat,
) -> nat
    decreases attempts.len(),
{
    if attempts.len() == 0 {
        0
    } else {
        sum_over(attempts.drop_last(), quantity) + quantity(attempts.last())
    }
}

proof fn lemma_total_of_concat(left: Seq<Recording>, right: Seq<Recording>, instrument: Instrument)
    ensures
        total(left + right, instrument) == total(left, instrument) + total(right, instrument),
    decreases right.len(),
{
    if right.len() == 0 {
        assert(left + right == left);
    } else {
        lemma_total_of_concat(left, right.drop_last(), instrument);
        assert((left + right).drop_last() == left + right.drop_last());
    }
}

proof fn lemma_total_of_push(recordings: Seq<Recording>, last: Recording, instrument: Instrument)
    ensures
        total(recordings.push(last), instrument) == total(recordings, instrument)
            + match last.amount {
            Amount::Number(number) if last.instrument == instrument => number as nat,
            _ => 0,
        },
{
    assert(recordings.push(last).drop_last() == recordings);
}

/// What one attempt adds to each total.
proof fn lemma_totals_of_attempt(attempt: AttemptHistory, instrument: Instrument)
    ensures
        total(
            start_recordings(attempt.len, attempt.retry),
            instrument,
        ) == match instrument {
            Instrument::Attempts => 1,
            Instrument::AttemptedItems | Instrument::BatchSize => attempt.len as nat,
            Instrument::Retries => if attempt.retry {
                1
            } else {
                0
            },
            _ => 0,
        },
        attempt.end matches Some(rows) ==> total(
            end_recordings(attempt.len, rows),
            instrument,
        ) == match instrument {
            Instrument::Outcomes => 1,
            Instrument::AcknowledgedItems => if rows is Some {
                attempt.len as nat
            } else {
                0
            },
            Instrument::WriterRows => if rows is Some {
                rows->0 as nat
            } else {
                0
            },
            _ => 0,
        },
{
    let none = Seq::<Recording>::empty();
    let begun = none.push(common_number(Instrument::Attempts, 1)).push(
        common_number(Instrument::AttemptedItems, attempt.len as u64),
    );
    let retried = begun.push(common_number(Instrument::Retries, 1));
    let size = common_number(Instrument::BatchSize, attempt.len as u64);
    lemma_total_of_push(none, common_number(Instrument::Attempts, 1), instrument);
    lemma_total_of_push(begun.drop_last(), begun.last(), instrument);
    assert(begun.drop_last() == none.push(common_number(Instrument::Attempts, 1)));
    lemma_total_of_push(begun, common_number(Instrument::Retries, 1), instrument);
    lemma_total_of_push(begun, size, instrument);
    lemma_total_of_push(retried, size, instrument);
    assert(start_recordings(attempt.len, attempt.retry) =~= if attempt.retry {
        retried.push(size)
    } else {
        begun.push(size)
    });
    if let Some(rows) = attempt.end {
        let labels = if rows is Some {
            LabelSet::Success
        } else {
            LabelSet::Failure
        };
        let acknowledged = none.push(
            common_number(Instrument::AcknowledgedItems, attempt.len as u64),
        );
        let written = acknowledged.push(common_number(Instrument::WriterRows, rows->0));
        lemma_total_of_push(none, acknowledged.last(), instrument);
        lemma_total_of_push(acknowledged, written.last(), instrument);
        let outcome = Recording {
            instrument: Instrument::Outcomes,
            amount: Amount::Number(1),
            labels,
        };
        let duration = Recording {
            instrument: Instrument::FlushDuration,
            amount: Amount::AttemptTime,
            labels,
        };
        let age = Recording {
            instrument: Instrument::BatchAge,
            amount: Amount::OldestItemTime,
            labels,
        };
        let first = if rows is Some {
            written
        } else {
            none
        };
        lemma_total_of_push(first, outcome, instrument);
        lemma_total_of_push(first.push(outcome), duration, instrument);
        lemma_total_of_push(first.push(outcome).push(duration), age, instrument);
        assert(end_recordings(attempt.len, rows) =~= first.push(outcome).push(duration).push(age));
    }
}

/// Whatever attempts are made, the totals follow from them: every attempt counts with its
/// items when it starts, cancelled or not; only attempts that ended count as outcomes; and a
/// success acknowledges the items of its batch, however many rows the writer returned.
pub proof fn law_totals_follow_from_attempts(attempts: Seq<AttemptHistory>)
    ensures
        total(all_recordings(attempts), Instrument::Attempts) == attempts.len(),
        total(all_recordings(attempts), Instrument::AttemptedItems) == sum_over(
            attempts,
            |attempt: AttemptHistory| attempt.len as nat,
        ),
        total(all_recordings(attempts), Instrument::Retries) == sum_over(
            attempts,
            |attempt: AttemptHistory|
                if attempt.retry {
                    1
                } else {
                    0
                },
        ),
        total(all_recordings(attempts), Instrument::Outcomes) == sum_over(
            attempts,
            |attempt: AttemptHistory|
                if attempt.end is Some {
                    1
                } else {
                    0
                },
        ),
        total(all_recordings(attempts), Instrument::AcknowledgedItems) == sum_over(
            attempts,
            |attempt: AttemptHistory|
                if attempt.end is Some && attempt.end->0 is Some {
                    attempt.len as nat
                } else {
                    0
                },
        ),
        total(all_recordings(attempts), Instrument::WriterRows) == sum_over(
            attempts,
            |attempt: AttemptHistory|
                if attempt.end is Some && attempt.end->0 is Some {
                    attempt.end->0->0 as nat
                } else {
                    0
                },
        ),
    decreases attempts.len(),
{
    if attempts.len() > 0 {
        let last = attempts.last();
        let earlier = all_recordings(attempts.drop_last());
        let begun = start_recordings(last.len, last.retry);
        let ended = match last.end {
            Some(rows) => end_recordings(last.len, rows),
            None => Seq::empty(),
        };
        law_totals_follow_from_attempts(attempts.drop_last());
        assert forall|instrument: Instrument| #[trigger]
            total(all_recordings(attempts), instrument) == total(earlier, instrument) + total(
                begun,
                instrument,
            ) + total(ended, instrument) by {
            lemma_total_of_concat(earlier, begun, instrument);
            lemma_total_of_concat(earlier + begun, ended, instrument);
        }
        lemma_totals_of_attempt(last, Instrument::Attempts);
        lemma_totals_of_attempt(last, Instrument::AttemptedItems);
        lemma_totals_of_attempt(last, Instrument::Retries);
        lemma_totals_of_attempt(last, Instrument::Outcomes);
        lemma_totals_of_attempt(last, Instrument::AcknowledgedItems);
        lemma_totals_of_attempt(last, Instrument::WriterRows);
    }
}

/// The labels of a queue name it exactly once, and never with a value of the caller's; only
/// the labels of ended attempts carry an outcome.
pub proof fn law_reserved_labels_are_the_librarys_own(queue: Seq<char>, given: Seq<Label>, i: int)
    requires
        0 <= i < common_labels(queue, given).len(),
    ensures
        common_labels(queue, given)[i].0 == "queue"@ <==> i == common_labels(queue, given).len()
            - 1,
        common_labels(queue, given).last() == text_label("queue"@, queue),
        common_labels(queue, given)[i].0 != "outcome"@,
{
    let kept = given.filter(|label: Label| !reserved(label));
    if i < kept.len() {
        given.lemma_filter_pred(|label: Label| !reserved(label), i);
    } else {
        reveal_strlit("queue");
        reveal_strlit("outcome");
        assert("queue"@.len() != "outcome"@.len());
    }
}

/// The bounds of a time distribution ascend.
pub proof fn law_bounds_ascend(instrument: Instrument, i: int, j: int)
    requires
        0 <= i < j < instrument.bounds().len(),
    ensures
        instrument.bounds()[i] < instrument.bounds()[j],
{
}

/// What the end of an attempt records, each once: one outcome, one duration and one batch age,
/// all under the labels of how it ended; and after a success the items of the batch as
/// acknowledged and the writer's rows, under the common labels. Nothing else.
pub proof fn law_ends_are_recorded_under_their_outcome(
    len: usize,
    rows: Option<u64>,
    recordings: Vec<Recording>,
    recording: Recording,
)
    requires
        call_ensures(attempt_ended, (len, rows), recordings),
    ensures
        recordings@.no_duplicates(),
        recordings@.contains(recording) <==> match recording.instrument {
            Instrument::Outcomes => recording.amount == Amount::Number(1) && recording.labels == (
            if rows is Some {
                LabelSet::Success
            } else {
                LabelSet::Failure
            }),
            Instrument::FlushDuration => recording.amount == Amount::AttemptTime
                && recording.labels == (if rows is Some {
                LabelSet::Success
            } else {
                LabelSet::Failure
            }),
            Instrument::BatchAge => recording.amount == Amount::OldestItemTime
                && recording.labels == (if rows is Some {
                LabelSet::Success
            } else {
                LabelSet::Failure
            }),
            Instrument::AcknowledgedItems => rows is Some && recording.labels == LabelSet::Common
                && (recording.amount matches Amount::Number(number) && number == len),
            Instrument::WriterRows => rows is Some && recording.labels == LabelSet::Common && (
            recording.amount matches Amount::Number(number) && number == rows->0),
            _ => false,
        },
{
    let all = end_recordings(len, rows);
    assert(recordings@ == all);
    if rows is Some {
        assert(all.len() == 5);
        assert(all[0].instrument == Instrument::AcknowledgedItems);
        assert(all[1].instrument == Instrument::WriterRows);
        assert(all[2].instrument == Instrument::Outcomes);
        assert(all[3].instrument == Instrument::FlushDuration);
        assert(all[4].instrument == Instrument::BatchAge);
        match recording.instrument {
            Instrument::AcknowledgedItems => assert(all.contains(all[0])),
            Instrument::WriterRows => assert(all.contains(all[1])),
            Instrument::Outcomes => assert(all.contains(all[2])),
            Instrument::FlushDuration => assert(all.contains(all[3])),
            Instrument::BatchAge => assert(all.contains(all[4])),
            _ => {},
        }
    } else {
        assert(all.len() == 3);
        assert(all[0].instrument == Instrument::Outcomes);
        assert(all[1].instrument == Instrument::FlushDuration);
        assert(all[2].instrument == Instrument::BatchAge);
        match recording.instrument {
            Instrument::Outcomes => assert(all.contains(all[0])),
            Instrument::FlushDuration => assert(all.contains(all[1])),
            Instrument::BatchAge => assert(all.contains(all[2])),
            _ => {},
        }
    }
}

/// What the start of an attempt records, each once and under the common labels: one attempt, its
/// items, the size of its batch, and one retry if the batch was attempted before. Nothing else.
pub proof fn law_starts_are_recorded_with_their_items(
    len: usize,
    retry: bool,
    recordings: Vec<Recording>,
    recording: Recording,
)
    requires
        call_ensures(attempt_started, (len, retry), recordings),
    ensures
        recordings@.no_duplicates(),
        recordings@.contains(recording) <==> recording.labels == LabelSet::Common
            && match recording.instrument {
            Instrument::Attempts => recording.amount == Amount::Number(1),
            Instrument::Retries => retry && recording.amount == Amount::Number(1),
            Instrument::AttemptedItems | Instrument::BatchSize => recording.amount
                matches Amount::Number(number) && number == len,
            _ => false,
        },
{
    let all = start_recordings(len, retry);
    assert(recordings@ == all);
    assert(all[0].instrument == Instrument::Attempts);
    assert(all[1].instrument == Instrument::AttemptedItems);
    let size = if retry {
        3int
    } else {
        2int
    };
    assert(all.len() == size + 1);
    assert(retry ==> all[2].instrument == Instrument::Retries);
    assert(all[size].instrument == Instrument::BatchSize);
    match recording.instrument {
        Instrument::Attempts => assert(all.contains(all[0])),
        Instrument::AttemptedItems => assert(all.contains(all[1])),
        Instrument::Retries => assert(all.contains(all[2]) || !retry),
        Instrument::BatchSize => assert(all.contains(all[size])),
        _ => {},
    }
}

/// Totals add up recording by recording, each instrument for itself.
pub proof fn law_totals_add_up(
    recordings: Seq<Recording>,
    instrument: Instrument,
    labels: LabelSet,
    number: u64,
    other: Instrument,
)
    ensures
        total(Seq::empty(), instrument) == 0,
        total(
            recordings.push(Recording { instrument, amount: Amount::Number(number), labels }),
            instrument,
        ) == total(recordings, instrument) + number,
        other != instrument ==> total(
            recordings.push(Recording { instrument, amount: Amount::Number(number), labels }),
            other,
        ) == total(recordings, other),
{
    let last = Recording { instrument, amount: Amount::Number(number), labels };
    lemma_total_of_push(recordings, last, instrument);
    lemma_total_of_push(recordings, last, other);
}

/// A queue's labels are those that the caller gave, in their order, but for the keys `queue` and
/// `outcome`, and then the queue's name.
pub proof fn law_labels_are_kept_in_order(queue: Seq<char>, given: Seq<Label>, last: Label)
    ensures
        common_labels(queue, Seq::empty()) == seq![("queue"@, text_value(queue))],
        common_labels(queue, given).last() == ("queue"@, text_value(queue)),
        common_labels(queue, given.push(last)).drop_last() == common_labels(
            queue,
            given,
        ).drop_last() + if last.0 == "queue"@ || last.0 == "outcome"@ {
            Seq::empty()
        } else {
            seq![last]
        },
{
    let kept = |label: Label| !reserved(label);
    reveal(Seq::filter);
    assert(given.push(last).drop_last() =~= given);
    assert(common_labels(queue, given).drop_last() =~= given.filter(kept));
    assert(common_labels(queue, given.push(last)).drop_last() =~= given.push(last).filter(kept));
    assert(Seq::<Label>::empty().filter(kept) =~= Seq::<Label>::empty());
    assert(common_labels(queue, Seq::empty()) =~= seq![("queue"@, text_value(queue))]);
    assert(given.push(last).filter(kept) =~= given.filter(kept) + if last.0 == "queue"@ || last.0
        == "outcome"@ {
        Seq::empty()
    } else {
        seq![last]
    });
}

/// Attempts that ended carry the common labels and, behind them, how they ended: `success` or
/// `failure` under the key `outcome`.
pub proof fn law_outcomes_are_labelled(
    queue: &'static str,
    attributes: Vec<Attribute>,
    sets: AttributeSets,
    i: int,
)
    requires
        call_ensures(AttributeSets::new, (queue, attributes), sets),
    ensures
        sets.success@.len() == sets.common@.len() + 1,
        sets.failure@.len() == sets.common@.len() + 1,
        0 <= i < sets.common@.len() ==> {
            &&& sets.success@[i].key@ == sets.common@[i].key@
            &&& sets.success@[i].value == sets.common@[i].value
            &&& sets.failure@[i].key@ == sets.common@[i].key@
            &&& sets.failure@[i].value == sets.common@[i].value
        },
        sets.success@.last().key@ == "outcome"@,
        sets.success@.last().value == text_value("success"@),
        sets.failure@.last().key@ == "outcome"@,
        sets.failure@.last().value == text_value("failure"@),
        sets.common@.last().key@ == "queue"@,
        sets.common@.last().value == text_value(queue@),
{
    let common = labels(sets.common@);
    let success = labels(sets.success@);
    let failure = labels(sets.failure@);
    assert(success.len() == sets.success@.len() && failure.len() == sets.failure@.len());
    assert(common.len() == sets.common@.len());
    if 0 <= i < sets.common@.len() {
        assert(success[i] == common[i] && failure[i] == common[i]);
        assert(success[i] == sets.success@[i]@ && failure[i] == sets.failure@[i]@);
        assert(common[i] == sets.common@[i]@);
    }
    let last = sets.common@.len() as int;
    assert(success[last] == sets.success@[last]@ && failure[last] == sets.failure@[last]@);
    assert(common[last - 1] == sets.common@[last - 1]@);
}

/// What an instrument is: gauges show what is pending and in flight, the totals of accepted items
/// and payload bytes are read when metrics are collected, times are distributions in seconds with
/// bounds, the batch size is a distribution of items, and everything else is counted.
pub proof fn law_instruments_have_their_kind(instrument: Instrument, definition: Definition)
    requires
        call_ensures(Instrument::definition, (instrument,), definition),
    ensures
        definition.kind == InstrumentKind::ObservableGauge <==> instrument == Instrument::Pending
            || instrument == Instrument::InFlight,
        definition.kind == InstrumentKind::ObservableCounter <==> instrument
            == Instrument::AcceptedItems || instrument == Instrument::PayloadBytes,
        definition.kind == InstrumentKind::SecondsHistogram <==> instrument
            == Instrument::FlushDuration || instrument == Instrument::BatchAge,
        definition.kind == InstrumentKind::ItemsHistogram <==> instrument
            == Instrument::BatchSize,
        definition.kind == InstrumentKind::SecondsHistogram <==> instrument.bounds().len() > 0,
        definition.unit is None <==> instrument == Instrument::Outcomes,
{
}

/// Each instrument is described by what it measures.
pub proof fn law_instruments_are_described(instrument: Instrument, definition: Definition)
    requires
        call_ensures(Instrument::definition, (instrument,), definition),
    ensures
        definition.description@ == match instrument {
            Instrument::Pending => "Accepted items including queued, in-flight and retry batches"@,
            Instrument::InFlight => "Active writer attempts, cleared on completion or cancellation"@,
            Instrument::AcceptedItems => "Items successfully admitted to the queue"@,
            Instrument::PayloadBytes => "Encoded payload bytes including retries, not transmitted, committed or disk bytes"@,
            Instrument::AcknowledgedItems => "Queue items acknowledged by successful writes, independent of affected rows"@,
            Instrument::AttemptedItems => "Items submitted to writer attempts including retries and cancelled attempts"@,
            Instrument::Attempts => "Started writer attempts including cancelled attempts"@,
            Instrument::Retries => "Writer attempts after a previous failure or cancellation of the same batch"@,
            Instrument::WriterRows => "Affected rows returned by successful writers, not queue items"@,
            Instrument::Outcomes => "Completed writer attempts by success or failure"@,
            Instrument::FlushDuration => "Completed writer attempt duration"@,
            Instrument::BatchAge => "Oldest item age in the attempted batch at completion, not whole queue age"@,
            Instrument::BatchSize => "Items per started writer attempt including retries and cancellations"@,
        },
{
}

} // verus!
