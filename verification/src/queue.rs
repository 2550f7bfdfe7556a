//! Queues that keep a batch until its writer acknowledges it.
//!
//! A queue is driven in steps. `prepare` decides whether there is a batch to write and takes
//! one from the channel if need be, `begin_attempt` opens an attempt to write it, `items` is
//! what the writer gets, and `complete` says what becomes of the batch. An attempt that is
//! never completed leaves the batch where it is.

use std::sync::atomic::AtomicUsize;
use std::sync::Arc;

use vstd::prelude::*;

use crate::clock::Deadline;
use crate::clock::Moment;
use crate::depth::DepthCounter;
use crate::inbox::items_of;
use crate::inbox::Inbox;
use crate::shared::counts;
use crate::shared::law_counters_show_what_is_left;
use crate::shared::lemma_lowered_of_push;
use crate::shared::lowered;
use crate::shared::only_lowers;
use crate::shared::own_steps;
use crate::shared::risen_elsewhere;
use crate::shared::shown_after;
use crate::shared::HistoryStep;
use crate::shared::WordAccess;
use crate::shared::WordStep;
use crate::shared::WordView;

verus! {

/// How many items a batch holds at most.
pub const MAX_BATCH_SIZE: usize = 500;

/// How long a batch rests after a failed attempt, in nanoseconds.
pub const RETRY_DELAY_NANOS: u64 = 1_000_000_000;

/// The failure of a batch that raises an alert.
pub const ALERT_AFTER_FAILURES: u32 = 5;

/// An item with the time at which its producer handed it over.
pub struct Queued<T> {
    pub value: T,
    pub enqueued_at: Moment,
}

/// What tells batches apart across attempts.
pub trait BatchIdentity: Sized + Send + Sync + 'static {
    /// An identity for a new batch.
    fn new_batch() -> Self;
}

impl BatchIdentity for () {
    fn new_batch() -> Self {
    }
}

/// A random identity under which a writer keeps receipts.
#[derive(Clone, Copy, Debug, PartialEq, Eq, Hash, Structural)]
pub struct ReceiptId {
    pub bits: u128,
}

/// Whether a number has the version and variant bits of a random UUID.
pub open spec fn is_random_uuid(bits: u128) -> bool {
    bits & 0xF000_C000_0000_0000_0000u128 == 0x4000_8000_0000_0000_0000u128
}

/// `Uuid::new_v4`: a random UUID as a number. It carries the version and variant bits of a
/// random UUID; the rest is chance.
#[verifier::external_body]
fn random_uuid() -> (bits: u128)
    ensures
        is_random_uuid(bits),
{
    uuid::Uuid::new_v4().as_u128()
}

/// Whether a number came out of a draw of a random UUID.
pub closed spec fn is_drawn(bits: u128) -> bool {
    call_ensures(random_uuid, (), bits)
}

impl BatchIdentity for ReceiptId {
    fn new_batch() -> (id: Self)
        ensures
            is_drawn(id.bits),
            is_random_uuid(id.bits),
            id.bits != 0,
    {
        let bits: u128 = random_uuid();
        assert(is_random_uuid(bits) ==> bits != 0) by (bit_vector);
        ReceiptId { bits }
    }
}

/// What an observer learns of a batch.
#[derive(Clone, Copy, Debug)]
pub struct BatchInfo<Id = ()> {
    pub id: Id,
    pub queue: &'static str,
    pub len: usize,
    pub oldest_enqueued_at: Moment,
    pub attempt: u32,
    pub pending: usize,
}

/// How a flush ended.
#[derive(Clone, Copy, Debug, PartialEq, Eq, Structural)]
pub enum FlushOutcome {
    Idle,
    Success,
    Retained,
}

/// An attempt that was opened, and whether the batch was attempted before.
#[derive(Clone, Copy, Debug)]
pub struct Attempt<Id> {
    pub info: BatchInfo<Id>,
    pub retry: bool,
}

/// What follows from the end of an attempt: the outcome, how many items were taken off each
/// depth counter, and whether the failure raises an alert.
#[derive(Clone, Copy, Debug, PartialEq, Eq, Structural)]
pub struct Ended {
    pub outcome: FlushOutcome,
    pub released: usize,
    pub alert: bool,
}

/// The end of an attempt, with how many accepted items the queue counts after that.
#[derive(Clone, Copy, Debug, PartialEq, Eq, Structural)]
pub struct Completion {
    pub outcome: FlushOutcome,
    pub released: usize,
    pub alert: bool,
    pub pending: usize,
}

impl Ended {
    /// The end of an attempt, `depth` being what the queue's counter shows after it.
    pub open spec fn reported(self, depth: usize) -> Completion {
        Completion {
            outcome: self.outcome,
            released: self.released,
            alert: self.alert,
            pending: depth,
        }
    }

    /// The end of an attempt, `depth` being what the queue's counter shows after it.
    pub fn report(self, depth: usize) -> (completion: Completion)
        ensures
            completion == self.reported(depth),
    {
        Completion {
            outcome: self.outcome,
            released: self.released,
            alert: self.alert,
            pending: depth,
        }
    }
}

struct PendingBatch<T, Id> {
    id: Id,
    items: Vec<T>,
    oldest_enqueued_at: Moment,
    failures: u32,
    alerted: bool,
    attempted: bool,
}

/// A queue with at most one batch that waits for its acknowledgement. Its producers add what
/// they hand over to `depth`; what is acknowledged is taken off it, and off the counter that
/// several queues may share.
#[verifier::reject_recursive_types(T)]
pub struct BatchQueue<T, Id = ()> {
    pub name: &'static str,
    depth: DepthCounter,
    total_depth: Option<DepthCounter>,
    inbox: Inbox<T>,
    pending: Option<PendingBatch<T, Id>>,
    retry_after: Option<Deadline>,
    acknowledged: Ghost<Seq<T>>,
}

/// A batch: its items in the order of their arrival and what happened to it so far.
pub struct BatchView<T, Id> {
    pub id: Id,
    pub items: Seq<T>,
    pub oldest: Moment,
    pub failures: u32,
    pub alerted: bool,
    pub attempted: bool,
}

/// A queue: its name, its counter and the shared one with what the queue did to them, what the
/// channel answered so far, the items that were acknowledged, the batch that is not yet
/// acknowledged, and when it may be attempted again.
pub struct QueueView<T, Id> {
    pub name: Seq<char>,
    pub depth: WordView,
    pub total_depth: Option<WordView>,
    pub answers: Seq<Option<Queued<T>>>,
    pub acknowledged: Seq<T>,
    pub pending: Option<BatchView<T, Id>>,
    pub retry_after: Option<int>,
}

/// The values of items, without their times.
pub open spec fn values<T>(items: Seq<Queued<T>>) -> Seq<T> {
    items.map_values(|item: Queued<T>| item.value)
}

/// The earliest time among items.
pub open spec fn oldest_of<T>(items: Seq<Queued<T>>) -> Moment
    recommends
        items.len() > 0,
    decreases items.len(),
{
    if items.len() <= 1 {
        items[0].enqueued_at
    } else {
        oldest_of(items.drop_last()).spec_earlier(items.last().enqueued_at)
    }
}

/// The answers of a channel that is polled until a batch is full or nothing is left.
pub open spec fn fills_batch<T>(answers: Seq<Option<Queued<T>>>) -> bool {
    &&& 0 < answers.len() <= MAX_BATCH_SIZE
    &&& forall|i: int| 0 <= i < answers.len() - 1 ==> (#[trigger] answers[i]) is Some
    &&& answers.last() is Some ==> answers.len() == MAX_BATCH_SIZE
}

impl<T, Id> BatchView<T, Id> {
    /// A batch of items that just arrived.
    pub open spec fn fresh(id: Id, items: Seq<Queued<T>>) -> Self {
        BatchView {
            id,
            items: values(items),
            oldest: oldest_of(items),
            failures: 0,
            alerted: false,
            attempted: false,
        }
    }

    /// The number of the next attempt: one more than the failures.
    pub open spec fn next_attempt(self) -> u32 {
        if self.failures == u32::MAX {
            u32::MAX
        } else {
            (self.failures + 1) as u32
        }
    }

    /// Whether the next failure raises an alert.
    pub open spec fn alerts_next(self) -> bool {
        !self.alerted && self.next_attempt() >= ALERT_AFTER_FAILURES
    }

    /// The batch after a failed attempt.
    pub open spec fn failed(self) -> Self {
        BatchView {
            failures: self.next_attempt(),
            alerted: self.alerted || self.alerts_next(),
            ..self
        }
    }
}

impl<T, Id> QueueView<T, Id> {
    /// A queue that was never used.
    pub open spec fn unused(
        name: Seq<char>,
        depth: AtomicUsize,
        total_depth: Option<AtomicUsize>,
    ) -> Self {
        QueueView {
            name,
            depth: WordView::untouched(depth),
            total_depth: match total_depth {
                Some(total_depth) => Some(WordView::untouched(total_depth)),
                None => None,
            },
            answers: Seq::empty(),
            acknowledged: Seq::empty(),
            pending: None,
            retry_after: None,
        }
    }

    /// The items that arrived and are not acknowledged.
    pub open spec fn outstanding(self) -> Seq<Queued<T>> {
        items_of(self.answers).skip(self.acknowledged.len() as int)
    }

    /// Every item that ever arrived was either acknowledged or is in the pending batch,
    /// exactly once and in the order of arrival. A batch has at least one item and no more
    /// than fit, knows its oldest item, and has raised its alert if and only if it failed
    /// often enough. Only a batch that failed waits. As many items as were acknowledged, and
    /// nothing else, were taken off the queue's counter and off the shared one.
    pub open spec fn wf(self) -> bool {
        &&& self.acknowledged.len() <= items_of(self.answers).len()
        &&& self.acknowledged == values(
            items_of(self.answers).take(self.acknowledged.len() as int),
        )
        &&& match self.pending {
            Some(batch) => {
                &&& batch.items == values(self.outstanding())
                &&& 0 < batch.items.len() <= MAX_BATCH_SIZE
                &&& batch.oldest == oldest_of(self.outstanding())
                &&& batch.alerted <==> batch.failures >= ALERT_AFTER_FAILURES
                &&& batch.failures > 0 ==> batch.attempted
            },
            None => self.outstanding().len() == 0,
        }
        &&& self.retry_after is Some ==> self.pending is Some && self.pending->0.failures > 0
        &&& only_lowers(self.depth.steps)
        &&& lowered(self.depth.steps) == self.acknowledged.len()
        &&& self.total_depth matches Some(total_depth) ==> only_lowers(total_depth.steps)
            && lowered(total_depth.steps) == self.acknowledged.len()
    }

    /// Whether the queue still rests after a failure.
    pub open spec fn resting(self, now: Moment) -> bool {
        self.retry_after is Some && now.nanos < self.retry_after->0
    }

    /// Whether `after` is this queue prepared for an attempt at `now`, with `ready` as the
    /// answer. A queue that rests is left alone, and so is a batch that is there already;
    /// else the channel is polled for a new batch.
    pub open spec fn prepared(self, now: Moment, after: Self, ready: bool) -> bool {
        if self.resting(now) {
            !ready && after == self
        } else if self.pending is Some {
            ready && after == self
        } else {
            let answers = after.answers.skip(self.answers.len() as int);
            let arrived = items_of(answers);
            &&& after.answers == self.answers + answers
            &&& fills_batch(answers)
            &&& ready == (arrived.len() > 0)
            &&& ready ==> after.pending is Some
            &&& after == QueueView {
                answers: after.answers,
                pending: if ready {
                    Some(BatchView::fresh(after.pending->0.id, arrived))
                } else {
                    None
                },
                ..self
            }
        }
    }

    /// Whether `attempt` is the next attempt at the batch, with `depth` accepted items.
    pub open spec fn opens(self, attempt: Attempt<Id>, depth: usize) -> bool {
        let batch = self.pending->0;
        &&& attempt.retry == batch.attempted
        &&& attempt.info.id == batch.id
        &&& attempt.info.queue@ == self.name
        &&& attempt.info.len == batch.items.len()
        &&& attempt.info.oldest_enqueued_at == batch.oldest
        &&& attempt.info.attempt == batch.next_attempt()
        &&& attempt.info.pending == depth
    }

    /// The queue once an attempt at its batch was opened.
    pub open spec fn attempted(self) -> Self {
        QueueView { pending: Some(BatchView { attempted: true, ..self.pending->0 }), ..self }
    }

    /// The queue once it looked at its counter, which showed `shown`.
    pub open spec fn looked(self, shown: usize) -> Self {
        QueueView { depth: self.depth.stepped(WordStep::Load { found: shown }), ..self }
    }

    /// The queue once its batch was acknowledged and taken off both counters.
    pub open spec fn acknowledged_batch(self) -> Self {
        let off = WordStep::Subtract { amount: self.pending->0.items.len() as usize };
        QueueView {
            depth: self.depth.stepped(off),
            total_depth: match self.total_depth {
                Some(total_depth) => Some(total_depth.stepped(off)),
                None => None,
            },
            acknowledged: self.acknowledged + self.pending->0.items,
            pending: None,
            retry_after: None,
            ..self
        }
    }

    /// The queue once an attempt failed at `now`.
    pub open spec fn failed_batch(self, now: Moment) -> Self {
        QueueView {
            pending: Some(self.pending->0.failed()),
            retry_after: Some(now.nanos + RETRY_DELAY_NANOS),
            ..self
        }
    }
}

impl<T, Id> QueueView<T, Id> {
    /// The queue once an attempt ended at `now`, and what follows from that: `rows` is what a
    /// writer that succeeded returned, none if it failed.
    pub open spec fn ended(self, rows: Option<u64>, now: Moment) -> (Self, Ended) {
        match rows {
            Some(_) => (
                self.acknowledged_batch(),
                Ended {
                    outcome: FlushOutcome::Success,
                    released: self.pending->0.items.len() as usize,
                    alert: false,
                },
            ),
            None => (
                self.failed_batch(now),
                Ended {
                    outcome: FlushOutcome::Retained,
                    released: 0,
                    alert: self.pending->0.alerts_next(),
                },
            ),
        }
    }
}

impl<T, Id> PendingBatch<T, Id> {
    spec fn view(self) -> BatchView<T, Id> {
        BatchView {
            id: self.id,
            items: self.items@,
            oldest: self.oldest_enqueued_at,
            failures: self.failures,
            alerted: self.alerted,
            attempted: self.attempted,
        }
    }
}

impl<T, Id> View for BatchQueue<T, Id> {
    type V = QueueView<T, Id>;

    closed spec fn view(&self) -> QueueView<T, Id> {
        QueueView {
            name: self.name@,
            depth: self.depth@,
            total_depth: match self.total_depth {
                Some(total_depth) => Some(total_depth@),
                None => None,
            },
            answers: self.inbox@,
            acknowledged: self.acknowledged@,
            pending: match self.pending {
                Some(batch) => Some(batch.view()),
                None => None,
            },
            retry_after: match self.retry_after {
                Some(deadline) => Some(deadline.at()),
                None => None,
            },
        }
    }
}

impl<T, Id: BatchIdentity + Copy> BatchQueue<T, Id> {
    /// A queue on a channel that nobody polled before. Its producers count in `depth`, and in
    /// `total_depth` if there is one, which several queues may share.
    pub fn new(
        name: &'static str,
        depth: Arc<AtomicUsize>,
        total_depth: Option<Arc<AtomicUsize>>,
        receiver: tokio::sync::mpsc::UnboundedReceiver<Queued<T>>,
    ) -> (queue: Self)
        ensures
            queue@ == QueueView::<T, Id>::unused(
                name@,
                *depth,
                match total_depth {
                    Some(total_depth) => Some(*total_depth),
                    None => None,
                },
            ),
            queue@.wf(),
    {
        let total_depth: Option<DepthCounter> = match total_depth {
            Some(total_depth) => Some(DepthCounter::new(total_depth)),
            None => None,
        };
        let queue = BatchQueue {
            name,
            depth: DepthCounter::new(depth),
            total_depth,
            inbox: Inbox::new(receiver),
            pending: None,
            retry_after: None,
            acknowledged: Ghost(Seq::empty()),
        };
        assert(values(items_of(queue@.answers).take(0)) =~= queue@.acknowledged);
        queue
    }

    /// The counter that the queue's producers add to.
    pub fn depth(&self) -> (counter: Arc<AtomicUsize>)
        ensures
            *counter == self@.depth.word,
    {
        self.depth.handle()
    }

    /// How many accepted items the queue counts at this moment, together with the look at its
    /// counter.
    fn accepted_items(&self) -> (looked: (usize, WordAccess<&'_ AtomicUsize>))
        ensures
            looked.1@ == WordView::untouched(self@.depth.word).stepped(
                WordStep::Load { found: looked.0 },
            ),
    {
        self.depth.look()
    }

    /// Takes items off the queue's counter and off the shared one.
    fn release(&mut self, count: usize)
        ensures
            final(self)@ == (QueueView {
                depth: old(self)@.depth.stepped(WordStep::Subtract { amount: count }),
                total_depth: match old(self)@.total_depth {
                    Some(total_depth) => Some(
                        total_depth.stepped(WordStep::Subtract { amount: count }),
                    ),
                    None => None,
                },
                ..old(self)@
            }),
    {
        self.depth.lower(count);
        if let Some(mut total_depth) = self.total_depth.take() {
            total_depth.lower(count);
            self.total_depth = Some(total_depth);
        }
    }

    /// Makes sure that there is a batch to attempt, if there can be one. A new batch gets its
    /// identity from `new_batch`.
    pub fn prepare(&mut self, now: Moment) -> (ready: bool)
        requires
            old(self)@.wf(),
        ensures
            final(self)@.wf(),
            old(self)@.prepared(now, final(self)@, ready),
            ready && old(self)@.pending is None ==> call_ensures(
                Id::new_batch,
                (),
                final(self)@.pending->0.id,
            ),
    {
        if let Some(retry_after) = self.retry_after {
            if !retry_after.reached(now) {
                return false;
            }
        }
        if self.pending.is_some() {
            return true;
        }
        let ghost before = self@;
        let first: Queued<T> = match self.inbox.poll() {
            Some(first) => first,
            None => {
                proof {
                    let answers = seq![None::<Queued<T>>];
                    assert(self@.answers == before.answers + answers);
                    assert(self@.answers.skip(before.answers.len() as int) == answers);
                    assert(answers.drop_last() == Seq::<Option<Queued<T>>>::empty());
                    reveal_with_fuel(items_of, 2);
                    assert(items_of(answers) == Seq::<Queued<T>>::empty());
                    lemma_items_of_concat(before.answers, answers);
                }
                return false;
            },
        };
        let ghost mut answers = seq![Some(first)];
        let ghost mut arrived = seq![first];
        proof {
            assert(answers.drop_last() == Seq::<Option<Queued<T>>>::empty());
            reveal_with_fuel(items_of, 2);
            assert(items_of(answers) == arrived);
        }
        let mut items: Vec<T> = Vec::with_capacity(MAX_BATCH_SIZE);
        let mut oldest_enqueued_at: Moment = first.enqueued_at;
        items.push(first.value);
        assert(items@ == values(arrived));
        while items.len() < MAX_BATCH_SIZE
            invariant_except_break
                0 < items@.len() <= MAX_BATCH_SIZE,
                answers.len() == items@.len(),
                forall|i: int| 0 <= i < answers.len() ==> (#[trigger] answers[i]) is Some,
            invariant
                self.name == old(self).name,
                self.depth == old(self).depth,
                self.total_depth == old(self).total_depth,
                self.pending == old(self).pending,
                self.retry_after == old(self).retry_after,
                self.acknowledged == old(self).acknowledged,
                self.inbox@ == before.answers + answers,
                items_of(answers) == arrived,
                0 < arrived.len() <= MAX_BATCH_SIZE,
                items@ == values(arrived),
                oldest_enqueued_at == oldest_of(arrived),
            ensures
                fills_batch(answers),
            decreases MAX_BATCH_SIZE - items@.len(),
        {
            let polled: Option<Queued<T>> = self.inbox.poll();
            proof {
                assert(self.inbox@ == before.answers + answers.push(polled));
                assert(answers.push(polled).drop_last() == answers);
                answers = answers.push(polled);
            }
            match polled {
                Some(queued) => {
                    proof {
                        assert(arrived.push(queued).drop_last() == arrived);
                        arrived = arrived.push(queued);
                    }
                    oldest_enqueued_at = oldest_enqueued_at.earlier(queued.enqueued_at);
                    items.push(queued.value);
                    assert(items@ == values(arrived));
                },
                None => {
                    break;
                },
            }
        }
        let id: Id = Id::new_batch();
        self.pending = Some(
            PendingBatch {
                id,
                items,
                oldest_enqueued_at,
                failures: 0,
                alerted: false,
                attempted: false,
            },
        );
        proof {
            lemma_items_of_concat(before.answers, answers);
            assert(self@.answers.skip(before.answers.len() as int) == answers);
            let all = items_of(self@.answers);
            let done = before.acknowledged.len() as int;
            assert(items_of(before.answers).len() == done);
            assert(all.take(done) == items_of(before.answers).take(done));
            assert(self@.outstanding() == arrived);
        }
        true
    }

    /// Opens an attempt to write the batch. `depth` is how many accepted items the queue
    /// counts at this moment.
    pub fn begin_attempt_given(&mut self, depth: usize) -> (attempt: Attempt<Id>)
        requires
            old(self)@.pending is Some,
        ensures
            final(self)@ == old(self)@.attempted(),
            old(self)@.wf() ==> final(self)@.wf(),
            old(self)@.opens(attempt, depth),
    {
        let mut batch: PendingBatch<T, Id> = self.pending.take().unwrap();
        let info = BatchInfo {
            id: batch.id,
            queue: self.name,
            len: batch.items.len(),
            oldest_enqueued_at: batch.oldest_enqueued_at,
            attempt: batch.failures.saturating_add(1),
            pending: depth,
        };
        let retry: bool = batch.attempted;
        batch.attempted = true;
        self.pending = Some(batch);
        Attempt { info, retry }
    }

    /// Opens an attempt to write the batch, with how many accepted items the queue's counter
    /// shows.
    pub fn begin_attempt(&mut self) -> (attempt: Attempt<Id>)
        requires
            old(self)@.pending is Some,
        ensures
            final(self)@ == old(self)@.looked(attempt.info.pending).attempted(),
            old(self)@.wf() ==> final(self)@.wf(),
            old(self)@.opens(attempt, attempt.info.pending),
    {
        let depth: usize = self.depth.read();
        proof {
            lemma_lowered_of_push(old(self)@.depth.steps, WordStep::Load { found: depth });
        }
        self.begin_attempt_given(depth)
    }

    /// The items that the writer gets.
    pub fn items(&self) -> (items: &Vec<T>)
        requires
            self@.pending is Some,
        ensures
            items@ == self@.pending->0.items,
    {
        &self.pending.as_ref().unwrap().items
    }

    /// Ends an attempt: `rows` is what a writer that succeeded returned, none if it failed.
    /// Success acknowledges every item of the batch, whatever the number of rows, and takes
    /// them off the queue's counter and off the shared one. A failure takes nothing off.
    pub fn end_attempt(&mut self, rows: Option<u64>, now: Moment) -> (ended: Ended)
        requires
            old(self)@.pending is Some,
            old(self)@.pending->0.attempted,
            old(self)@.wf(),
        ensures
            final(self)@.wf(),
            (final(self)@, ended) == old(self)@.ended(rows, now),
    {
        let ghost before = self@;
        let mut batch: PendingBatch<T, Id> = self.pending.take().unwrap();
        match rows {
            Some(_) => {
                let released: usize = batch.items.len();
                self.retry_after = None;
                proof {
                    let all = items_of(before.answers);
                    let done = before.acknowledged.len() as int;
                    assert(all.take(all.len() as int) == all);
                    law_nothing_is_lost_or_repeated(before);
                    self.acknowledged@ = before.acknowledged + batch.items@;
                    assert(self.acknowledged@.len() == all.len());
                }
                self.release(released);
                proof {
                    let off = WordStep::Subtract { amount: released };
                    lemma_lowered_of_push(before.depth.steps, off);
                    if let Some(total_depth) = before.total_depth {
                        lemma_lowered_of_push(total_depth.steps, off);
                    }
                }
                Ended { outcome: FlushOutcome::Success, released, alert: false }
            },
            None => {
                batch.failures = batch.failures.saturating_add(1);
                let alert: bool = !batch.alerted && batch.failures >= ALERT_AFTER_FAILURES;
                batch.alerted = batch.alerted || alert;
                self.pending = Some(batch);
                self.retry_after = Some(Deadline::after(now, RETRY_DELAY_NANOS));
                Ended { outcome: FlushOutcome::Retained, released: 0, alert }
            },
        }
    }

    /// Ends an attempt and then looks at the queue's counter: `pending` is what it shows once
    /// an acknowledged batch is off it, with everything that was accepted during the write.
    pub fn complete(&mut self, rows: Option<u64>, now: Moment) -> (completion: Completion)
        requires
            old(self)@.pending is Some,
            old(self)@.pending->0.attempted,
            old(self)@.wf(),
        ensures
            final(self)@.wf(),
            final(self)@ == old(self)@.ended(rows, now).0.looked(completion.pending),
            completion == old(self)@.ended(rows, now).1.reported(completion.pending),
    {
        let ended: Ended = self.end_attempt(rows, now);
        let ghost after = self@;
        let depth: usize = self.depth.read();
        proof {
            lemma_lowered_of_push(after.depth.steps, WordStep::Load { found: depth });
        }
        ended.report(depth)
    }

    /// Whether nothing is left to write, given what the channel says and how many accepted
    /// items the queue counts.
    pub fn is_empty_given(&self, channel_empty: bool, depth: usize) -> (empty: bool)
        ensures
            empty == (self@.pending is None && channel_empty && depth == 0),
    {
        self.pending.is_none() && channel_empty && depth == 0
    }

    /// Whether nothing is left to write. Unless a batch is pending, the channel and the
    /// producers have their say.
    pub fn is_empty(&self) -> (empty: bool)
        ensures
            exists|looked: (bool, WordAccess<&'_ AtomicUsize>)| #[trigger]
                call_ensures(BatchQueue::<T, Id>::look_empty, (self,), looked) && empty
                    == looked.0,
            empty ==> self@.pending is None,
    {
        self.look_empty().0
    }

    /// What the channel can answer to whether it is empty.
    pub closed spec fn channel_answers(self, empty: bool) -> bool {
        call_ensures(Inbox::<T>::is_empty, (&self.inbox,), empty)
    }

    /// Whether nothing is left to write, together with the look at the queue's counter: no batch
    /// is pending, the channel answered that it is empty, and the counter showed nothing.
    pub fn look_empty(&self) -> (looked: (bool, WordAccess<&'_ AtomicUsize>))
        ensures
            exists|shown: usize, channel_empty: bool|
                {
                    &&& looked.1@ == #[trigger] WordView::untouched(self@.depth.word).stepped(
                        WordStep::Load { found: shown },
                    )
                    &&& #[trigger] self.channel_answers(channel_empty)
                    &&& looked.0 == (self@.pending is None && channel_empty && shown == 0)
                },
    {
        let channel_empty: bool = self.inbox.is_empty();
        let (shown, access) = self.accepted_items();
        assert(self.channel_answers(channel_empty));
        (self.is_empty_given(channel_empty, shown), access)
    }

    /// Whether there is something to write and nothing to wait for, given what the channel
    /// says.
    pub fn is_ready_given(&self, channel_empty: bool, depth: usize, now: Moment) -> (ready: bool)
        ensures
            ready == (!(self@.pending is None && channel_empty && depth == 0)
                && !self@.resting(now)),
    {
        if self.is_empty_given(channel_empty, depth) {
            return false;
        }
        match self.retry_after {
            Some(retry_after) => retry_after.reached(now),
            None => true,
        }
    }

    /// Whether there is something to write and nothing to wait for.
    pub fn is_ready(&self, now: Moment) -> (ready: bool)
        ensures
            exists|looked: (bool, WordAccess<&'_ AtomicUsize>)| #[trigger]
                call_ensures(BatchQueue::<T, Id>::look_ready, (self, now), looked) && ready
                    == looked.0,
            self@.resting(now) ==> !ready,
            self@.pending is Some && !self@.resting(now) ==> ready,
    {
        self.look_ready(now).0
    }

    /// Whether there is something to write and nothing to wait for, together with the look at
    /// the queue's counter: the queue does not rest, and a batch is pending, the channel did not
    /// answer that it is empty, or the counter showed something.
    pub fn look_ready(&self, now: Moment) -> (looked: (bool, WordAccess<&'_ AtomicUsize>))
        ensures
            exists|shown: usize, channel_empty: bool|
                {
                    &&& looked.1@ == #[trigger] WordView::untouched(self@.depth.word).stepped(
                        WordStep::Load { found: shown },
                    )
                    &&& #[trigger] self.channel_answers(channel_empty)
                    &&& looked.0 == (!(self@.pending is None && channel_empty && shown == 0)
                        && !self@.resting(now))
                },
    {
        let channel_empty: bool = self.inbox.is_empty();
        let (shown, access) = self.accepted_items();
        assert(self.channel_answers(channel_empty));
        (self.is_ready_given(channel_empty, shown, now), access)
    }
}

proof fn lemma_items_of_concat<T>(left: Seq<Option<Queued<T>>>, right: Seq<Option<Queued<T>>>)
    ensures
        items_of(left + right) == items_of(left) + items_of(right),
    decreases right.len(),
{
    if right.len() == 0 {
        assert(left + right == left);
    } else {
        lemma_items_of_concat(left, right.drop_last());
        assert((left + right).drop_last() == left + right.drop_last());
    }
}

/// What arrived is kept until it is acknowledged: the acknowledged items followed by the
/// items of the pending batch are all the items that ever arrived, in order.
pub proof fn law_nothing_is_lost_or_repeated<T, Id>(queue: QueueView<T, Id>)
    requires
        queue.wf(),
    ensures
        values(items_of(queue.answers)) == queue.acknowledged + match queue.pending {
            Some(batch) => batch.items,
            None => Seq::empty(),
        },
{
    let all = items_of(queue.answers);
    let done = queue.acknowledged.len() as int;
    assert(all == all.take(done) + all.skip(done));
    assert(values(all) =~= values(all.take(done)) + values(all.skip(done)));
}

/// A failed or abandoned attempt changes neither the batch nor what was acknowledged: the
/// next attempt that is due gets the same items under the same identity, nothing added and
/// nothing split off, the channel is not touched, and nothing is taken off the counters.
pub proof fn law_retries_write_the_same_batch<T, Id>(
    queue: QueueView<T, Id>,
    shown: usize,
    failure: Option<(Moment, usize)>,
    now: Moment,
    after: QueueView<T, Id>,
    ready: bool,
)
    requires
        queue.pending is Some,
        ({
            let attempted = queue.looked(shown).attempted();
            let ended = match failure {
                Some((at, shown)) => attempted.ended(None, at).0.looked(shown),
                None => attempted,
            };
            !ended.resting(now) && ended.prepared(now, after, ready)
        }),
    ensures
        ready,
        after.pending is Some,
        after.pending->0.id == queue.pending->0.id,
        after.pending->0.items == queue.pending->0.items,
        after.pending->0.oldest == queue.pending->0.oldest,
        after.pending->0.attempted,
        after.acknowledged == queue.acknowledged,
        after.answers == queue.answers,
        lowered(after.depth.steps) == lowered(queue.depth.steps),
        after.total_depth == queue.total_depth,
{
    lemma_lowered_of_push(queue.depth.steps, WordStep::Load { found: shown });
    if let Some((_, later)) = failure {
        lemma_lowered_of_push(
            queue.looked(shown).depth.steps,
            WordStep::Load { found: later },
        );
    }
}

/// After a failure a queue rests for one second.
pub proof fn law_failures_rest_for_the_delay<T, Id>(
    queue: QueueView<T, Id>,
    failed_at: Moment,
    shown: usize,
    now: Moment,
)
    requires
        queue.pending is Some,
    ensures
        queue.ended(None, failed_at).0.looked(shown).resting(now) <==> now.nanos < failed_at.nanos
            + 1_000_000_000,
{
}

/// After a failure nothing is attempted for one second, and then the batch is.
pub proof fn law_failed_batches_are_due_after_the_delay<T, Id>(
    queue: QueueView<T, Id>,
    failed_at: Moment,
    shown: usize,
    now: Moment,
    after: QueueView<T, Id>,
    ready: bool,
)
    requires
        queue.pending is Some,
        queue.ended(None, failed_at).0.looked(shown).prepared(now, after, ready),
    ensures
        ready <==> now.nanos >= failed_at.nanos + 1_000_000_000,
{
}

/// The batch after `count` failures.
pub open spec fn after_failures<T, Id>(batch: BatchView<T, Id>, count: nat) -> BatchView<T, Id>
    decreases count,
{
    if count == 0 {
        batch
    } else {
        after_failures(batch, (count - 1) as nat).failed()
    }
}

/// How many of the first `count` failures raise an alert.
pub open spec fn alerts_raised<T, Id>(batch: BatchView<T, Id>, count: nat) -> nat
    decreases count,
{
    if count == 0 {
        0
    } else {
        let earlier = (count - 1) as nat;
        alerts_raised(batch, earlier) + if after_failures(batch, earlier).alerts_next() {
            1nat
        } else {
            0nat
        }
    }
}

/// However often a batch fails, it raises one alert, with the fifth failure, and none before.
pub proof fn law_one_alert_per_batch<T, Id>(batch: BatchView<T, Id>, count: nat)
    requires
        batch.failures == 0,
        !batch.alerted,
    ensures
        alerts_raised(batch, count) == if count >= 5 {
            1nat
        } else {
            0nat
        },
        after_failures(batch, count).failures == if count <= u32::MAX {
            count as int
        } else {
            u32::MAX as int
        },
        after_failures(batch, count).alerted <==> count >= 5,
        after_failures(batch, count).items == batch.items,
        after_failures(batch, count).id == batch.id,
    decreases count,
{
    if count > 0 {
        law_one_alert_per_batch(batch, (count - 1) as nat);
    }
}

/// A queue never attempts an item that was acknowledged: the batch that follows an
/// acknowledgement holds only items that arrived after it.
pub proof fn law_acknowledged_items_never_return<T, Id>(
    queue: QueueView<T, Id>,
    rows: u64,
    written_at: Moment,
    shown: usize,
    now: Moment,
    after: QueueView<T, Id>,
)
    requires
        queue.wf(),
        queue.pending is Some,
        queue.ended(Some(rows), written_at).0.looked(shown).prepared(now, after, true),
    ensures
        after.acknowledged == queue.acknowledged + queue.pending->0.items,
        after.pending is Some,
        after.pending->0.items == values(
            items_of(after.answers).skip(items_of(queue.answers).len() as int),
        ),
{
    let fresh = after.answers.skip(queue.answers.len() as int);
    lemma_items_of_concat(queue.answers, fresh);
    assert(items_of(after.answers).skip(items_of(queue.answers).len() as int) =~= items_of(fresh));
}

proof fn lemma_no_more_items_than_answers<T>(answers: Seq<Option<Queued<T>>>)
    ensures
        items_of(answers).len() <= answers.len(),
    decreases answers.len(),
{
    if answers.len() > 0 {
        lemma_no_more_items_than_answers(answers.drop_last());
    }
}

/// Whether one step can turn a queue into another: it is prepared, it looks at its counter, an
/// attempt is opened, or an attempt ends.
pub open spec fn can_follow<T, Id>(before: QueueView<T, Id>, after: QueueView<T, Id>) -> bool {
    ||| exists|now: Moment, ready: bool| before.prepared(now, after, ready)
    ||| exists|shown: usize| after == #[trigger] before.looked(shown)
    ||| before.pending is Some && after == before.attempted()
    ||| {
        &&& before.pending is Some
        &&& before.pending->0.attempted
        &&& exists|rows: Option<u64>, now: Moment| after == (#[trigger] before.ended(rows, now)).0
    }
}

/// Every step of a queue keeps it well-formed, keeps what was acknowledged and what arrived,
/// and keeps its counters, on which only more is done.
pub proof fn law_steps_keep_queues_well_formed<T, Id>(
    before: QueueView<T, Id>,
    after: QueueView<T, Id>,
)
    requires
        before.wf(),
        can_follow(before, after),
    ensures
        after.wf(),
        before.acknowledged.is_prefix_of(after.acknowledged),
        before.answers.is_prefix_of(after.answers),
        after.depth.word == before.depth.word,
        before.depth.steps.is_prefix_of(after.depth.steps),
        after.total_depth is Some <==> before.total_depth is Some,
        after.total_depth matches Some(total_depth) ==> total_depth.word
            == before.total_depth->0.word && before.total_depth->0.steps.is_prefix_of(
            total_depth.steps,
        ),
{
    let all = items_of(before.answers);
    let done = before.acknowledged.len() as int;
    if exists|now: Moment, ready: bool| before.prepared(now, after, ready) {
        let (now, ready) = choose|now: Moment, ready: bool| before.prepared(now, after, ready);
        if !before.resting(now) && before.pending is None {
            let answers = after.answers.skip(before.answers.len() as int);
            lemma_items_of_concat(before.answers, answers);
            lemma_no_more_items_than_answers(answers);
            assert(all.len() == done);
            assert(items_of(after.answers).take(done) == all.take(done));
            assert(after.outstanding() == items_of(answers));
        }
    } else if exists|shown: usize| after == #[trigger] before.looked(shown) {
        let shown = choose|shown: usize| after == #[trigger] before.looked(shown);
        lemma_lowered_of_push(before.depth.steps, WordStep::Load { found: shown });
    } else if before.pending is Some && after == before.acknowledged_batch() {
        let off = WordStep::Subtract { amount: before.pending->0.items.len() as usize };
        law_nothing_is_lost_or_repeated(before);
        assert(all.take(all.len() as int) == all);
        lemma_lowered_of_push(before.depth.steps, off);
        if let Some(total_depth) = before.total_depth {
            lemma_lowered_of_push(total_depth.steps, off);
        }
    }
}

/// However a queue is driven from its start, with failures and abandoned attempts in any
/// order, everything that arrived is either acknowledged or in the pending batch, in order
/// and once; and exactly as many items as were acknowledged were taken off each of the two
/// counters that it was made with.
pub proof fn law_every_history_accounts_for_every_item<T, Id>(
    name: Seq<char>,
    depth: AtomicUsize,
    total_depth: Option<AtomicUsize>,
    states: Seq<QueueView<T, Id>>,
)
    requires
        states.len() > 0,
        states[0] == QueueView::<T, Id>::unused(name, depth, total_depth),
        forall|i: int|
            #![trigger states[i]]
            0 <= i < states.len() - 1 ==> can_follow(states[i], states[i + 1]),
    ensures
        states.last().wf(),
        values(items_of(states.last().answers)) == states.last().acknowledged
            + match states.last().pending {
            Some(batch) => batch.items,
            None => Seq::empty(),
        },
        states.last().depth.word == depth,
        lowered(states.last().depth.steps) == states.last().acknowledged.len(),
        match total_depth {
            Some(total_depth) => {
                &&& states.last().total_depth is Some
                &&& states.last().total_depth->0.word == total_depth
                &&& lowered(states.last().total_depth->0.steps)
                    == states.last().acknowledged.len()
            },
            None => states.last().total_depth is None,
        },
    decreases states.len(),
{
    if states.len() == 1 {
        assert(values(items_of(states[0].answers).take(0)) =~= states[0].acknowledged);
    } else {
        let earlier = states.drop_last();
        let last = states.len() - 1;
        assert forall|i: int| #![trigger earlier[i]] 0 <= i < earlier.len() - 1 implies can_follow(
            earlier[i],
            earlier[i + 1],
        ) by {
            assert(earlier[i] == states[i] && earlier[i + 1] == states[i + 1]);
        }
        law_every_history_accounts_for_every_item(name, depth, total_depth, earlier);
        assert(can_follow(states[last - 1], states[last]));
        assert(earlier.last() == states[last - 1]);
        law_steps_keep_queues_well_formed(states[last - 1], states[last]);
    }
    law_nothing_is_lost_or_repeated(states.last());
}

/// A counter on which `handed_over` items were counted in all, and from which only the queue
/// took items off, shows how many of them are not acknowledged. So it shows 0 once all are,
/// and then a queue without pending batch is empty as soon as its channel is.
pub proof fn law_depth_counts_what_is_not_acknowledged<T, Id>(
    queue: QueueView<T, Id>,
    start: usize,
    history: Seq<HistoryStep>,
    handed_over: nat,
)
    requires
        queue.wf(),
        counts(start, history),
        own_steps(history) == queue.depth.steps,
        start + risen_elsewhere(history) == handed_over,
        queue.acknowledged.len() <= handed_over <= usize::MAX,
    ensures
        shown_after(start, history) == handed_over - queue.acknowledged.len(),
{
    law_counters_show_what_is_left(start, history);
}

/// A shared counter shows what is left of everything that was counted on it, less what the
/// queue acknowledged; `risen_elsewhere` takes in what the other queues took off.
pub proof fn law_shared_depth_counts_what_is_not_acknowledged<T, Id>(
    queue: QueueView<T, Id>,
    start: usize,
    history: Seq<HistoryStep>,
)
    requires
        queue.wf(),
        queue.total_depth is Some,
        counts(start, history),
        own_steps(history) == queue.total_depth->0.steps,
        queue.acknowledged.len() <= start + risen_elsewhere(history) <= usize::MAX
            + queue.acknowledged.len(),
    ensures
        shown_after(start, history) == start + risen_elsewhere(history)
            - queue.acknowledged.len(),
{
    law_counters_show_what_is_left(start, history);
}

/// What the end of an attempt reports as pending. If the counter showed `shown` when the
/// attempt began, and producers added `accepted` items since, it is `shown + accepted` after a
/// failure, and the batch's length less after a success, whatever the rows.
pub proof fn law_reports_count_what_is_accepted_meanwhile<T, Id>(
    queue: QueueView<T, Id>,
    rows: Option<u64>,
    now: Moment,
    pending: usize,
    start: usize,
    earlier: Seq<HistoryStep>,
    history: Seq<HistoryStep>,
    accepted: nat,
)
    requires
        queue.wf(),
        queue.pending is Some,
        queue.pending->0.attempted,
        counts(start, earlier),
        own_steps(earlier) == queue.depth.steps,
        counts(start, history),
        own_steps(history) == queue.ended(rows, now).0.looked(pending).depth.steps,
        history.last().own,
        risen_elsewhere(history) == risen_elsewhere(earlier) + accepted,
        queue.acknowledged.len() + queue.pending->0.items.len() <= start + risen_elsewhere(
            earlier,
        ),
        start + risen_elsewhere(history) <= usize::MAX,
    ensures
        pending == shown_after(start, earlier) + accepted - match rows {
            Some(_) => queue.pending->0.items.len(),
            None => 0,
        },
{
    let last = own_steps(history).last();
    let before = history.drop_last();
    let ended = queue.ended(rows, now).0;
    assert(history.len() > 0);
    assert(own_steps(history) == own_steps(before).push(history.last().step));
    assert(own_steps(before) == own_steps(history).drop_last());
    assert(own_steps(before) =~= ended.depth.steps);
    assert(last == WordStep::Load { found: pending });
    if rows is Some {
        let off = WordStep::Subtract { amount: queue.pending->0.items.len() as usize };
        lemma_lowered_of_push(queue.depth.steps, off);
    }
    law_counters_show_what_is_left(start, earlier);
    law_counters_show_what_is_left(start, before);
}

proof fn lemma_oldest_is_earliest<T>(items: Seq<Queued<T>>, i: int)
    requires
        0 <= i < items.len(),
    ensures
        oldest_of(items).nanos <= items[i].enqueued_at.nanos,
        exists|j: int|
            0 <= j < items.len() && (#[trigger] items[j]).enqueued_at == oldest_of(items),
    decreases items.len(),
{
    if items.len() == 1 {
        assert(items[0].enqueued_at == oldest_of(items));
    } else {
        let rest = items.drop_last();
        if i < rest.len() {
            lemma_oldest_is_earliest(rest, i);
        } else {
            lemma_oldest_is_earliest(rest, 0);
        }
        let j = choose|j: int|
            0 <= j < rest.len() && (#[trigger] rest[j]).enqueued_at == oldest_of(rest);
        assert(items[j].enqueued_at == oldest_of(rest));
        assert(items[items.len() - 1] == items.last());
    }
}

/// The oldest time of a pending batch is the time of one of its items, and none of them was
/// handed over before: of all that arrived and is not acknowledged.
pub proof fn law_batches_know_their_oldest_item<T, Id>(queue: QueueView<T, Id>, i: int)
    requires
        queue.wf(),
        queue.pending is Some,
        queue.acknowledged.len() <= i < items_of(queue.answers).len(),
    ensures
        queue.pending->0.oldest.nanos <= items_of(queue.answers)[i].enqueued_at.nanos,
        exists|j: int|
            queue.acknowledged.len() <= j < items_of(queue.answers).len() && (
            #[trigger] items_of(queue.answers)[j]).enqueued_at == queue.pending->0.oldest,
{
    let done = queue.acknowledged.len() as int;
    let all = items_of(queue.answers);
    let left = all.skip(done);
    lemma_oldest_is_earliest(left, i - done);
    assert(left[i - done] == all[i]);
    let k = choose|k: int|
        0 <= k < left.len() && (#[trigger] left[k]).enqueued_at == oldest_of(left);
    assert(all[done + k] == left[k]);
}

/// A pending batch has at least one item and at most 500, and has raised its alert exactly if it
/// failed five times or more. A queue rests only with a batch that failed.
pub proof fn law_pending_batches_are_bounded<T, Id>(queue: QueueView<T, Id>)
    requires
        queue.wf(),
    ensures
        queue.pending matches Some(batch) ==> {
            &&& 1 <= batch.items.len() <= 500
            &&& batch.items.len() == items_of(queue.answers).len() - queue.acknowledged.len()
            &&& batch.alerted <==> batch.failures >= 5
        },
        queue.retry_after is Some ==> queue.pending is Some && queue.pending->0.failures > 0,
        queue.pending is None ==> queue.acknowledged.len() == items_of(queue.answers).len(),
{
}

proof fn lemma_items_of_polls<T>(polls: Seq<Option<Queued<T>>>, i: int)
    requires
        polls.len() > 0,
        forall|k: int| 0 <= k < polls.len() - 1 ==> (#[trigger] polls[k]) is Some,
    ensures
        items_of(polls).len() == if polls.last() is Some {
            polls.len() as int
        } else {
            polls.len() - 1
        },
        0 <= i < items_of(polls).len() ==> polls[i] is Some && items_of(polls)[i] == polls[i]->0,
    decreases polls.len(),
{
    let rest = polls.drop_last();
    if rest.len() > 0 {
        assert forall|k: int| 0 <= k < rest.len() - 1 implies (#[trigger] rest[k]) is Some by {
            assert(rest[k] == polls[k]);
        }
        assert(rest.last() == polls[polls.len() - 2]);
        lemma_items_of_polls(rest, i);
        if 0 <= i < rest.len() {
            assert(rest[i] == polls[i]);
        }
    } else {
        assert(items_of(rest) =~= Seq::<Queued<T>>::empty());
    }
}

/// A queue without a batch polls its channel until that answers that nothing is there, or until
/// it has 500 items. What it got is the new batch, all of it and in order, not attempted yet, as
/// old as its earliest item; without a first item there is no batch. Nothing else changes.
pub proof fn law_new_batches_take_what_waits<T, Id>(
    before: QueueView<T, Id>,
    now: Moment,
    after: QueueView<T, Id>,
    ready: bool,
    i: int,
)
    requires
        before.wf(),
        before.pending is None,
        before.prepared(now, after, ready),
    ensures
        before.answers.is_prefix_of(after.answers),
        after.acknowledged == before.acknowledged,
        after.name == before.name,
        after.depth == before.depth,
        after.total_depth == before.total_depth,
        after.retry_after is None,
        ({
            let polls = after.answers.skip(before.answers.len() as int);
            let taken = if polls.last() is Some {
                polls.len() as int
            } else {
                polls.len() - 1
            };
            &&& 1 <= polls.len() <= 500
            &&& forall|k: int| 0 <= k < polls.len() - 1 ==> (#[trigger] polls[k]) is Some
            &&& polls.last() is Some ==> polls.len() == 500
            &&& ready <==> taken > 0
            &&& after.pending is Some <==> ready
            &&& after.pending matches Some(batch) ==> {
                &&& batch.items.len() == taken
                &&& batch.failures == 0 && !batch.alerted && !batch.attempted
                &&& 0 <= i < taken ==> {
                    &&& polls[i] is Some
                    &&& batch.items[i] == polls[i]->0.value
                    &&& batch.oldest.nanos <= polls[i]->0.enqueued_at.nanos
                }
                &&& exists|j: int|
                    0 <= j < taken && (#[trigger] polls[j]) is Some && polls[j]->0.enqueued_at
                        == batch.oldest
            }
        }),
{
    let polls = after.answers.skip(before.answers.len() as int);
    let arrived = items_of(polls);
    lemma_items_of_polls(polls, i);
    if ready {
        lemma_oldest_is_earliest(arrived, 0);
        if 0 <= i < arrived.len() {
            lemma_oldest_is_earliest(arrived, i);
        }
        let j = choose|j: int|
            0 <= j < arrived.len() && (#[trigger] arrived[j]).enqueued_at == oldest_of(arrived);
        lemma_items_of_polls(polls, j);
        assert(polls[j] is Some && polls[j]->0.enqueued_at == oldest_of(arrived));
    }
}

/// A pending batch is left as it is, and is to be attempted unless the queue rests.
pub proof fn law_pending_batches_are_left_alone<T, Id>(
    before: QueueView<T, Id>,
    now: Moment,
    after: QueueView<T, Id>,
    ready: bool,
)
    requires
        before.pending is Some,
        before.prepared(now, after, ready),
    ensures
        after == before,
        ready <==> (before.retry_after matches Some(at) ==> now.nanos >= at),
{
}

/// What an attempt tells of its batch: its identity, how many items it has, when the oldest was
/// handed over, and which attempt it is, one more than the failures; and whether the batch was
/// attempted before.
pub proof fn law_attempts_describe_their_batch<T, Id>(
    queue: QueueView<T, Id>,
    attempt: Attempt<Id>,
    depth: usize,
    i: int,
)
    requires
        queue.wf(),
        queue.pending is Some,
        queue.opens(attempt, depth),
    ensures
        attempt.info.id == queue.pending->0.id,
        attempt.info.queue@ == queue.name,
        attempt.info.len == items_of(queue.answers).len() - queue.acknowledged.len(),
        attempt.info.pending == depth,
        attempt.retry == queue.pending->0.attempted,
        queue.pending->0.failures < u32::MAX ==> attempt.info.attempt == queue.pending->0.failures
            + 1,
        queue.pending->0.failures == u32::MAX ==> attempt.info.attempt == u32::MAX,
        queue.acknowledged.len() <= i < items_of(queue.answers).len() ==>
            attempt.info.oldest_enqueued_at.nanos <= items_of(
            queue.answers,
        )[i].enqueued_at.nanos,
        exists|j: int|
            queue.acknowledged.len() <= j < items_of(queue.answers).len() && (
            #[trigger] items_of(queue.answers)[j]).enqueued_at == attempt.info.oldest_enqueued_at,
{
    law_batches_know_their_oldest_item(queue, queue.acknowledged.len() as int);
    if queue.acknowledged.len() <= i < items_of(queue.answers).len() {
        law_batches_know_their_oldest_item(queue, i);
    }
}

/// Opening an attempt marks the batch as attempted and changes nothing else; looking at the
/// counter only adds the look to what was done to it.
pub proof fn law_opening_an_attempt_only_marks_the_batch<T, Id>(
    queue: QueueView<T, Id>,
    shown: usize,
)
    requires
        queue.pending is Some,
    ensures
        ({
            let after = queue.looked(shown).attempted();
            let batch = queue.pending->0;
            &&& after.pending is Some
            &&& after.pending->0.attempted
            &&& after.pending->0.id == batch.id
            &&& after.pending->0.items == batch.items
            &&& after.pending->0.oldest == batch.oldest
            &&& after.pending->0.failures == batch.failures
            &&& after.pending->0.alerted == batch.alerted
            &&& after.name == queue.name
            &&& after.answers == queue.answers
            &&& after.acknowledged == queue.acknowledged
            &&& after.retry_after == queue.retry_after
            &&& after.total_depth == queue.total_depth
            &&& after.depth.word == queue.depth.word
            &&& after.depth.steps == queue.depth.steps.push(WordStep::Load { found: shown })
        }),
{
}

/// A success acknowledges the whole batch and takes its length off both counters, whatever the
/// rows and whenever it comes, and leaves no batch and no rest behind.
pub proof fn law_success_settles_the_batch<T, Id>(
    queue: QueueView<T, Id>,
    rows: u64,
    other_rows: u64,
    now: Moment,
    later: Moment,
)
    requires
        queue.wf(),
        queue.pending is Some,
    ensures
        queue.ended(Some(rows), now) == queue.ended(Some(other_rows), later),
        ({
            let (after, ended) = queue.ended(Some(rows), now);
            let batch = queue.pending->0;
            &&& ended.outcome == FlushOutcome::Success
            &&& ended.released == batch.items.len()
            &&& !ended.alert
            &&& after.pending is None
            &&& after.retry_after is None
            &&& after.acknowledged == queue.acknowledged + batch.items
            &&& after.answers == queue.answers
            &&& after.name == queue.name
            &&& after.depth.word == queue.depth.word
            &&& after.depth.steps.len() == queue.depth.steps.len() + 1
            &&& after.depth.steps.drop_last() == queue.depth.steps
            &&& after.depth.steps.last() is Subtract
            &&& after.depth.steps.last()->Subtract_amount == batch.items.len()
            &&& after.total_depth is Some <==> queue.total_depth is Some
            &&& queue.total_depth matches Some(total_depth) ==> {
                &&& after.total_depth->0.word == total_depth.word
                &&& after.total_depth->0.steps.drop_last() == total_depth.steps
                &&& after.total_depth->0.steps.len() == total_depth.steps.len() + 1
                &&& after.total_depth->0.steps.last() is Subtract
                &&& after.total_depth->0.steps.last()->Subtract_amount == batch.items.len()
            }
        }),
{
    let off = WordStep::Subtract { amount: queue.pending->0.items.len() as usize };
    assert(queue.depth.steps.push(off).drop_last() =~= queue.depth.steps);
    if let Some(total_depth) = queue.total_depth {
        assert(total_depth.steps.push(off).drop_last() =~= total_depth.steps);
    }
}

/// A failure keeps the batch as it was but for one failure more, rests for one second from when
/// it came, takes nothing off the counters, and raises an alert exactly if it is the fifth.
pub proof fn law_failure_keeps_the_batch<T, Id>(queue: QueueView<T, Id>, now: Moment)
    requires
        queue.wf(),
        queue.pending is Some,
    ensures
        ({
            let (after, ended) = queue.ended(None, now);
            let batch = queue.pending->0;
            &&& ended.outcome == FlushOutcome::Retained
            &&& ended.released == 0
            &&& ended.alert <==> batch.failures == 4
            &&& after.pending is Some
            &&& after.pending->0.id == batch.id
            &&& after.pending->0.items == batch.items
            &&& after.pending->0.oldest == batch.oldest
            &&& after.pending->0.attempted == batch.attempted
            &&& batch.failures < u32::MAX ==> after.pending->0.failures == batch.failures + 1
            &&& batch.failures == u32::MAX ==> after.pending->0.failures == u32::MAX
            &&& after.pending->0.alerted <==> after.pending->0.failures >= 5
            &&& after.retry_after == Some(now.nanos + 1_000_000_000)
            &&& after.acknowledged == queue.acknowledged
            &&& after.answers == queue.answers
            &&& after.name == queue.name
            &&& after.depth == queue.depth
            &&& after.total_depth == queue.total_depth
        }),
{
}

/// The report on the end of an attempt says what followed from it and the depth it is given.
pub proof fn law_reports_add_the_depth(ended: Ended, depth: usize, other: usize)
    ensures
        ended.reported(depth).pending == depth,
        ended.reported(depth).outcome == ended.outcome,
        ended.reported(depth).released == ended.released,
        ended.reported(depth).alert == ended.alert,
        ended.reported(depth) == ended.reported(other) <==> depth == other,
{
}

/// A new queue has seen nothing, owes nothing and waits for nothing, and has not touched the two
/// counters that it was given.
pub proof fn law_new_queues_have_done_nothing<T, Id>(
    name: Seq<char>,
    depth: AtomicUsize,
    total_depth: Option<AtomicUsize>,
)
    ensures
        ({
            let queue = QueueView::<T, Id>::unused(name, depth, total_depth);
            &&& queue.name == name
            &&& queue.answers.len() == 0
            &&& queue.acknowledged.len() == 0
            &&& queue.pending is None
            &&& queue.retry_after is None
            &&& queue.depth.word == depth
            &&& queue.depth.steps.len() == 0
            &&& queue.total_depth is Some <==> total_depth is Some
            &&& total_depth matches Some(total_depth) ==> queue.total_depth->0.word == total_depth
                && queue.total_depth->0.steps.len() == 0
        }),
{
}

/// The values of items are theirs, one by one.
pub proof fn law_values_belong_to_their_items<T>(items: Seq<Queued<T>>, i: int)
    ensures
        values(items).len() == items.len(),
        0 <= i < items.len() ==> values(items)[i] == items[i].value,
{
}

/// A queue rests exactly until its time has come, if it has one.
pub proof fn law_queues_rest_until_their_time<T, Id>(queue: QueueView<T, Id>, now: Moment)
    ensures
        queue.resting(now) <==> (queue.retry_after matches Some(at) && now.nanos < at),
{
}

} // verus!
