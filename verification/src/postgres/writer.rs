//! The decisions of a PostgreSQL write: its SQL, its stages and deadline, and how a failure
//! is classified.

use vstd::prelude::*;

use crate::clock::Deadline;
use crate::clock::Moment;
use crate::queue::ReceiptId;
use crate::text::same_text;
use crate::timeouts::duration_nanos;
use crate::timeouts::WriteTimeouts;

verus! {

/// `serde_json::Value`, carried through and never looked into.
#[verifier::external_type_specification]
#[verifier::external_body]
pub struct ExJsonValue(serde_json::Value);

/// What a statement that runs without a receipt starts with.
pub const DIRECT_INPUT: &'static str = "WITH data_save_input AS (SELECT $1::jsonb AS payload) ";

/// What a statement that runs under a receipt starts with: a replay finds the receipt there
/// and gets no input.
pub const RECEIPT_INPUT: &'static str =
    "WITH data_save_receipt AS (INSERT INTO data_save_batches (batch_id, queue) VALUES ($2, $3) ON CONFLICT (batch_id) DO NOTHING RETURNING batch_id), data_save_input AS (SELECT $1::jsonb AS payload WHERE EXISTS (SELECT 1 FROM data_save_receipt)) ";

/// A single statement whose mutations consume data_save_input.payload; an empty input must
/// write nothing. Count statements must return zero on replay. Parameters $1, $2 and $3
/// belong to the writer.
#[derive(Debug)]
pub struct PreparedBatch {
    pub sql: String,
    pub rows: serde_json::Value,
    pub select_count: bool,
}

/// A statement returned a negative count.
#[derive(Clone, Copy, Debug, PartialEq, Eq, Structural)]
pub struct NegativeCount;

impl PreparedBatch {
    /// A statement that counts by the rows it affects.
    pub fn new(sql: String, rows: serde_json::Value) -> (batch: Self)
        ensures
            batch.sql == sql,
            batch.rows == rows,
            !batch.select_count,
    {
        PreparedBatch { sql, rows, select_count: false }
    }

    /// A statement that selects its count.
    pub fn with_count_sql(sql: String, rows: serde_json::Value) -> (batch: Self)
        ensures
            batch.sql == sql,
            batch.rows == rows,
            batch.select_count,
    {
        PreparedBatch { sql, rows, select_count: true }
    }

    /// The whole statement for a direct execution, without receipt.
    pub fn direct_sql(&self) -> (sql: String)
        ensures
            sql@ == DIRECT_INPUT@ + self.sql@,
    {
        DIRECT_INPUT.to_owned().concat(self.sql.as_str())
    }

    /// The whole statement for an execution under a receipt.
    pub fn receipt_sql(&self) -> (sql: String)
        ensures
            sql@ == RECEIPT_INPUT@ + self.sql@,
    {
        RECEIPT_INPUT.to_owned().concat(self.sql.as_str())
    }
}

/// The number of rows that a count statement reports.
pub fn counted_rows(count: i64) -> (rows: Result<u64, NegativeCount>)
    ensures
        rows == if count >= 0 {
            Ok::<u64, NegativeCount>(count as u64)
        } else {
            Err(NegativeCount)
        },
{
    if count >= 0 {
        Ok(count as u64)
    } else {
        Err(NegativeCount)
    }
}

/// What a transaction does once its receipt was inserted or found.
#[derive(Clone, Copy, Debug, PartialEq, Eq, Structural)]
pub enum ReceiptStep {
    /// The receipt is new: the statements run, and the transaction commits with the rows
    /// that they return.
    Execute,
    /// The batch was committed before: nothing runs, and the transaction commits with these
    /// rows.
    Commit { rows: u64 },
}

/// What follows from the number of receipts that were inserted.
pub open spec fn receipt_step(inserted: u64) -> ReceiptStep {
    if inserted == 0 {
        ReceiptStep::Commit { rows: 0 }
    } else {
        ReceiptStep::Execute
    }
}

/// What follows from the number of receipts that were inserted.
pub fn after_receipt(inserted: u64) -> (step: ReceiptStep)
    ensures
        step == receipt_step(inserted),
{
    if inserted == 0 {
        ReceiptStep::Commit { rows: 0 }
    } else {
        ReceiptStep::Execute
    }
}

/// A table of receipts, and the batches whose statements ran, in their order.
pub struct Ledger {
    pub receipts: Set<ReceiptId>,
    pub executed: Seq<ReceiptId>,
}

impl Ledger {
    /// A table without receipts.
    pub open spec fn blank() -> Ledger {
        Ledger { receipts: Set::empty(), executed: Seq::empty() }
    }

    /// The table after a transaction that committed: its receipt is inserted unless one with
    /// the same identity is there, and the statements run as the step says.
    pub open spec fn committed(self, id: ReceiptId) -> Ledger {
        let inserted: u64 = if self.receipts.contains(id) {
            0
        } else {
            1
        };
        Ledger {
            receipts: self.receipts.insert(id),
            executed: match receipt_step(inserted) {
                ReceiptStep::Execute => self.executed.push(id),
                ReceiptStep::Commit { .. } => self.executed,
            },
        }
    }

    /// The table after transactions that committed one after the other.
    pub open spec fn all_committed(self, ids: Seq<ReceiptId>) -> Ledger
        decreases ids.len(),
    {
        if ids.len() == 0 {
            self
        } else {
            self.all_committed(ids.drop_last()).committed(ids.last())
        }
    }
}

/// However often batches are written again, each one's statements run exactly once.
pub proof fn law_batches_are_executed_once(ids: Seq<ReceiptId>)
    ensures
        Ledger::blank().all_committed(ids).executed.no_duplicates(),
        Ledger::blank().all_committed(ids).executed.to_set() == ids.to_set(),
        Ledger::blank().all_committed(ids).receipts == ids.to_set(),
    decreases ids.len(),
{
    if ids.len() > 0 {
        let earlier = ids.drop_last();
        let before = Ledger::blank().all_committed(earlier);
        law_batches_are_executed_once(earlier);
        assert(ids == earlier.push(ids.last()));
        assert(ids.to_set() =~= earlier.to_set().insert(ids.last())) by {
            assert forall|id: ReceiptId| ids.contains(id) implies earlier.contains(id) || id
                == ids.last() by {
                let i = ids.index_of(id);
                if i < earlier.len() {
                    assert(earlier[i] == id);
                }
            }
            assert forall|id: ReceiptId| earlier.contains(id) implies ids.contains(id) by {
                assert(ids[earlier.index_of(id)] == id);
            }
            assert(ids[ids.len() - 1] == ids.last());
        }
        if !before.receipts.contains(ids.last()) {
            let after = before.executed.push(ids.last());
            assert(!before.executed.contains(ids.last())) by {
                assert(!before.executed.to_set().contains(ids.last()));
            }
            assert(after.to_set() =~= before.executed.to_set().insert(ids.last())) by {
                assert forall|id: ReceiptId| before.executed.contains(id) implies after.contains(
                    id,
                ) by {
                    assert(after[before.executed.index_of(id)] == id);
                }
                assert(after[after.len() - 1] == ids.last());
            }
        }
    }
}

/// How far a write has come.
#[derive(Clone, Copy, Debug, PartialEq, Eq, Structural)]
pub enum Stage {
    Prepare,
    Acquire,
    Execute,
}

impl Stage {
    /// The name of the stage.
    pub open spec fn label(self) -> Seq<char> {
        match self {
            Stage::Prepare => "prepare"@,
            Stage::Acquire => "acquire"@,
            Stage::Execute => "execute"@,
        }
    }

    /// The name of the stage.
    pub fn as_str(self) -> (name: &'static str)
        ensures
            name@ == self.label(),
    {
        match self {
            Stage::Prepare => "prepare",
            Stage::Acquire => "acquire",
            Stage::Execute => "execute",
        }
    }
}

/// What kind of failure a write ended with.
#[derive(Clone, Copy, Debug, PartialEq, Eq, Structural)]
pub enum FailureKind {
    ClientDeadline,
    LockTimeout,
    StatementCancelled,
    DatabaseError,
    AcquireError,
    SerializationError,
    ConnectionError,
}

impl FailureKind {
    /// The name of the kind.
    pub open spec fn label(self) -> Seq<char> {
        match self {
            FailureKind::ClientDeadline => "client_deadline"@,
            FailureKind::LockTimeout => "lock_timeout"@,
            FailureKind::StatementCancelled => "statement_cancelled"@,
            FailureKind::DatabaseError => "database_error"@,
            FailureKind::AcquireError => "acquire_error"@,
            FailureKind::SerializationError => "serialization_error"@,
            FailureKind::ConnectionError => "connection_error"@,
        }
    }

    /// The name of the kind.
    pub fn as_str(self) -> (name: &'static str)
        ensures
            name@ == self.label(),
    {
        match self {
            FailureKind::ClientDeadline => "client_deadline",
            FailureKind::LockTimeout => "lock_timeout",
            FailureKind::StatementCancelled => "statement_cancelled",
            FailureKind::DatabaseError => "database_error",
            FailureKind::AcquireError => "acquire_error",
            FailureKind::SerializationError => "serialization_error",
            FailureKind::ConnectionError => "connection_error",
        }
    }

    /// What kind of failure it is: a missed deadline before anything else, then what the
    /// SQLSTATE says, and without one it goes by the stage.
    pub open spec fn of(stage: Stage, deadline: bool, sqlstate: Option<Seq<char>>) -> FailureKind {
        if deadline {
            FailureKind::ClientDeadline
        } else {
            match sqlstate {
                Some(code) => if code == "55P03"@ {
                    FailureKind::LockTimeout
                } else if code == "57014"@ {
                    FailureKind::StatementCancelled
                } else {
                    FailureKind::DatabaseError
                },
                None => match stage {
                    Stage::Acquire => FailureKind::AcquireError,
                    Stage::Prepare => FailureKind::SerializationError,
                    Stage::Execute => FailureKind::ConnectionError,
                },
            }
        }
    }

    /// What kind of failure it is.
    pub fn classify(stage: Stage, deadline: bool, sqlstate: &Option<String>) -> (kind: FailureKind)
        ensures
            kind == FailureKind::of(stage, deadline, optional_text(*sqlstate)),
    {
        if deadline {
            return FailureKind::ClientDeadline;
        }
        match sqlstate {
            Some(code) => if same_text(code.as_str(), "55P03") {
                FailureKind::LockTimeout
            } else if same_text(code.as_str(), "57014") {
                FailureKind::StatementCancelled
            } else {
                FailureKind::DatabaseError
            },
            None => match stage {
                Stage::Acquire => FailureKind::AcquireError,
                Stage::Prepare => FailureKind::SerializationError,
                Stage::Execute => FailureKind::ConnectionError,
            },
        }
    }
}

/// A text that may be missing, as characters.
pub open spec fn optional_text(text: Option<String>) -> Option<Seq<char>> {
    match text {
        Some(text) => Some(text@),
        None => None,
    }
}

/// The deadline had come before the SQL was submitted.
#[derive(Clone, Copy, Debug, PartialEq, Eq, Structural)]
pub struct WriteDeadline;

/// Fails once the deadline has come.
pub fn check_deadline(now: Moment, deadline: Deadline) -> (checked: Result<(), WriteDeadline>)
    ensures
        checked == if now.nanos >= deadline.at() {
            Err::<(), WriteDeadline>(WriteDeadline)
        } else {
            Ok(())
        },
{
    if deadline.reached(now) {
        Err(WriteDeadline)
    } else {
        Ok(())
    }
}

/// What a write waits for.
#[derive(Clone, Copy, Debug, PartialEq, Eq, Structural)]
pub enum WritePhase {
    Preparing,
    Locking,
    Connecting,
    Executing,
    Ended,
}

/// What happened to a write.
#[derive(Clone, Copy, Debug, PartialEq, Eq, Structural)]
pub enum WriteEvent {
    /// The batch was prepared.
    Prepared,
    /// The writer's connection was locked; it may hold one that was stored.
    Locked { stored: bool },
    /// There is a connection, stored or new.
    Connected,
    /// The batch was executed and committed.
    Executed { rows: u64 },
    /// A step failed.
    Failed,
    /// The deadline came during a step.
    TimedOut,
}

/// What a write does next.
#[derive(Clone, Copy, Debug, PartialEq, Eq, Structural)]
pub enum WriteAction {
    /// It locks the writer's connection.
    Lock,
    /// It goes on with the connection that was stored.
    UseStored,
    /// It opens a connection.
    Connect,
    /// It submits the batch.
    Execute,
    /// It stores the connection for the next write and returns the rows.
    Return { rows: u64 },
    /// It drops the connection, if it has one, and fails; `deadline` says whether it missed
    /// its deadline.
    GiveUp { deadline: bool },
}

/// A write on its way.
#[derive(Clone, Copy, Debug)]
pub struct WriteRun {
    phase: WritePhase,
    stage: Stage,
    deadline: Deadline,
}

/// A write on its way: what it waits for, its stage, and its deadline.
pub struct WriteRunView {
    pub phase: WritePhase,
    pub stage: Stage,
    pub deadline: int,
}

impl View for WriteRun {
    type V = WriteRunView;

    closed spec fn view(&self) -> WriteRunView {
        WriteRunView { phase: self.phase, stage: self.stage, deadline: self.deadline.at() }
    }
}

impl WriteRunView {
    /// Whether the write can meet an event.
    pub open spec fn expects(self, event: WriteEvent) -> bool {
        match event {
            WriteEvent::Prepared => self.phase == WritePhase::Preparing,
            WriteEvent::Locked { .. } => self.phase == WritePhase::Locking,
            WriteEvent::Connected => self.phase == WritePhase::Connecting,
            WriteEvent::Executed { .. } => self.phase == WritePhase::Executing,
            WriteEvent::Failed | WriteEvent::TimedOut => self.phase != WritePhase::Ended,
        }
    }

    /// The write that gave up in its stage.
    pub open spec fn ended(self) -> WriteRunView {
        WriteRunView { phase: WritePhase::Ended, ..self }
    }

    /// The write after an event at `now`, and what it does next. Every step that succeeds is
    /// followed by a look at the deadline, except the execution itself.
    pub open spec fn next(self, event: WriteEvent, now: Moment) -> (WriteRunView, WriteAction) {
        let late = now.nanos >= self.deadline;
        match event {
            WriteEvent::Executed { rows } => (self.ended(), WriteAction::Return { rows }),
            WriteEvent::Failed => (self.ended(), WriteAction::GiveUp { deadline: false }),
            WriteEvent::TimedOut => (self.ended(), WriteAction::GiveUp { deadline: true }),
            _ if late => (self.ended(), WriteAction::GiveUp { deadline: true }),
            WriteEvent::Prepared => (
                WriteRunView { phase: WritePhase::Locking, stage: Stage::Acquire, ..self },
                WriteAction::Lock,
            ),
            WriteEvent::Locked { stored } => (
                WriteRunView { phase: WritePhase::Connecting, ..self },
                if stored {
                    WriteAction::UseStored
                } else {
                    WriteAction::Connect
                },
            ),
            WriteEvent::Connected => (
                WriteRunView { phase: WritePhase::Executing, stage: Stage::Execute, ..self },
                WriteAction::Execute,
            ),
        }
    }

    /// The stage is the one that the phase belongs to.
    pub open spec fn wf(self) -> bool {
        match self.phase {
            WritePhase::Preparing => self.stage == Stage::Prepare,
            WritePhase::Locking | WritePhase::Connecting => self.stage == Stage::Acquire,
            WritePhase::Executing => self.stage == Stage::Execute,
            WritePhase::Ended => true,
        }
    }
}

impl WriteRun {
    /// A write that starts at `now` and has as long as the limit on a whole write says.
    pub fn start(now: Moment, timeouts: WriteTimeouts) -> (run: WriteRun)
        ensures
            run@ == (WriteRunView {
                phase: WritePhase::Preparing,
                stage: Stage::Prepare,
                deadline: now.nanos + duration_nanos(timeouts.spec_batch()),
            }),
    {
        let limit: u64 = timeouts.batch().as_nanos() as u64;
        WriteRun {
            phase: WritePhase::Preparing,
            stage: Stage::Prepare,
            deadline: Deadline::after(now, limit),
        }
    }

    /// The stage that the write has reached.
    pub fn stage(&self) -> (stage: Stage)
        ensures
            stage == self@.stage,
    {
        self.stage
    }

    /// Takes in an event at `now` and says what to do next.
    pub fn advance(&mut self, event: WriteEvent, now: Moment) -> (action: WriteAction)
        requires
            old(self)@.expects(event),
        ensures
            (final(self)@, action) == old(self)@.next(event, now),
            old(self)@.wf() ==> final(self)@.wf(),
    {
        match event {
            WriteEvent::Executed { rows } => {
                self.phase = WritePhase::Ended;
                return WriteAction::Return { rows };
            },
            WriteEvent::Failed => {
                self.phase = WritePhase::Ended;
                return WriteAction::GiveUp { deadline: false };
            },
            WriteEvent::TimedOut => {
                self.phase = WritePhase::Ended;
                return WriteAction::GiveUp { deadline: true };
            },
            _ => {},
        }
        if check_deadline(now, self.deadline).is_err() {
            self.phase = WritePhase::Ended;
            return WriteAction::GiveUp { deadline: true };
        }
        match event {
            WriteEvent::Prepared => {
                self.phase = WritePhase::Locking;
                self.stage = Stage::Acquire;
                WriteAction::Lock
            },
            WriteEvent::Locked { stored } => {
                self.phase = WritePhase::Connecting;
                if stored {
                    WriteAction::UseStored
                } else {
                    WriteAction::Connect
                }
            },
            _ => {
                self.phase = WritePhase::Executing;
                self.stage = Stage::Execute;
                WriteAction::Execute
            },
        }
    }
}

/// A write with everything that it did.
pub struct WriteHistory {
    pub run: WriteRunView,
    pub actions: Seq<WriteAction>,
}

impl WriteHistory {
    /// A write that just started.
    pub open spec fn started(deadline: int) -> WriteHistory {
        WriteHistory {
            run: WriteRunView {
                phase: WritePhase::Preparing,
                stage: Stage::Prepare,
                deadline,
            },
            actions: Seq::empty(),
        }
    }

    /// The write after an event.
    pub open spec fn after(self, event: WriteEvent, now: Moment) -> WriteHistory {
        let (run, action) = self.run.next(event, now);
        WriteHistory { run, actions: self.actions.push(action) }
    }

    /// Whether the write can meet the events one after the other.
    pub open spec fn expects_all(self, events: Seq<(WriteEvent, Moment)>) -> bool
        decreases events.len(),
    {
        events.len() == 0 || (self.expects_all(events.drop_last()) && self.after_all(
            events.drop_last(),
        ).run.expects(events.last().0))
    }

    /// The write after all the events.
    pub open spec fn after_all(self, events: Seq<(WriteEvent, Moment)>) -> WriteHistory
        decreases events.len(),
    {
        if events.len() == 0 {
            self
        } else {
            let (event, now) = events.last();
            self.after_all(events.drop_last()).after(event, now)
        }
    }
}

/// Whether an action gives the write a connection.
pub open spec fn connects(action: WriteAction) -> bool {
    action == WriteAction::UseStored || action == WriteAction::Connect
}

/// A write locks, connects and executes, in this order and each at most once, and returns
/// rows only after it executed; in whichever step it gives up, that is the last it does. Its
/// stage says how far it came.
pub proof fn law_writes_go_step_by_step(deadline: int, events: Seq<(WriteEvent, Moment)>)
    requires
        WriteHistory::started(deadline).expects_all(events),
    ensures
        ({
            let write = WriteHistory::started(deadline).after_all(events);
            let done = write.actions;
            let gave_up = done.len() > 0 && done.last() is GiveUp;
            let steps = if gave_up {
                done.len() - 1
            } else {
                done.len() as int
            };
            &&& write.run.wf()
            &&& write.run.deadline == deadline
            &&& 0 <= steps <= 4
            &&& steps > 0 ==> done[0] == WriteAction::Lock
            &&& steps > 1 ==> connects(done[1])
            &&& steps > 2 ==> done[2] == WriteAction::Execute
            &&& steps > 3 ==> done[3] is Return && !gave_up
            &&& write.run.phase == WritePhase::Ended <==> gave_up || steps == 4
            &&& !gave_up && steps < 4 ==> write.run.phase == if steps == 0 {
                WritePhase::Preparing
            } else if steps == 1 {
                WritePhase::Locking
            } else if steps == 2 {
                WritePhase::Connecting
            } else {
                WritePhase::Executing
            }
            &&& write.run.stage == if steps == 0 {
                Stage::Prepare
            } else if steps <= 2 {
                Stage::Acquire
            } else {
                Stage::Execute
            }
        }),
    decreases events.len(),
{
    if events.len() > 0 {
        law_writes_go_step_by_step(deadline, events.drop_last());
    }
}

/// A write goes on after a step only while its deadline has not come: it locks, connects and
/// submits its SQL before the deadline, or not at all.
pub proof fn law_nothing_is_submitted_late(run: WriteRunView, event: WriteEvent, now: Moment)
    requires
        run.expects(event),
        now.nanos >= run.deadline,
    ensures
        !(run.next(event, now).1 is Lock),
        !connects(run.next(event, now).1),
        !(run.next(event, now).1 is Execute),
{
}

/// A write that was executed returns its rows even if the deadline came meanwhile, and every
/// other end is a failure, which counts as a missed deadline exactly where the deadline came.
pub proof fn law_only_executed_writes_return(run: WriteRunView, event: WriteEvent, now: Moment)
    requires
        run.expects(event),
    ensures
        forall|rows: u64|
            run.next(event, now).1 == (WriteAction::Return { rows }) <==> event == (
            WriteEvent::Executed { rows }),
        run.next(event, now).1 == (WriteAction::GiveUp { deadline: false }) <==> event
            == WriteEvent::Failed,
        run.next(event, now).1 == (WriteAction::GiveUp { deadline: true }) <==> event
            == WriteEvent::TimedOut || (now.nanos >= run.deadline && !(event is Executed)
            && event != WriteEvent::Failed),
{
}

/// A failure goes by the stage only where neither the deadline nor a SQLSTATE explains it.
pub proof fn law_deadlines_outrank_sqlstates(
    stage: Stage,
    other: Stage,
    deadline: bool,
    sqlstate: Option<Seq<char>>,
)
    ensures
        FailureKind::of(stage, deadline, sqlstate) == FailureKind::ClientDeadline <==> deadline,
        deadline || sqlstate is Some ==> FailureKind::of(stage, deadline, sqlstate)
            == FailureKind::of(other, deadline, sqlstate),
{
}

/// Before its deadline a write answers each step with the next: it locks once the batch is
/// prepared; it uses the stored connection exactly if there is one and opens one exactly if there
/// is none; and it submits the batch once it is connected.
pub proof fn law_steps_before_the_deadline(
    run: WriteRunView,
    event: WriteEvent,
    now: Moment,
    stored: bool,
)
    requires
        run.expects(event),
        now.nanos < run.deadline,
    ensures
        run.next(event, now).1 == WriteAction::Lock <==> event == WriteEvent::Prepared,
        event == (WriteEvent::Locked { stored }) ==> (run.next(event, now).1
            == WriteAction::UseStored <==> stored) && (run.next(event, now).1
            == WriteAction::Connect <==> !stored),
        connects(run.next(event, now).1) <==> event is Locked,
        run.next(event, now).1 == WriteAction::Execute <==> event == WriteEvent::Connected,
{
}

/// What a write does about an event does not depend on the reading of the clock, but for whether
/// the deadline has come.
pub proof fn law_only_the_deadline_matters_of_the_clock(
    run: WriteRunView,
    event: WriteEvent,
    now: Moment,
    other: Moment,
)
    requires
        now.nanos < run.deadline <==> other.nanos < run.deadline,
    ensures
        run.next(event, now) == run.next(event, other),
{
}

/// A write reaches the stage `acquire` by being prepared in time and `execute` by being connected
/// in time; nothing else moves its stage, and nothing its deadline.
pub proof fn law_stages_follow_from_steps_in_time(
    run: WriteRunView,
    event: WriteEvent,
    now: Moment,
)
    requires
        run.expects(event),
    ensures
        run.next(event, now).0.deadline == run.deadline,
        run.next(event, now).0.stage == if now.nanos < run.deadline && event
            == WriteEvent::Prepared {
            Stage::Acquire
        } else if now.nanos < run.deadline && event == WriteEvent::Connected {
            Stage::Execute
        } else {
            run.stage
        },
        run.next(event, now).0.phase == WritePhase::Ended <==> run.next(event, now).1 is Return
            || run.next(event, now).1 is GiveUp,
{
}

/// Whatever a write waits for can happen to it, and it can fail or run out of time as long as it
/// has not ended; nothing happens to it afterwards.
pub proof fn law_writes_expect_what_they_wait_for(run: WriteRunView, event: WriteEvent)
    ensures
        run.expects(event) <==> run.phase != WritePhase::Ended && (event == WriteEvent::Failed
            || event == WriteEvent::TimedOut || (event == WriteEvent::Prepared && run.phase
            == WritePhase::Preparing) || (event is Locked && run.phase == WritePhase::Locking) || (
        event == WriteEvent::Connected && run.phase == WritePhase::Connecting) || (
        event is Executed && run.phase == WritePhase::Executing)),
{
}

/// A write has until the limit on a whole write after its start, and starts by preparing.
pub proof fn law_writes_have_the_batch_limit(now: Moment, timeouts: WriteTimeouts, run: WriteRun)
    requires
        call_ensures(WriteRun::start, (now, timeouts), run),
    ensures
        run@.deadline - now.nanos == duration_nanos(timeouts.spec_batch()),
        run@.stage == Stage::Prepare,
        run@.phase == WritePhase::Preparing,
{
}

/// A failure is a missed deadline exactly if the deadline was missed; else it is a lock timeout
/// exactly with the code `55P03`, a cancelled statement exactly with `57014`, and a database
/// error exactly with any other code; without a code it goes by the stage.
pub proof fn law_failures_are_told_apart(
    stage: Stage,
    deadline: bool,
    sqlstate: &Option<String>,
    kind: FailureKind,
)
    requires
        call_ensures(FailureKind::classify, (stage, deadline, sqlstate), kind),
    ensures
        kind == FailureKind::ClientDeadline <==> deadline,
        kind == FailureKind::LockTimeout <==> !deadline && *sqlstate is Some && sqlstate->0@
            == "55P03"@,
        kind == FailureKind::StatementCancelled <==> !deadline && *sqlstate is Some
            && sqlstate->0@ == "57014"@,
        kind == FailureKind::DatabaseError <==> !deadline && *sqlstate is Some && sqlstate->0@
            != "55P03"@ && sqlstate->0@ != "57014"@,
        kind == FailureKind::AcquireError <==> !deadline && *sqlstate is None && stage
            == Stage::Acquire,
        kind == FailureKind::SerializationError <==> !deadline && *sqlstate is None && stage
            == Stage::Prepare,
        kind == FailureKind::ConnectionError <==> !deadline && *sqlstate is None && stage
            == Stage::Execute,
{
    reveal_strlit("55P03");
    reveal_strlit("57014");
    assert("55P03"@[1] != "57014"@[1]);
}

/// A stage goes by its own name and no other.
pub proof fn law_stages_have_their_names(stage: Stage)
    ensures
        stage.label() == "prepare"@ <==> stage == Stage::Prepare,
        stage.label() == "acquire"@ <==> stage == Stage::Acquire,
        stage.label() == "execute"@ <==> stage == Stage::Execute,
{
    reveal_strlit("prepare");
    reveal_strlit("acquire");
    reveal_strlit("execute");
    assert("prepare"@[0] != "acquire"@[0]);
    assert("prepare"@[0] != "execute"@[0]);
    assert("acquire"@[0] != "execute"@[0]);
}

/// A kind of failure goes by its own name.
pub proof fn law_failure_kinds_have_their_names(kind: FailureKind)
    ensures
        kind == FailureKind::ClientDeadline ==> kind.label() == "client_deadline"@,
        kind == FailureKind::LockTimeout ==> kind.label() == "lock_timeout"@,
        kind == FailureKind::StatementCancelled ==> kind.label() == "statement_cancelled"@,
        kind == FailureKind::DatabaseError ==> kind.label() == "database_error"@,
        kind == FailureKind::AcquireError ==> kind.label() == "acquire_error"@,
        kind == FailureKind::SerializationError ==> kind.label() == "serialization_error"@,
        kind == FailureKind::ConnectionError ==> kind.label() == "connection_error"@,
{
}

/// A transaction runs its statements exactly if it inserted a receipt, and commits without rows
/// otherwise.
pub proof fn law_only_new_receipts_run_statements(inserted: u64, step: ReceiptStep)
    requires
        call_ensures(after_receipt, (inserted,), step),
    ensures
        step == ReceiptStep::Execute <==> inserted > 0,
        step matches ReceiptStep::Commit { rows } ==> rows == 0,
{
}

/// Statements differ only in what they were made of: the same words stand before every statement
/// that runs directly, and the same before every one that runs under a receipt.
pub proof fn law_statements_stand_behind_their_input(
    batch: &PreparedBatch,
    other: &PreparedBatch,
    direct: String,
    other_direct: String,
    receipt: String,
    other_receipt: String,
)
    requires
        call_ensures(PreparedBatch::direct_sql, (batch,), direct),
        call_ensures(PreparedBatch::direct_sql, (other,), other_direct),
        call_ensures(PreparedBatch::receipt_sql, (batch,), receipt),
        call_ensures(PreparedBatch::receipt_sql, (other,), other_receipt),
    ensures
        direct@.skip(direct@.len() - batch.sql@.len()) == batch.sql@,
        receipt@.skip(receipt@.len() - batch.sql@.len()) == batch.sql@,
        direct@.take(direct@.len() - batch.sql@.len()) == other_direct@.take(
            other_direct@.len() - other.sql@.len(),
        ),
        receipt@.take(receipt@.len() - batch.sql@.len()) == other_receipt@.take(
            other_receipt@.len() - other.sql@.len(),
        ),
{
    assert(direct@.skip(direct@.len() - batch.sql@.len()) =~= batch.sql@);
    assert(receipt@.skip(receipt@.len() - batch.sql@.len()) =~= batch.sql@);
    assert(direct@.take(direct@.len() - batch.sql@.len()) =~= DIRECT_INPUT@);
    assert(other_direct@.take(other_direct@.len() - other.sql@.len()) =~= DIRECT_INPUT@);
    assert(receipt@.take(receipt@.len() - batch.sql@.len()) =~= RECEIPT_INPUT@);
    assert(other_receipt@.take(other_receipt@.len() - other.sql@.len()) =~= RECEIPT_INPUT@);
}

} // verus!
