//! What a failed write says of itself and of the database session behind it.

use vstd::prelude::*;

use crate::postgres::writer::optional_text;
use crate::postgres::writer::FailureKind;
use crate::postgres::writer::Stage;
use crate::queue::ReceiptId;
use crate::text::decimal;
use crate::text::push_decimal;
use crate::text::push_signed_decimal;
use crate::text::push_uuid;
use crate::text::quoted;
use crate::text::quoted_text;
use crate::text::signed_decimal;
use crate::text::uuid_text;

verus! {

/// What is known of a write that failed.
#[derive(Debug)]
pub struct WriteFailure {
    pub queue: &'static str,
    pub batch_id: ReceiptId,
    pub stage: &'static str,
    pub kind: &'static str,
    pub elapsed_ms: u128,
    pub sqlstate: Option<String>,
    pub backend: String,
}

/// The first code among codes that may be missing, if there is one.
pub open spec fn first_of(codes: Seq<Option<String>>) -> Option<String>
    decreases codes.len(),
{
    if codes.len() == 0 {
        None
    } else if codes[0] is Some {
        codes[0]
    } else {
        first_of(codes.drop_first())
    }
}

/// The first code among those of an error and of its causes, if any has one.
pub fn first_code(codes: Vec<Option<String>>) -> (code: Option<String>)
    ensures
        code == first_of(codes@),
{
    let ghost all = codes@;
    assert(all.skip(0) == all);
    for code in iter: codes
        invariant
            iter.seq() == all,
            first_of(all) == first_of(all.skip(iter.index() as int)),
    {
        let ghost left = all.skip(iter.index() as int);
        assert(left[0] == code);
        assert(left.drop_first() == all.skip(iter.index() + 1));
        if code.is_some() {
            return code;
        }
    }
    None
}

/// Whether the backend of a failed write is worth a look: it missed its deadline while the
/// database had the batch.
pub open spec fn samples_backend(stage: Stage, deadline: bool) -> bool {
    deadline && stage == Stage::Execute
}

impl WriteFailure {
    /// What is known of a write that failed in `stage`. Whether it is worth a look at the
    /// backend comes with it.
    pub fn new(
        queue: &'static str,
        batch_id: ReceiptId,
        stage: Stage,
        deadline: bool,
        elapsed_ms: u128,
        sqlstate: Option<String>,
    ) -> (failure: (WriteFailure, bool))
        ensures
            failure.0.queue@ == queue@,
            failure.0.batch_id == batch_id,
            failure.0.stage@ == stage.label(),
            failure.0.kind@ == FailureKind::of(stage, deadline, optional_text(sqlstate)).label(),
            failure.0.elapsed_ms == elapsed_ms,
            failure.0.sqlstate == sqlstate,
            failure.1 == samples_backend(stage, deadline),
            failure.0.backend@ == if samples_backend(stage, deadline) {
                "scheduled_after_disconnect"@
            } else {
                "not_sampled"@
            },
    {
        let kind: FailureKind = FailureKind::classify(stage, deadline, &sqlstate);
        let sampled: bool = deadline && stage == Stage::Execute;
        let backend: &'static str = if sampled {
            "scheduled_after_disconnect"
        } else {
            "not_sampled"
        };
        (
            WriteFailure {
                queue,
                batch_id,
                stage: stage.as_str(),
                kind: kind.as_str(),
                elapsed_ms,
                sqlstate,
                backend: backend.to_owned(),
            },
            sampled,
        )
    }
}

/// A text that may be missing, in the way of a debug print.
pub open spec fn optional_quoted(text: Option<String>) -> Seq<char> {
    match text {
        Some(text) => "Some("@ + quoted(text@) + ")"@,
        None => "None"@,
    }
}

/// A number that may be missing, in the way of a debug print.
pub open spec fn optional_number(number: Option<i32>) -> Seq<char> {
    match number {
        Some(number) => "Some("@ + signed_decimal(number as int) + ")"@,
        None => "None"@,
    }
}

fn push_optional_quoted(text: &mut String, value: &Option<String>)
    ensures
        final(text)@ == old(text)@ + optional_quoted(*value),
{
    match value {
        Some(value) => {
            text.append("Some(");
            text.append(quoted_text(value.as_str()).as_str());
            text.append(")");
            assert(text@ =~= old(text)@ + optional_quoted(Some(*value)));
        },
        None => {
            text.append("None");
        },
    }
}

fn push_optional_number(text: &mut String, value: Option<i32>)
    ensures
        final(text)@ == old(text)@ + optional_number(value),
{
    match value {
        Some(value) => {
            text.append("Some(");
            push_signed_decimal(text, value as i64);
            text.append(")");
            assert(text@ =~= old(text)@ + optional_number(Some(value)));
        },
        None => {
            text.append("None");
        },
    }
}

impl WriteFailure {
    /// The failure in words, `source` being what caused it.
    pub open spec fn words(self, source: Seq<char>) -> Seq<char> {
        "data save failed queue="@ + self.queue@ + " batch_id="@ + uuid_text(self.batch_id.bits)
            + " stage="@ + self.stage@ + " kind="@ + self.kind@ + " elapsed_ms="@ + decimal(
            self.elapsed_ms as nat,
        ) + " sqlstate="@ + optional_quoted(self.sqlstate) + " backend="@ + self.backend@ + ": "@
            + source
    }

    /// The failure in words, `source` being what caused it.
    pub fn message(&self, source: &str) -> (message: String)
        ensures
            message@ == self.words(source@),
    {
        let mut message: String = "data save failed queue=".to_owned();
        message.append(self.queue);
        message.append(" batch_id=");
        push_uuid(&mut message, self.batch_id.bits);
        message.append(" stage=");
        message.append(self.stage);
        message.append(" kind=");
        message.append(self.kind);
        message.append(" elapsed_ms=");
        push_decimal(&mut message, self.elapsed_ms);
        message.append(" sqlstate=");
        push_optional_quoted(&mut message, &self.sqlstate);
        message.append(" backend=");
        message.append(self.backend.as_str());
        message.append(": ");
        message.append(source);
        message
    }
}

/// What the database says of one session of the writer.
#[derive(Debug)]
pub struct BackendRow {
    pub pid: Option<i32>,
    pub state: Option<String>,
    pub wait_event_type: Option<String>,
    pub wait_event: Option<String>,
    pub blockers: Option<String>,
}

/// What came of asking the database for the writer's sessions.
#[derive(Debug)]
pub enum BackendProbe {
    Answered(Vec<BackendRow>),
    Unavailable,
    TimedOut,
}

impl BackendRow {
    /// The session in words.
    pub open spec fn words(self) -> Seq<char> {
        "pid="@ + optional_number(self.pid) + " state="@ + optional_quoted(self.state) + " wait="@
            + optional_quoted(self.wait_event_type) + "/"@ + optional_quoted(self.wait_event)
            + " blockers="@ + optional_quoted(self.blockers)
    }

    fn push_words(&self, text: &mut String)
        ensures
            final(text)@ == old(text)@ + self.words(),
    {
        text.append("pid=");
        push_optional_number(text, self.pid);
        text.append(" state=");
        push_optional_quoted(text, &self.state);
        text.append(" wait=");
        push_optional_quoted(text, &self.wait_event_type);
        text.append("/");
        push_optional_quoted(text, &self.wait_event);
        text.append(" blockers=");
        push_optional_quoted(text, &self.blockers);
        assert(text@ =~= old(text)@ + self.words());
    }
}

/// Sessions in words, separated by semicolons.
pub open spec fn sessions(rows: Seq<BackendRow>) -> Seq<char>
    decreases rows.len(),
{
    if rows.len() == 0 {
        Seq::empty()
    } else if rows.len() == 1 {
        rows[0].words()
    } else {
        sessions(rows.drop_last()) + "; "@ + rows.last().words()
    }
}

impl BackendProbe {
    /// The answer in words.
    pub open spec fn words(self) -> Seq<char> {
        match self {
            BackendProbe::Answered(rows) => if rows@.len() == 0 {
                "not_visible_through_proxy"@
            } else {
                sessions(rows@)
            },
            BackendProbe::Unavailable => "diagnostics_unavailable"@,
            BackendProbe::TimedOut => "diagnostics_timeout"@,
        }
    }

    /// The answer in words.
    pub fn report(&self) -> (report: String)
        ensures
            report@ == self.words(),
    {
        match self {
            BackendProbe::Answered(rows) => {
                if rows.len() == 0 {
                    return "not_visible_through_proxy".to_owned();
                }
                let mut report: String = String::new();
                for at in 0..rows.len()
                    invariant
                        report@ == sessions(rows@.take(at as int)),
                {
                    let ghost earlier = rows@.take(at as int);
                    let ghost now = rows@.take(at + 1);
                    assert(now.drop_last() == earlier);
                    if at > 0 {
                        report.append("; ");
                    }
                    rows[at].push_words(&mut report);
                    assert(report@ =~= sessions(now));
                }
                assert(rows@.take(rows@.len() as int) == rows@);
                report
            },
            BackendProbe::Unavailable => "diagnostics_unavailable".to_owned(),
            BackendProbe::TimedOut => "diagnostics_timeout".to_owned(),
        }
    }
}

/// A missing value is printed as `None`, any other inside `Some`.
pub proof fn law_optional_values_are_printed_in_full(text: Option<String>, number: Option<i32>)
    ensures
        text is None ==> optional_quoted(text) == "None"@,
        text matches Some(text) ==> optional_quoted(Some(text)) == "Some("@ + quoted(text@) + ")"@,
        number is None ==> optional_number(number) == "None"@,
        number matches Some(number) ==> optional_number(Some(number)) == "Some("@
            + signed_decimal(number as int) + ")"@,
{
}

/// Every failure is put in the same words, with what is known of it between them, and its cause
/// at the end.
pub proof fn law_failures_are_told_in_the_same_words()
    ensures
        exists|words: Seq<Seq<char>>| #[trigger]
            words.len() == 8 && forall|failure: WriteFailure, source: Seq<char>| #[trigger]
                failure.words(source) == words[0] + failure.queue@ + words[1] + uuid_text(
                    failure.batch_id.bits,
                ) + words[2] + failure.stage@ + words[3] + failure.kind@ + words[4] + decimal(
                    failure.elapsed_ms as nat,
                ) + words[5] + optional_quoted(failure.sqlstate) + words[6] + failure.backend@
                    + words[7] + source,
{
    let words = seq![
        "data save failed queue="@,
        " batch_id="@,
        " stage="@,
        " kind="@,
        " elapsed_ms="@,
        " sqlstate="@,
        " backend="@,
        ": "@,
    ];
    assert(words.len() == 8);
}

/// Every session is put in the same words, with what is known of it between them.
pub proof fn law_sessions_are_told_in_the_same_words()
    ensures
        exists|words: Seq<Seq<char>>| #[trigger]
            words.len() == 5 && forall|row: BackendRow| #[trigger]
                row.words() == words[0] + optional_number(row.pid) + words[1] + optional_quoted(
                    row.state,
                ) + words[2] + optional_quoted(row.wait_event_type) + words[3] + optional_quoted(
                    row.wait_event,
                ) + words[4] + optional_quoted(row.blockers),
{
    let words = seq!["pid="@, " state="@, " wait="@, "/"@, " blockers="@];
    assert(words.len() == 5);
}

/// Sessions are listed one after the other, each behind a semicolon but the first.
pub proof fn law_sessions_are_listed_in_order(rows: Seq<BackendRow>, last: BackendRow)
    ensures
        sessions(seq![last]) == last.words(),
        rows.len() > 0 ==> sessions(rows.push(last)) == sessions(rows) + "; "@ + last.words(),
{
    assert(rows.push(last).drop_last() =~= rows);
}

/// What is reported of the writer's sessions: they themselves where the database showed any, else
/// why there is nothing to show.
pub proof fn law_probes_report_what_they_found(probe: &BackendProbe, report: String)
    requires
        call_ensures(BackendProbe::report, (probe,), report),
    ensures
        *probe matches BackendProbe::Answered(rows) ==> (rows@.len() > 0 ==> report@ == sessions(
            rows@,
        )) && (rows@.len() == 0 ==> report@ == "not_visible_through_proxy"@),
        *probe is Unavailable ==> report@ == "diagnostics_unavailable"@,
        *probe is TimedOut ==> report@ == "diagnostics_timeout"@,
{
}

/// The backend is worth a look exactly after a deadline that was missed while the database had
/// the batch; the failure says so, and says where it failed and how.
pub proof fn law_failures_say_whether_the_backend_is_sampled(
    queue: &'static str,
    batch_id: ReceiptId,
    stage: Stage,
    deadline: bool,
    elapsed_ms: u128,
    sqlstate: Option<String>,
    failure: (WriteFailure, bool),
)
    requires
        call_ensures(
            WriteFailure::new,
            (queue, batch_id, stage, deadline, elapsed_ms, sqlstate),
            failure,
        ),
    ensures
        failure.1 <==> deadline && stage == Stage::Execute,
        failure.1 ==> failure.0.backend@ == "scheduled_after_disconnect"@,
        !failure.1 ==> failure.0.backend@ == "not_sampled"@,
        failure.0.stage@ == stage.label(),
        deadline ==> failure.0.kind@ == "client_deadline"@,
        failure.0.sqlstate == sqlstate,
        failure.0.elapsed_ms == elapsed_ms,
        failure.0.batch_id == batch_id,
        failure.0.queue@ == queue@,
{
}

/// The code that counts is one of the codes, and none stands before it; there is none only if
/// there is none at all.
pub proof fn law_the_first_code_counts(codes: Vec<Option<String>>, code: Option<String>, i: int)
    requires
        call_ensures(first_code, (codes,), code),
    ensures
        code is None ==> (0 <= i < codes@.len() ==> codes@[i] is None),
        code is Some ==> exists|j: int|
            0 <= j < codes@.len() && (#[trigger] codes@[j]) == code && forall|k: int|
                0 <= k < j ==> (#[trigger] codes@[k]) is None,
{
    lemma_first_of(codes@, i);
}

proof fn lemma_first_of(codes: Seq<Option<String>>, i: int)
    ensures
        first_of(codes) is None ==> (0 <= i < codes.len() ==> codes[i] is None),
        first_of(codes) is Some ==> exists|j: int|
            0 <= j < codes.len() && (#[trigger] codes[j]) == first_of(codes) && forall|k: int|
                0 <= k < j ==> (#[trigger] codes[k]) is None,
    decreases codes.len(),
{
    if codes.len() > 0 {
        if codes[0] is Some {
            assert(codes[0] == first_of(codes));
        } else {
            let rest = codes.drop_first();
            lemma_first_of(rest, i - 1);
            if 0 < i < codes.len() {
                assert(rest[i - 1] == codes[i]);
            }
            if first_of(rest) is Some {
                let j = choose|j: int|
                    0 <= j < rest.len() && (#[trigger] rest[j]) == first_of(rest) && forall|k: int|
                        0 <= k < j ==> (#[trigger] rest[k]) is None;
                assert(codes[j + 1] == rest[j]);
                assert forall|k: int| 0 <= k < j + 1 implies (#[trigger] codes[k]) is None by {
                    if k > 0 {
                        assert(rest[k - 1] == codes[k]);
                    }
                }
            }
        }
    }
}

} // verus!
