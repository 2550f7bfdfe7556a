use std::time::Duration;

use data_save_manager::postgres::diagnostics::{first_code, BackendProbe, BackendRow};
use data_save_manager::postgres::session::{
    application_name, new_application_name, payload_bytes, session_options,
};
use data_save_manager::postgres::writer::{
    after_receipt, check_deadline, counted_rows, FailureKind, NegativeCount, ReceiptStep, Stage,
    WriteAction, WriteDeadline, WriteEvent, WriteRun,
};
use data_save_manager::postgres::{PreparedBatch, WriteFailure};
use data_save_manager::{Deadline, Moment, ReceiptId, WriteTimeouts};

const MILLI: i64 = 1_000_000;

fn at(millis: i64) -> Moment {
    Moment {
        nanos: millis * MILLI,
    }
}

fn timeouts() -> WriteTimeouts {
    WriteTimeouts::new(
        Duration::from_millis(30),
        Duration::from_millis(20),
        Duration::from_millis(5),
    )
    .unwrap()
}

#[test]
fn prepared_statements_read_their_input_from_the_writer() {
    let rows = serde_json::Value::Bool(true);
    let batch = PreparedBatch::new("SELECT 1".to_string(), rows.clone());
    assert!(!batch.select_count);
    assert_eq!(batch.rows, rows);
    assert_eq!(
        batch.direct_sql(),
        "WITH data_save_input AS (SELECT $1::jsonb AS payload) SELECT 1"
    );
    assert_eq!(
        batch.receipt_sql(),
        "WITH data_save_receipt AS (INSERT INTO data_save_batches (batch_id, queue) VALUES ($2, $3) ON CONFLICT (batch_id) DO NOTHING RETURNING batch_id), data_save_input AS (SELECT $1::jsonb AS payload WHERE EXISTS (SELECT 1 FROM data_save_receipt)) SELECT 1"
    );
    let counting = PreparedBatch::with_count_sql("SELECT count(*)".to_string(), rows);
    assert!(counting.select_count);
    assert_eq!(counting.sql, "SELECT count(*)");
}

#[test]
fn counts_are_not_negative() {
    assert_eq!(counted_rows(0), Ok(0));
    assert_eq!(counted_rows(i64::MAX), Ok(i64::MAX as u64));
    assert_eq!(counted_rows(-1), Err(NegativeCount));
    assert_eq!(counted_rows(i64::MIN), Err(NegativeCount));
}

#[test]
fn replays_run_nothing() {
    assert_eq!(after_receipt(0), ReceiptStep::Commit { rows: 0 });
    assert_eq!(after_receipt(1), ReceiptStep::Execute);
}

#[test]
fn payloads_are_counted_without_the_version_byte() {
    assert_eq!(payload_bytes(0, 1), 0);
    assert_eq!(payload_bytes(7, 19), 11);
}

#[test]
fn a_write_goes_from_preparing_to_rows() {
    for (stored, connect) in [
        (true, WriteAction::UseStored),
        (false, WriteAction::Connect),
    ] {
        let mut run = WriteRun::start(at(100), timeouts());
        assert_eq!(run.stage(), Stage::Prepare);
        assert_eq!(
            run.advance(WriteEvent::Prepared, at(101)),
            WriteAction::Lock
        );
        assert_eq!(run.stage(), Stage::Acquire);
        assert_eq!(
            run.advance(WriteEvent::Locked { stored }, at(102)),
            connect
        );
        assert_eq!(run.stage(), Stage::Acquire);
        assert_eq!(
            run.advance(WriteEvent::Connected, at(129)),
            WriteAction::Execute
        );
        assert_eq!(run.stage(), Stage::Execute);
        assert_eq!(
            run.advance(WriteEvent::Executed { rows: 4 }, at(200)),
            WriteAction::Return { rows: 4 }
        );
    }
}

#[test]
fn no_step_follows_once_the_deadline_has_come() {
    let late = WriteAction::GiveUp { deadline: true };
    let mut run = WriteRun::start(at(100), timeouts());
    assert_eq!(run.advance(WriteEvent::Prepared, at(130)), late);
    assert_eq!(run.stage(), Stage::Prepare);

    let mut run = WriteRun::start(at(100), timeouts());
    run.advance(WriteEvent::Prepared, at(100));
    assert_eq!(
        run.advance(WriteEvent::Locked { stored: true }, at(130)),
        late
    );
    assert_eq!(run.stage(), Stage::Acquire);

    let mut run = WriteRun::start(at(100), timeouts());
    run.advance(WriteEvent::Prepared, at(100));
    run.advance(WriteEvent::Locked { stored: false }, at(100));
    assert_eq!(run.advance(WriteEvent::Connected, at(130)), late);
    assert_eq!(run.stage(), Stage::Acquire);
}

#[test]
fn failed_and_timed_out_steps_end_the_write() {
    let mut run = WriteRun::start(at(0), timeouts());
    assert_eq!(
        run.advance(WriteEvent::Failed, at(99)),
        WriteAction::GiveUp { deadline: false }
    );
    let mut run = WriteRun::start(at(0), timeouts());
    run.advance(WriteEvent::Prepared, at(0));
    assert_eq!(
        run.advance(WriteEvent::TimedOut, at(30)),
        WriteAction::GiveUp { deadline: true }
    );
}

#[test]
fn deadlines_are_reached_at_their_instant() {
    let deadline = Deadline::after(at(1), 5);
    assert_eq!(
        check_deadline(Moment { nanos: MILLI + 4 }, deadline),
        Ok(())
    );
    assert_eq!(
        check_deadline(Moment { nanos: MILLI + 5 }, deadline),
        Err(WriteDeadline)
    );
    let never = Deadline::after(Moment { nanos: i64::MAX }, u64::MAX);
    assert!(!never.reached(Moment { nanos: i64::MAX }));
}

#[test]
fn failures_are_classified_by_deadline_then_sqlstate_then_stage() {
    let kind = |stage, deadline, code: Option<&str>| {
        FailureKind::classify(stage, deadline, &code.map(str::to_string)).as_str()
    };
    for stage in [Stage::Prepare, Stage::Acquire, Stage::Execute] {
        assert_eq!(kind(stage, true, Some("55P03")), "client_deadline");
        assert_eq!(kind(stage, true, None), "client_deadline");
        assert_eq!(kind(stage, false, Some("55P03")), "lock_timeout");
        assert_eq!(kind(stage, false, Some("57014")), "statement_cancelled");
        assert_eq!(kind(stage, false, Some("23505")), "database_error");
    }
    assert_eq!(kind(Stage::Acquire, false, None), "acquire_error");
    assert_eq!(kind(Stage::Prepare, false, None), "serialization_error");
    assert_eq!(kind(Stage::Execute, false, None), "connection_error");
}

#[test]
fn failures_say_what_is_known() {
    let id = ReceiptId {
        bits: 0x0123_4567_89ab_4cde_8f01_2345_6789_abcd,
    };
    let (failure, sampled) = WriteFailure::new(
        "tokens",
        id,
        Stage::Execute,
        false,
        1204,
        Some("23505".to_string()),
    );
    assert!(!sampled);
    assert_eq!(
        failure.message("duplicate key"),
        "data save failed queue=tokens batch_id=01234567-89ab-4cde-8f01-23456789abcd stage=execute kind=database_error elapsed_ms=1204 sqlstate=Some(\"23505\") backend=not_sampled: duplicate key"
    );
    let (failure, sampled) = WriteFailure::new("tokens", id, Stage::Execute, true, 0, None);
    assert!(sampled);
    assert_eq!(
        failure.message("late"),
        "data save failed queue=tokens batch_id=01234567-89ab-4cde-8f01-23456789abcd stage=execute kind=client_deadline elapsed_ms=0 sqlstate=None backend=scheduled_after_disconnect: late"
    );
    let (failure, sampled) = WriteFailure::new("tokens", id, Stage::Acquire, true, 30, None);
    assert!(!sampled);
    assert_eq!(failure.stage, "acquire");
    assert_eq!(failure.kind, "client_deadline");
    assert_eq!(failure.backend, "not_sampled");
}

#[test]
fn sessions_are_named_and_limited() {
    let id = ReceiptId { bits: 0xab };
    assert_eq!(
        application_name(id),
        "data-save-writer-00000000-0000-0000-0000-0000000000ab"
    );
    let options = session_options(timeouts());
    assert_eq!(options.len(), 2);
    assert_eq!(options[0].name, "statement_timeout");
    assert_eq!(options[0].value, "20ms");
    assert_eq!(options[1].name, "lock_timeout");
    assert_eq!(options[1].value, "5ms");
}

#[test]
fn new_writers_have_names_of_their_own() {
    let first = new_application_name();
    let second = new_application_name();
    assert_ne!(first, second);
    for name in [first, second] {
        let id = name.strip_prefix("data-save-writer-").unwrap();
        assert_eq!(uuid::Uuid::parse_str(id).unwrap().get_version_num(), 4);
    }
}

#[test]
fn backends_are_reported_in_words() {
    assert_eq!(
        BackendProbe::Answered(Vec::new()).report(),
        "not_visible_through_proxy"
    );
    assert_eq!(
        BackendProbe::Unavailable.report(),
        "diagnostics_unavailable"
    );
    assert_eq!(BackendProbe::TimedOut.report(), "diagnostics_timeout");
    let blocked = BackendRow {
        pid: Some(4711),
        state: Some("active".to_string()),
        wait_event_type: Some("Lock".to_string()),
        wait_event: Some("a \"b\"".to_string()),
        blockers: Some("{12,13}".to_string()),
    };
    let unknown = BackendRow {
        pid: None,
        state: None,
        wait_event_type: None,
        wait_event: None,
        blockers: None,
    };
    assert_eq!(
        BackendProbe::Answered(vec![blocked, unknown]).report(),
        "pid=Some(4711) state=Some(\"active\") wait=Some(\"Lock\")/Some(\"a \\\"b\\\"\") blockers=Some(\"{12,13}\"); pid=None state=None wait=None/None blockers=None"
    );
    let negative = BackendRow {
        pid: Some(i32::MIN),
        state: None,
        wait_event_type: None,
        wait_event: None,
        blockers: None,
    };
    assert_eq!(
        BackendProbe::Answered(vec![negative]).report(),
        "pid=Some(-2147483648) state=None wait=None/None blockers=None"
    );
}

#[test]
fn the_first_code_of_an_error_chain_counts() {
    let code = |code: &str| Some(code.to_string());
    assert_eq!(first_code(Vec::new()), None);
    assert_eq!(first_code(vec![None, None]), None);
    assert_eq!(
        first_code(vec![None, code("55P03"), None, code("57014")]),
        code("55P03")
    );
    assert_eq!(first_code(vec![code(""), code("57014")]), code(""));
}
