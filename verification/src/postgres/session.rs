//! How the writer's own database sessions are set up, and what they send.

use vstd::prelude::*;

use crate::queue::is_drawn;
use crate::queue::is_random_uuid;
use crate::queue::BatchIdentity;
use crate::queue::ReceiptId;
use crate::text::decimal;
use crate::text::digits_value;
use crate::text::law_numerals_write_their_number;
use crate::text::law_uuid_texts_write_their_bits;
use crate::text::push_decimal;
use crate::text::push_uuid;
use crate::text::uuid_text;
use crate::timeouts::duration_nanos;
use crate::timeouts::WriteTimeouts;

verus! {

/// The name under which the sessions of the writer `id` are known to the database.
pub open spec fn session_name(id: ReceiptId) -> Seq<char> {
    "data-save-writer-"@ + uuid_text(id.bits)
}

/// The name under which the sessions of the writer `id` are known to the database.
pub fn application_name(id: ReceiptId) -> (name: String)
    ensures
        name@ == session_name(id),
{
    let mut name: String = "data-save-writer-".to_owned();
    push_uuid(&mut name, id.bits);
    name
}

/// A name for the sessions of a new writer. Which one is chance.
pub fn new_application_name() -> (name: String)
    ensures
        exists|id: ReceiptId|
            #[trigger] is_drawn(id.bits) && is_random_uuid(id.bits) && name@ == session_name(id),
{
    application_name(ReceiptId::new_batch())
}

/// A limit as the database takes it.
pub open spec fn limit_text(nanos: nat) -> Seq<char> {
    decimal(nanos / 1_000_000) + "ms"@
}

/// A setting of a session.
#[derive(Debug)]
pub struct SessionOption {
    pub name: &'static str,
    pub value: String,
}

/// The limits that the database itself enforces in a session.
pub fn session_options(timeouts: WriteTimeouts) -> (options: Vec<SessionOption>)
    ensures
        options@.len() == 2,
        options@[0].name@ == "statement_timeout"@,
        options@[0].value@ == limit_text(duration_nanos(timeouts.spec_statement())),
        duration_nanos(timeouts.spec_statement()) % 1_000_000 == 0,
        options@[1].name@ == "lock_timeout"@,
        options@[1].value@ == limit_text(duration_nanos(timeouts.spec_lock())),
        duration_nanos(timeouts.spec_lock()) % 1_000_000 == 0,
{
    let mut statement: String = String::new();
    push_decimal(&mut statement, timeouts.statement().as_nanos() / 1_000_000);
    statement.append("ms");
    let mut lock: String = String::new();
    push_decimal(&mut lock, timeouts.lock().as_nanos() / 1_000_000);
    lock.append("ms");
    vec![
        SessionOption { name: "statement_timeout", value: statement },
        SessionOption { name: "lock_timeout", value: lock },
    ]
}

/// The number of payload bytes between two lengths of an argument buffer, without the version
/// byte that goes before them.
pub fn payload_bytes(before: usize, after: usize) -> (bytes: usize)
    requires
        before < after,
    ensures
        bytes == after - before - 1,
{
    after - before - 1
}

/// The limits that the database enforces are a numeral and `ms`, and the numeral writes the
/// limit: as many milliseconds as the timeout has.
pub proof fn law_session_limits_are_in_milliseconds(
    timeouts: WriteTimeouts,
    options: Vec<SessionOption>,
    i: int,
)
    requires
        call_ensures(session_options, (timeouts,), options),
        0 <= i < options@.len(),
    ensures
        options@.len() == 2,
        options@[0].name@ == "statement_timeout"@,
        options@[1].name@ == "lock_timeout"@,
        ({
            let text = options@[i].value@;
            let numeral = text.take(text.len() - 2);
            let limit = if i == 0 {
                duration_nanos(timeouts.spec_statement())
            } else {
                duration_nanos(timeouts.spec_lock())
            };
            &&& text.len() > 2
            &&& text.skip(text.len() - 2) == "ms"@
            &&& forall|k: int| 0 <= k < numeral.len() ==> '0' <= #[trigger] numeral[k] <= '9'
            &&& digits_value(numeral) * 1_000_000 == limit
        }),
{
    let limit = if i == 0 {
        duration_nanos(timeouts.spec_statement())
    } else {
        duration_nanos(timeouts.spec_lock())
    };
    lemma_limit_text(limit);
}

proof fn lemma_limit_text(nanos: nat)
    ensures
        limit_text(nanos).len() > 2,
        limit_text(nanos).skip(limit_text(nanos).len() - 2) == "ms"@,
        ({
            let numeral = limit_text(nanos).take(limit_text(nanos).len() - 2);
            &&& forall|k: int| 0 <= k < numeral.len() ==> '0' <= #[trigger] numeral[k] <= '9'
            &&& digits_value(numeral) == nanos / 1_000_000
        }),
{
    let text = limit_text(nanos);
    reveal_strlit("ms");
    law_numerals_write_their_number(nanos / 1_000_000);
    assert(text.skip(text.len() - 2) =~= "ms"@);
    assert(text.take(text.len() - 2) =~= decimal(nanos / 1_000_000));
}

/// The sessions of a writer are known by its UUID behind the same word for all: so by different
/// names for different writers.
pub proof fn law_writers_have_names_of_their_own(
    id: ReceiptId,
    other: ReceiptId,
    name: String,
    other_name: String,
)
    requires
        call_ensures(application_name, (id,), name),
        call_ensures(application_name, (other,), other_name),
    ensures
        name@.len() == other_name@.len(),
        name@.skip(name@.len() - 36) == uuid_text(id.bits),
        name@.take(name@.len() - 36) == other_name@.take(other_name@.len() - 36),
        name@ == other_name@ ==> id == other,
{
    law_uuid_texts_write_their_bits(id.bits);
    law_uuid_texts_write_their_bits(other.bits);
    assert(name@.skip(name@.len() - 36) =~= uuid_text(id.bits));
    assert(other_name@.skip(other_name@.len() - 36) =~= uuid_text(other.bits));
    assert(name@.take(name@.len() - 36) =~= "data-save-writer-"@);
    assert(other_name@.take(other_name@.len() - 36) =~= "data-save-writer-"@);
}

/// A payload is what was written behind what was there, less one byte: so payloads that are
/// written one after the other add up, each with its own byte.
pub proof fn law_payloads_leave_out_one_byte(
    before: usize,
    middle: usize,
    after: usize,
    first: usize,
    second: usize,
)
    requires
        before < middle < after,
        call_ensures(payload_bytes, (before, middle), first),
        call_ensures(payload_bytes, (middle, after), second),
    ensures
        before + (first + 1) + (second + 1) == after,
        before + first + 1 == middle,
{
}

} // verus!
