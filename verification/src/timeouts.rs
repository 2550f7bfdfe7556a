//! The three time limits of a write.

use std::time::Duration;

use vstd::prelude::*;

use crate::text::decimal;
use crate::text::digits_value;
use crate::text::law_numerals_are_read_back;
use crate::text::parse_u64;
use crate::text::u64_value;

verus! {

/// The setting of the limit on a whole write.
pub const BATCH: &'static str = "DATA_SAVE_BATCH_TIMEOUT_MS";

/// The setting of the limit on one statement.
pub const STATEMENT: &'static str = "DATA_SAVE_STATEMENT_TIMEOUT_MS";

/// The setting of the limit on waiting for a lock.
pub const LOCK: &'static str = "DATA_SAVE_LOCK_TIMEOUT_MS";

/// What is wrong with limits that are not in order.
pub const ORDER: &'static str =
    "require DATA_SAVE_LOCK_TIMEOUT_MS < DATA_SAVE_STATEMENT_TIMEOUT_MS < DATA_SAVE_BATCH_TIMEOUT_MS";

/// What `Duration::as_nanos` returns.
pub uninterp spec fn duration_nanos(duration: Duration) -> nat;

/// `Duration::as_nanos`: the whole length of a duration in nanoseconds.
pub assume_specification[ Duration::as_nanos ](duration: &Duration) -> (nanos: u128)
    ensures
        nanos == duration_nanos(*duration),
;

/// `Duration::from_millis`: a duration of so many milliseconds.
pub assume_specification[ Duration::from_millis ](millis: u64) -> (duration: Duration)
    ensures
        duration_nanos(duration) == millis * 1_000_000,
;

/// Why time limits were rejected: the setting that is not usable, or their order.
#[derive(Debug, Clone, Copy, PartialEq, Eq)]
pub struct TimeoutConfigError(&'static str);

/// Time limits of a write: lock, statement and batch, in ascending order.
#[derive(Debug, Clone, Copy, PartialEq, Eq)]
pub struct WriteTimeouts {
    batch: Duration,
    statement: Duration,
    lock: Duration,
}

/// Where a setting comes from: it may be missing, not be text, or be a text.
#[derive(Debug)]
pub enum Setting {
    Missing,
    NotUnicode,
    Text(String),
}

/// Whether a limit is usable: a whole number of milliseconds from 1 to the largest that
/// PostgreSQL takes.
pub open spec fn usable(nanos: nat) -> bool {
    nanos % 1_000_000 == 0 && 0 < nanos / 1_000_000 <= i32::MAX
}

/// What is wrong with three limits, if anything is: the first that is not usable, or else
/// their order.
pub open spec fn problem(batch: nat, statement: nat, lock: nat) -> Option<Seq<char>> {
    if !usable(batch) {
        Some(BATCH@)
    } else if !usable(statement) {
        Some(STATEMENT@)
    } else if !usable(lock) {
        Some(LOCK@)
    } else if !(lock < statement < batch) {
        Some(ORDER@)
    } else {
        None
    }
}

/// The limit in nanoseconds that a setting asks for: the given one where it is missing,
/// none where it is no number of milliseconds.
pub open spec fn requested(setting: Setting, default: nat) -> Option<nat> {
    match setting {
        Setting::Missing => Some(default),
        Setting::NotUnicode => None,
        Setting::Text(text) => match u64_value(text@) {
            Some(millis) => Some((millis * 1_000_000) as nat),
            None => None,
        },
    }
}

/// The default limits in nanoseconds: batch, statement and lock.
pub open spec fn default_nanos() -> (nat, nat, nat) {
    (150_000_000_000, 120_000_000_000, 5_000_000_000)
}

/// What is wrong with three settings, if anything is: the first that is no number, or else
/// what is wrong with the limits.
pub open spec fn settings_problem(batch: Setting, statement: Setting, lock: Setting) -> Option<
    Seq<char>,
> {
    match (
        requested(batch, default_nanos().0),
        requested(statement, default_nanos().1),
        requested(lock, default_nanos().2),
    ) {
        (None, _, _) => Some(BATCH@),
        (_, None, _) => Some(STATEMENT@),
        (_, _, None) => Some(LOCK@),
        (Some(batch), Some(statement), Some(lock)) => problem(batch, statement, lock),
    }
}

impl TimeoutConfigError {
    /// The setting that is not usable, or the order that is required.
    pub closed spec fn reason(self) -> Seq<char> {
        self.0@
    }

    /// The error as a message. It never quotes what a setting holds.
    pub fn message(&self) -> (message: String)
        ensures
            message@ == "invalid data save timeouts: "@ + self.reason(),
    {
        let mut message: String = "invalid data save timeouts: ".to_owned();
        message.append(self.0);
        message
    }
}

impl WriteTimeouts {
    /// Usable limits in ascending order.
    #[verifier::type_invariant]
    closed spec fn valid(self) -> bool {
        problem(
            duration_nanos(self.batch),
            duration_nanos(self.statement),
            duration_nanos(self.lock),
        ) is None
    }

    /// The limit on a whole write.
    pub closed spec fn spec_batch(self) -> Duration {
        self.batch
    }

    /// The limit on one statement.
    pub closed spec fn spec_statement(self) -> Duration {
        self.statement
    }

    /// The limit on waiting for a lock.
    pub closed spec fn spec_lock(self) -> Duration {
        self.lock
    }

    /// Limits from durations, if they are usable and in order.
    pub fn new(batch: Duration, statement: Duration, lock: Duration) -> (result: Result<
        Self,
        TimeoutConfigError,
    >)
        ensures
            match result {
                Ok(timeouts) => {
                    &&& problem(
                        duration_nanos(batch),
                        duration_nanos(statement),
                        duration_nanos(lock),
                    ) is None
                    &&& timeouts.spec_batch() == batch
                    &&& timeouts.spec_statement() == statement
                    &&& timeouts.spec_lock() == lock
                },
                Err(error) => problem(
                    duration_nanos(batch),
                    duration_nanos(statement),
                    duration_nanos(lock),
                ) == Some(error.reason()),
            },
    {
        if !is_usable(batch) {
            return Err(TimeoutConfigError(BATCH));
        }
        if !is_usable(statement) {
            return Err(TimeoutConfigError(STATEMENT));
        }
        if !is_usable(lock) {
            return Err(TimeoutConfigError(LOCK));
        }
        if !(lock.as_nanos() < statement.as_nanos() && statement.as_nanos() < batch.as_nanos()) {
            return Err(TimeoutConfigError(ORDER));
        }
        Ok(WriteTimeouts { batch, statement, lock })
    }

    /// Limits from settings. A setting that is there but not usable is an error, never
    /// replaced by the default.
    pub fn from_settings(batch: &Setting, statement: &Setting, lock: &Setting) -> (result: Result<
        Self,
        TimeoutConfigError,
    >)
        ensures
            match result {
                Ok(timeouts) => {
                    &&& settings_problem(*batch, *statement, *lock) is None
                    &&& Some(duration_nanos(timeouts.spec_batch())) == requested(
                        *batch,
                        default_nanos().0,
                    )
                    &&& Some(duration_nanos(timeouts.spec_statement())) == requested(
                        *statement,
                        default_nanos().1,
                    )
                    &&& Some(duration_nanos(timeouts.spec_lock())) == requested(
                        *lock,
                        default_nanos().2,
                    )
                },
                Err(error) => settings_problem(*batch, *statement, *lock) == Some(error.reason()),
            },
    {
        let defaults: WriteTimeouts = WriteTimeouts::default();
        let batch: Duration = read(BATCH, batch, defaults.batch)?;
        let statement: Duration = read(STATEMENT, statement, defaults.statement)?;
        let lock: Duration = read(LOCK, lock, defaults.lock)?;
        WriteTimeouts::new(batch, statement, lock)
    }

    /// The limit on a whole write.
    pub fn batch(self) -> (duration: Duration)
        ensures
            duration == self.spec_batch(),
            usable(duration_nanos(duration)),
            duration_nanos(self.spec_statement()) < duration_nanos(duration),
    {
        proof {
            use_type_invariant(&self);
        }
        self.batch
    }

    /// The limit on one statement.
    pub fn statement(self) -> (duration: Duration)
        ensures
            duration == self.spec_statement(),
            usable(duration_nanos(duration)),
            duration_nanos(self.spec_lock()) < duration_nanos(duration),
    {
        proof {
            use_type_invariant(&self);
        }
        self.statement
    }

    /// The limit on waiting for a lock.
    pub fn lock(self) -> (duration: Duration)
        ensures
            duration == self.spec_lock(),
            usable(duration_nanos(duration)),
    {
        proof {
            use_type_invariant(&self);
        }
        self.lock
    }
}

impl Default for WriteTimeouts {
    /// 150 seconds for a write, 120 for a statement, 5 for a lock.
    fn default() -> (timeouts: Self)
        ensures
            duration_nanos(timeouts.spec_batch()) == default_nanos().0,
            duration_nanos(timeouts.spec_statement()) == default_nanos().1,
            duration_nanos(timeouts.spec_lock()) == default_nanos().2,
    {
        WriteTimeouts {
            batch: Duration::from_millis(150_000),
            statement: Duration::from_millis(120_000),
            lock: Duration::from_millis(5_000),
        }
    }
}

fn is_usable(duration: Duration) -> (is: bool)
    ensures
        is == usable(duration_nanos(duration)),
{
    let nanos: u128 = duration.as_nanos();
    nanos % 1_000_000 == 0 && 0 < nanos / 1_000_000 && nanos / 1_000_000 <= i32::MAX as u128
}

/// The duration that a setting asks for.
fn read(key: &'static str, setting: &Setting, default: Duration) -> (result: Result<
    Duration,
    TimeoutConfigError,
>)
    ensures
        match result {
            Ok(duration) => requested(*setting, duration_nanos(default)) == Some(
                duration_nanos(duration),
            ),
            Err(error) => requested(*setting, duration_nanos(default)) is None && error.reason()
                == key@,
        },
{
    match setting {
        Setting::Missing => Ok(default),
        Setting::NotUnicode => Err(TimeoutConfigError(key)),
        Setting::Text(text) => match parse_u64(text.as_str()) {
            Some(millis) => Ok(Duration::from_millis(millis)),
            None => Err(TimeoutConfigError(key)),
        },
    }
}

/// Whether a setting is missing or asks for a usable limit.
pub open spec fn missing_or_usable(setting: Setting) -> bool {
    setting is Missing || (requested(setting, 0) is Some && usable(requested(setting, 0)->0))
}

/// A setting that is there and not usable is refused, whatever the other two are: nothing
/// falls back to a default.
pub proof fn law_unusable_settings_never_fall_back(
    batch: Setting,
    statement: Setting,
    lock: Setting,
)
    requires
        !(missing_or_usable(batch) && missing_or_usable(statement) && missing_or_usable(lock)),
    ensures
        settings_problem(batch, statement, lock) is Some,
{
}

/// Settings are accepted exactly if each is missing or usable and the limits, with the
/// defaults in the place of those that are missing, are strictly in order.
pub proof fn law_accepted_limits_are_in_order(batch: Setting, statement: Setting, lock: Setting)
    ensures
        settings_problem(batch, statement, lock) is None <==> {
            &&& missing_or_usable(batch)
            &&& missing_or_usable(statement)
            &&& missing_or_usable(lock)
            &&& requested(lock, default_nanos().2)->0 < requested(statement, default_nanos().1)->0
            &&& requested(statement, default_nanos().1)->0 < requested(
                batch,
                default_nanos().0,
            )->0
        },
        settings_problem(Setting::Missing, Setting::Missing, Setting::Missing) is None,
{
}

/// What is wrong with settings is one of four fixed texts, so no error quotes what a setting
/// holds.
pub proof fn law_errors_quote_no_setting(batch: Setting, statement: Setting, lock: Setting)
    ensures
        settings_problem(batch, statement, lock) matches Some(reason) ==> reason == BATCH@
            || reason == STATEMENT@ || reason == LOCK@ || reason == ORDER@,
{
}

/// Limits are accepted exactly if each is a whole number of milliseconds, from 1 to 2147483647,
/// and the lock's is less than the statement's and that less than the batch's. Accepted limits
/// are kept as they are; otherwise the error names the first that is not usable, or their order.
pub proof fn law_limits_are_ordered_milliseconds(
    batch: Duration,
    statement: Duration,
    lock: Duration,
    result: Result<WriteTimeouts, TimeoutConfigError>,
)
    requires
        call_ensures(WriteTimeouts::new, (batch, statement, lock), result),
    ensures
        ({
            let b = duration_nanos(batch);
            let s = duration_nanos(statement);
            let l = duration_nanos(lock);
            let b_usable = b % 1_000_000 == 0 && 1_000_000 <= b <= 2_147_483_647_000_000;
            let s_usable = s % 1_000_000 == 0 && 1_000_000 <= s <= 2_147_483_647_000_000;
            let l_usable = l % 1_000_000 == 0 && 1_000_000 <= l <= 2_147_483_647_000_000;
            &&& result is Ok <==> b_usable && s_usable && l_usable && l < s && s < b
            &&& result matches Ok(timeouts) ==> timeouts.spec_batch() == batch
                && timeouts.spec_statement() == statement && timeouts.spec_lock() == lock
            &&& result matches Err(error) ==> error.reason() == if !b_usable {
                "DATA_SAVE_BATCH_TIMEOUT_MS"@
            } else if !s_usable {
                "DATA_SAVE_STATEMENT_TIMEOUT_MS"@
            } else if !l_usable {
                "DATA_SAVE_LOCK_TIMEOUT_MS"@
            } else {
                "require DATA_SAVE_LOCK_TIMEOUT_MS < DATA_SAVE_STATEMENT_TIMEOUT_MS < DATA_SAVE_BATCH_TIMEOUT_MS"@
            }
        }),
{
}

/// A setting asks for as many milliseconds as its numeral writes, with a plus sign or without;
/// one that is missing asks for the default, whatever that is; and one that is not text, or is
/// no numeral that fits, asks for nothing.
pub proof fn law_settings_ask_for_their_numeral(setting: Setting, millis: nat, default: nat)
    ensures
        requested(Setting::Missing, default) == Some(default),
        requested(Setting::NotUnicode, default) is None,
        setting matches Setting::Text(text) ==> {
            &&& (text@ == decimal(millis) || text@ == seq!['+'] + decimal(millis))
                ==> requested(setting, default) == if millis <= u64::MAX {
                Some(millis * 1_000_000)
            } else {
                None
            }
            &&& requested(setting, default) matches Some(nanos) ==> {
                let digits = if text@[0] == '+' {
                    text@.drop_first()
                } else {
                    text@
                };
                &&& digits.len() > 0
                &&& forall|i: int| 0 <= i < digits.len() ==> '0' <= #[trigger] digits[i] <= '9'
                &&& nanos == digits_value(digits) * 1_000_000
            }
        },
{
    if let Setting::Text(text) = setting {
        law_numerals_are_read_back(millis, text@);
    }
}

/// Settings give limits exactly if each asks for something and the limits that they ask for are
/// accepted, with 150, 120 and 5 seconds in the place of what is missing; the first setting that
/// asks for nothing is named.
pub proof fn law_settings_give_the_limits_they_ask_for(
    batch: &Setting,
    statement: &Setting,
    lock: &Setting,
    result: Result<WriteTimeouts, TimeoutConfigError>,
)
    requires
        call_ensures(WriteTimeouts::from_settings, (batch, statement, lock), result),
    ensures
        ({
            let b = requested(*batch, 150_000_000_000);
            let s = requested(*statement, 120_000_000_000);
            let l = requested(*lock, 5_000_000_000);
            &&& result matches Ok(timeouts) ==> {
                &&& b == Some(duration_nanos(timeouts.spec_batch()))
                &&& s == Some(duration_nanos(timeouts.spec_statement()))
                &&& l == Some(duration_nanos(timeouts.spec_lock()))
            }
            &&& b is None ==> result is Err && result->Err_0.reason()
                == "DATA_SAVE_BATCH_TIMEOUT_MS"@
            &&& b is Some && s is None ==> result is Err && result->Err_0.reason()
                == "DATA_SAVE_STATEMENT_TIMEOUT_MS"@
            &&& b is Some && s is Some && l is None ==> result is Err && result->Err_0.reason()
                == "DATA_SAVE_LOCK_TIMEOUT_MS"@
            &&& b is Some && s is Some && l is Some ==> (result is Ok <==> b->0 % 1_000_000 == 0
                && s->0 % 1_000_000 == 0 && l->0 % 1_000_000 == 0 && 1_000_000 <= l->0 < s->0
                < b->0 <= 2_147_483_647_000_000)
        }),
{
}

} // verus!
