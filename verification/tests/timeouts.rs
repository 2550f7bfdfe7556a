use std::time::Duration;

use data_save_manager::timeouts::Setting;
use data_save_manager::{TimeoutConfigError, WriteTimeouts};

const KEYS: [&str; 3] = [
    "DATA_SAVE_BATCH_TIMEOUT_MS",
    "DATA_SAVE_STATEMENT_TIMEOUT_MS",
    "DATA_SAVE_LOCK_TIMEOUT_MS",
];

const ORDER: &str =
    "DATA_SAVE_LOCK_TIMEOUT_MS < DATA_SAVE_STATEMENT_TIMEOUT_MS < DATA_SAVE_BATCH_TIMEOUT_MS";

fn setting(overrides: &[(&str, &str)], key: &str) -> Setting {
    for (name, value) in overrides {
        if *name == key {
            return Setting::Text(value.to_string());
        }
    }
    Setting::Missing
}

fn read(overrides: &[(&str, &str)]) -> Result<WriteTimeouts, TimeoutConfigError> {
    WriteTimeouts::from_settings(
        &setting(overrides, KEYS[0]),
        &setting(overrides, KEYS[1]),
        &setting(overrides, KEYS[2]),
    )
}

fn accepts(overrides: &[(&str, &str)], expected: &str) {
    let timeouts = read(overrides).unwrap();
    assert_eq!(
        format!(
            "{},{},{}",
            timeouts.batch().as_millis(),
            timeouts.statement().as_millis(),
            timeouts.lock().as_millis()
        ),
        expected
    );
}

fn rejects(overrides: &[(&str, &str)], key: &str) {
    let error = read(overrides).unwrap_err().message();
    assert!(error.contains(key), "{error}");
    assert!(!error.contains("secret-invalid-value"), "{error}");
}

#[test]
fn missing_env_uses_library_defaults() {
    let defaults = WriteTimeouts::default();
    assert_eq!(defaults.batch(), Duration::from_secs(150));
    assert_eq!(defaults.statement(), Duration::from_secs(120));
    assert_eq!(defaults.lock(), Duration::from_secs(5));
    accepts(&[], "150000,120000,5000");
}

#[test]
fn overrides_each_timeout_independently() {
    for (key, value, expected) in [
        (KEYS[0], "180000", "180000,120000,5000"),
        (KEYS[1], "90000", "150000,90000,5000"),
        (KEYS[2], "10000", "150000,120000,10000"),
    ] {
        accepts(&[(key, value)], expected);
    }
    accepts(
        &[(KEYS[0], "30"), (KEYS[1], "20"), (KEYS[2], "5")],
        "30,20,5",
    );
}

#[test]
fn invalid_env_never_falls_back() {
    for key in KEYS {
        for value in [
            "",
            " ",
            "secret-invalid-value",
            "-1",
            "1.5",
            "0",
            "2147483648",
            "18446744073709551616",
        ] {
            rejects(&[(key, value)], key);
        }
    }
}

#[test]
fn env_requires_strict_timeout_order() {
    for (key, value) in [
        (KEYS[0], "120000"),
        (KEYS[1], "150000"),
        (KEYS[1], "5000"),
        (KEYS[2], "120000"),
    ] {
        rejects(&[(key, value)], ORDER);
    }
}

#[test]
fn non_unicode_env_is_invalid() {
    let missing = || Setting::Missing;
    let results = [
        WriteTimeouts::from_settings(&Setting::NotUnicode, &missing(), &missing()),
        WriteTimeouts::from_settings(&missing(), &Setting::NotUnicode, &missing()),
        WriteTimeouts::from_settings(&missing(), &missing(), &Setting::NotUnicode),
    ];
    for (result, key) in results.into_iter().zip(KEYS) {
        assert_eq!(
            result.unwrap_err().message(),
            format!("invalid data save timeouts: {key}")
        );
    }
}

#[test]
fn explicit_constructor_validates_boundaries() {
    assert!(WriteTimeouts::new(
        Duration::from_millis(3),
        Duration::from_millis(2),
        Duration::from_millis(1)
    )
    .is_ok());
    let max = i32::MAX as u64;
    assert!(WriteTimeouts::new(
        Duration::from_millis(max),
        Duration::from_millis(max - 1),
        Duration::from_millis(max - 2)
    )
    .is_ok());
    assert!(WriteTimeouts::new(Duration::ZERO, Duration::ZERO, Duration::ZERO).is_err());
    assert!(WriteTimeouts::new(
        Duration::from_millis(max + 1),
        Duration::from_secs(120),
        Duration::from_secs(5)
    )
    .is_err());
    assert!(WriteTimeouts::new(
        Duration::from_secs(3),
        Duration::from_secs(2),
        Duration::from_nanos(1)
    )
    .is_err());
}

#[test]
fn the_first_unusable_limit_is_named() {
    let good = Duration::from_millis(10);
    let reason = |batch, statement, lock| {
        WriteTimeouts::new(batch, statement, lock)
            .unwrap_err()
            .message()
    };
    assert_eq!(
        reason(Duration::ZERO, Duration::ZERO, Duration::ZERO),
        format!("invalid data save timeouts: {}", KEYS[0])
    );
    assert_eq!(
        reason(good, Duration::ZERO, Duration::ZERO),
        format!("invalid data save timeouts: {}", KEYS[1])
    );
    assert_eq!(
        reason(good, good, Duration::from_micros(1500)),
        format!("invalid data save timeouts: {}", KEYS[2])
    );
    assert_eq!(
        reason(good, good, good),
        format!("invalid data save timeouts: require {ORDER}")
    );
}

#[test]
fn settings_may_carry_a_plus_sign_and_leading_zeros() {
    accepts(&[(KEYS[0], "+0180000")], "180000,120000,5000");
    rejects(&[(KEYS[0], "+")], KEYS[0]);
    rejects(&[(KEYS[0], "++1")], KEYS[0]);
    rejects(&[(KEYS[0], "18446744073709551615")], KEYS[0]);
}
