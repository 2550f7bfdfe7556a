use data_save_manager::json::{Json, Member};
use data_save_manager::postgres::nul_recovery::{remove_nuls, MAX_LOCATIONS, MAX_PATH_CHARS};

fn text(value: &str) -> Json {
    Json::Text(value.to_string())
}

fn number(value: i64) -> Json {
    Json::Number(serde_json::Number::from(value))
}

/// An object, its members by ascending key.
fn object(members: Vec<(&str, Json)>) -> Json {
    let mut members: Vec<Member> = members
        .into_iter()
        .map(|(key, value)| Member {
            key: key.to_string(),
            value,
        })
        .collect();
    members.sort_by(|left, right| left.key.cmp(&right.key));
    Json::Object(members)
}

fn keys(value: &Json) -> Vec<&str> {
    match value {
        Json::Object(members) => members.iter().map(|member| member.key.as_str()).collect(),
        other => panic!("expected an object, not {other:?}"),
    }
}

fn at<'a>(value: &'a Json, key: &str) -> &'a Json {
    match value {
        Json::Object(members) => {
            &members
                .iter()
                .find(|member| member.key == key)
                .unwrap()
                .value
        }
        other => panic!("expected an object, not {other:?}"),
    }
}

fn item(value: &Json, index: usize) -> &Json {
    match value {
        Json::Array(items) => &items[index],
        other => panic!("expected an array, not {other:?}"),
    }
}

#[test]
fn removes_only_nul_values_and_reports_bounded_json_pointers() {
    let mut value = Json::Array(vec![object(vec![
        ("name", text("A\0Б🚀")),
        (
            "a/b~c",
            Json::Array(vec![text("\0\0"), text("literal \\u0000")]),
        ),
        ("n", Json::Null),
        ("amount", number(123)),
        ("controls", text("\n\r\t\u{001b}")),
    ])]);
    let report = remove_nuls(&mut value);
    assert_eq!(report.nul_characters, 3);
    assert_eq!(report.affected_values, 2);
    assert_eq!(report.escaped_keys, 0);
    assert!(report.locations.contains(&"/0/name".into()));
    assert!(report.locations.contains(&"/0/a~1b~0c/0".into()));
    let row = item(&value, 0);
    assert_eq!(*at(row, "name"), text("AБ🚀"));
    assert_eq!(*item(at(row, "a/b~c"), 0), text(""));
    assert_eq!(*item(at(row, "a/b~c"), 1), text("literal \\u0000"));
    assert_eq!(*at(row, "controls"), text("\n\r\t\u{001b}"));
    assert_eq!(*at(row, "amount"), number(123));
    assert_eq!(*at(row, "n"), Json::Null);
    assert_eq!(remove_nuls(&mut value).nul_characters, 0);
    let mut many = Json::Array((0..50).map(|_| text("\0")).collect());
    let report = remove_nuls(&mut many);
    assert_eq!(report.locations.len(), MAX_LOCATIONS);
    assert_eq!(report.affected_values, 50);
    let long_key = "я".repeat(300);
    let mut long = object(vec![(long_key.as_str(), text("\0"))]);
    assert_eq!(
        remove_nuls(&mut long).locations[0].chars().count(),
        MAX_PATH_CHARS
    );
}

#[test]
fn escapes_nested_nul_keys_without_collisions_and_is_idempotent() {
    let mut value = object(vec![(
        "metadata",
        object(vec![
            ("x\0", number(1)),
            ("x", number(2)),
            ("x\\u0000", number(3)),
            ("x\\\\u0000", number(4)),
            (
                "nested",
                Json::Array(vec![object(vec![("\0", text("value\0"))])]),
            ),
        ]),
    )]);
    let report = remove_nuls(&mut value);
    assert_eq!(report.nul_characters, 3);
    assert_eq!(report.affected_values, 1);
    assert_eq!(report.escaped_keys, 4);
    let metadata = at(&value, "metadata");
    assert_eq!(keys(metadata).len(), 5);
    assert_eq!(*at(metadata, "x\\u0000"), number(1));
    assert_eq!(*at(metadata, "x"), number(2));
    assert_eq!(*at(metadata, "x\\\\u0000"), number(3));
    assert_eq!(*at(metadata, "x\\\\\\\\u0000"), number(4));
    assert_eq!(
        *at(item(at(metadata, "nested"), 0), "\\u0000"),
        text("value")
    );
    let repaired = format!("{value:?}");
    let second = remove_nuls(&mut value);
    assert_eq!(second.nul_characters, 0);
    assert_eq!(second.escaped_keys, 0);
    assert_eq!(format!("{value:?}"), repaired);
}

#[test]
fn clean_objects_keep_literal_backslashes_in_keys() {
    let metadata = || {
        object(vec![
            ("x\\u0000", text("literal")),
            ("x\\y", text("other")),
        ])
    };
    let mut value = object(vec![("metadata", metadata()), ("bad", text("\0"))]);
    let report = remove_nuls(&mut value);
    assert_eq!(report.escaped_keys, 0);
    assert_eq!(*at(&value, "metadata"), metadata());
}

#[test]
fn repaired_keys_are_in_order_and_locations_follow_the_walk() {
    let mut value = object(vec![
        ("\0", text("first\0")),
        ("A", text("second\0")),
        ("~", Json::Bool(true)),
    ]);
    let report = remove_nuls(&mut value);
    assert_eq!(keys(&value), vec!["A", "\\u0000", "~"]);
    assert_eq!(
        report.locations,
        vec!["/\\u0000", "/A", "/\\u0000"]
    );
    assert_eq!(report.nul_characters, 3);
    assert_eq!(report.affected_values, 2);
    assert_eq!(report.escaped_keys, 1);
}

#[test]
fn a_bare_text_is_at_the_root_pointer() {
    let mut value = text("\0a\0");
    let report = remove_nuls(&mut value);
    assert_eq!(value, text("a"));
    assert_eq!(report.locations, vec![""]);
    assert_eq!(report.nul_characters, 2);
}

#[test]
fn the_report_counts_nuls_in_keys_and_values_once() {
    let mut value = Json::Array(vec![
        object(vec![("a\0\0", text("\0")), ("b\\", text("x"))]),
        text("\0\0\0"),
        number(7),
    ]);
    let report = remove_nuls(&mut value);
    assert_eq!(report.nul_characters, 6);
    assert_eq!(report.affected_values, 2);
    assert_eq!(report.escaped_keys, 2);
    assert_eq!(keys(item(&value, 0)), vec!["a\\u0000\\u0000", "b\\\\"]);
}
