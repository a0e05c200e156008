use logs_gateway::local::{format_line, log_file, LocalLog, LocalTime};
use serde_json::Value;

fn json(text: &str) -> Value {
    serde_json::from_str(text).unwrap()
}

#[test]
fn only_listed_paths_match() {
    let local = LocalLog::new(vec!["/api/admin-action-log/store".to_string()]);
    assert!(local.matches("/api/admin-action-log/store"));
    assert!(!local.matches("/api/kill-log/store"));
    assert!(!local.matches("/api/admin-action-log/store/"));
}

#[test]
fn line_is_one_json_object_with_the_body_nested() {
    let line = format_line(
        "2026-01-01T10:00:00+02:00",
        "/api/admin-action-log/store",
        &json("{ \"user_id\": 12, \"action\": \"teleport\" }"),
    );
    assert!(line.ends_with('\n'));
    let parsed: Value = serde_json::from_str(line.trim()).unwrap();
    assert_eq!(parsed["path"], "/api/admin-action-log/store");
    assert_eq!(parsed["body"]["user_id"], 12);
    assert_eq!(parsed["ts"], "2026-01-01T10:00:00+02:00");
}

#[test]
fn the_line_is_what_a_json_object_of_the_three_prints() {
    let body = json("{\"z\":[1,2.5,null],\"a\":\"line\\nfeed \\\"quoted\\\"\"}");
    let mut entry = serde_json::Map::new();
    entry.insert("ts".to_string(), Value::from("t"));
    entry.insert("path".to_string(), Value::from("/a\tb"));
    entry.insert("body".to_string(), body.clone());
    let line = format_line("t", "/a\tb", &body);
    assert_eq!(line, format!("{}\n", Value::Object(entry)));
    assert_eq!(line.matches('\n').count(), 1);
}

#[test]
fn a_log_is_recorded_in_the_file_of_its_day() {
    let local = LocalLog::new(Vec::new());
    let now = LocalTime {
        secs: 1_767_254_400,
        nanos: 5_000_000,
        offset: 7200,
    };
    let entry = local.record(now, "/api/x", &json("{\"k\":1}")).unwrap();
    assert_eq!(entry.file, "logs/local-2026-01-01.log");
    assert_eq!(
        entry.line,
        "{\"body\":{\"k\":1},\"path\":\"/api/x\",\"ts\":\"2026-01-01T10:00:00.005+02:00\"}\n"
    );
}

#[test]
fn the_day_is_that_of_the_local_clock() {
    let local = LocalLog::new(Vec::new());
    let evening = LocalTime {
        secs: 1_767_223_800,
        nanos: 0,
        offset: 0,
    };
    let there = LocalTime {
        offset: 3600,
        ..evening
    };
    let body = json("null");
    assert_eq!(
        local.record(evening, "/", &body).unwrap().file,
        "logs/local-2025-12-31.log"
    );
    assert_eq!(
        local.record(there, "/", &body).unwrap().file,
        "logs/local-2026-01-01.log"
    );
}

#[test]
fn a_time_that_has_no_date_is_not_recorded() {
    let local = LocalLog::new(Vec::new());
    let body = json("null");
    let far = LocalTime {
        secs: i64::MAX,
        nanos: 0,
        offset: 0,
    };
    let shifted = LocalTime {
        secs: 0,
        nanos: 0,
        offset: 86_400,
    };
    assert!(local.record(far, "/", &body).is_none());
    assert!(local.record(shifted, "/", &body).is_none());
}

#[test]
fn the_last_ordinary_second_still_has_four_digits() {
    let local = LocalLog::new(Vec::new());
    let last = LocalTime {
        secs: 253_402_214_399,
        nanos: 999_999_999,
        offset: 86_399,
    };
    let first = LocalTime {
        secs: 0,
        nanos: 0,
        offset: -86_399,
    };
    let body = json("null");
    assert_eq!(
        local.record(last, "/", &body).unwrap().file,
        "logs/local-9999-12-31.log"
    );
    assert_eq!(
        local.record(first, "/", &body).unwrap().file,
        "logs/local-1969-12-31.log"
    );
}

#[test]
fn file_names_hold_the_day() {
    assert_eq!(log_file("2026-02-03"), "logs/local-2026-02-03.log");
}
