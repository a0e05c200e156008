use logs_gateway::failed_log::{
    append, compact, from_legacy, from_records, is_torn, load, parse, Compaction, FailedLog,
    FileRead,
};
use serde_json::Value;

fn json(text: &str) -> Value {
    serde_json::from_str(text).unwrap()
}

fn log(url: &str, body: &str) -> FailedLog {
    FailedLog {
        url: url.to_string(),
        body: json(body),
    }
}

fn decode(line: &str) -> Option<FailedLog> {
    let record: Value = serde_json::from_str(line).ok()?;
    Some(FailedLog {
        url: record.get("url")?.as_str()?.to_string(),
        body: record.get("body")?.clone(),
    })
}

#[test]
fn parses_ndjson_and_skips_corrupt_lines() {
    let contents = [
        r#"{"url":"https://p/api/a/store","body":{"k":1}}"#,
        "\n",
        "\n",
        r#"{"url":"https://p/api/b/store","body":{"k":2}}"#,
        "\n",
        r#"{"url":"https://p/api/c/store","bo"#, // torn last line after a crash
    ]
    .concat();
    let loaded = parse(&contents, decode);
    assert!(!loaded.legacy);
    assert_eq!(loaded.skipped, 1);
    assert_eq!(loaded.logs.len(), 2);
    assert_eq!(loaded.logs[1].body, json("{ \"k\": 2 }"));
}

#[test]
fn migrates_legacy_array_format() {
    let contents = r#"[
  [ { "k": 1 }, "https://p/api/a/store" ],
  [ { "k": 2 }, "https://p/api/b/store" ]
]"#;
    let loaded = parse(contents, decode);
    assert!(loaded.legacy);
    assert_eq!(
        loaded.logs,
        vec![
            FailedLog {
                url: "https://p/api/a/store".into(),
                body: json("{ \"k\": 1 }")
            },
            FailedLog {
                url: "https://p/api/b/store".into(),
                body: json("{ \"k\": 2 }")
            },
        ]
    );
}

#[test]
fn empty_file_is_empty_queue() {
    let loaded = parse("", decode);
    assert!(!loaded.legacy);
    assert!(loaded.logs.is_empty());
    assert_eq!(loaded.skipped, 0);
}

#[test]
fn a_legacy_file_that_is_not_valid_counts_once() {
    let loaded = parse(" \n[1, 2", decode);
    assert!(loaded.legacy);
    assert!(loaded.logs.is_empty());
    assert_eq!(loaded.skipped, 1);
    assert!(loaded.unread);
    assert_eq!(from_legacy(None).skipped, 1);
    assert!(!parse("[]", decode).unread);
}

#[test]
fn legacy_pairs_hold_the_body_first() {
    let loaded = from_legacy(Some(vec![(json("true"), "u".to_string())]));
    assert_eq!(loaded.logs, vec![log("u", "true")]);
    assert!(loaded.legacy);
    assert_eq!(loaded.skipped, 0);
}

#[test]
fn line_ends_and_indentation_do_not_matter() {
    let contents = "\t{\"url\":\"a\",\"body\":1}\r\n   \r\n{\"url\":\"b\",\"body\":2}  \nx\n";
    let loaded = parse(contents, decode);
    assert_eq!(loaded.logs, vec![log("a", "1"), log("b", "2")]);
    assert_eq!(loaded.skipped, 1);
}

#[test]
fn an_array_on_a_later_line_is_not_legacy() {
    let loaded = parse("{\"url\":\"a\",\"body\":1}\n[]\n", decode);
    assert!(!loaded.legacy);
    assert_eq!(loaded.logs.len(), 1);
    assert_eq!(loaded.skipped, 1);
}

#[test]
fn records_keep_their_order() {
    let loaded = from_records(
        vec![None, Some(log("b", "2")), None, Some(log("a", "1"))],
        false,
    );
    assert_eq!(loaded.logs, vec![log("b", "2"), log("a", "1")]);
    assert_eq!(loaded.skipped, 2);
}

#[test]
fn a_log_is_appended_as_one_line() {
    let text = append(&log("https://p/\"x\"\n", "{\"b\": \"\\u0007 \\n\", \"a\": [1, 2]}"), false);
    assert_eq!(
        text,
        "{\"url\":\"https://p/\\\"x\\\"\\n\",\"body\":{\"a\":[1,2],\"b\":\"\\u0007 \\n\"}}\n"
    );
}

#[test]
fn an_empty_queue_removes_the_file() {
    assert!(matches!(compact(&Vec::new(), false), Compaction::Remove));
}

#[test]
fn a_compacted_file_is_read_back() {
    let queue = vec![
        log("https://p/a", "{\"k\":\"line\\nfeed\"}"),
        log("[not an array]", "[1,[2,[3]]]"),
        log("https://p/a", "{\"k\":\"line\\nfeed\"}"),
        log("", "\"\u{2028} \u{85}\""),
    ];
    match compact(&queue, false) {
        Compaction::Rewrite(text) => {
            assert_eq!(text.matches('\n').count(), 4);
            let loaded = parse(&text, decode);
            assert_eq!(loaded.logs, queue);
            assert!(!loaded.legacy);
            assert_eq!(loaded.skipped, 0);
        }
        _ => panic!("the queue is not empty"),
    }
}

#[test]
fn an_appended_log_is_read_back_last() {
    let mut contents = String::from("{\"url\":\"a\",\"body\":1}\ncorrupt\n");
    contents.push_str(&append(&log("b", "2"), false));
    let loaded = parse(&contents, decode);
    assert_eq!(loaded.logs, vec![log("a", "1"), log("b", "2")]);
    assert_eq!(loaded.skipped, 1);
}

#[test]
fn a_torn_last_line_costs_that_line_alone() {
    let whole = append(&log("b", "{\"k\":2}"), false);
    for cut in 1..whole.len() - 1 {
        let contents = format!("{}{}", append(&log("a", "1"), false), &whole[..cut]);
        let loaded = parse(&contents, decode);
        assert_eq!(loaded.logs, vec![log("a", "1")]);
        assert_eq!(loaded.skipped, 1);
        assert!(loaded.torn);
    }
}

#[test]
fn a_log_behind_a_torn_line_gets_a_line_of_its_own() {
    assert_eq!(
        append(&log("u", "1"), true),
        "\n{\"url\":\"u\",\"body\":1}\n"
    );
    let whole = append(&log("b", "{\"k\":2}"), false);
    for cut in 1..whole.len() - 1 {
        let mut contents = format!("{}{}", append(&log("a", "1"), false), &whole[..cut]);
        let torn = parse(&contents, decode).torn;
        contents.push_str(&append(&log("c", "3"), torn));
        let loaded = parse(&contents, decode);
        assert_eq!(loaded.logs, vec![log("a", "1"), log("c", "3")]);
        assert_eq!(loaded.skipped, 1);
        assert!(!loaded.torn);
    }
}

#[test]
fn only_a_last_line_without_an_end_is_torn() {
    for contents in vec!["", "\n", "x\n", "x\r\n", "x\n \t\r", " ", "[[1,\"a\"]]", "[1"] {
        assert!(!parse(contents, decode).torn);
        assert!(!is_torn(contents));
    }
    for contents in vec!["x", "x\n y ", "\u{e9}", "{\"url\":\"a\",\"body\":1}"] {
        assert!(parse(contents, decode).torn);
        assert!(is_torn(contents));
    }
}

#[test]
fn a_log_behind_blanks_is_read_back() {
    let mut contents = String::from("{\"url\":\"a\",\"body\":1}\n \t");
    let text = append(&log("b", "2"), is_torn(&contents));
    assert_eq!(text, "{\"url\":\"b\",\"body\":2}\n");
    contents.push_str(&text);
    let loaded = parse(&contents, decode);
    assert_eq!(loaded.logs, vec![log("a", "1"), log("b", "2")]);
    assert_eq!(loaded.skipped, 0);
}

#[test]
fn an_append_that_is_cut_anywhere_costs_that_log_alone() {
    for before in vec!["", "{\"url\":\"a\",\"body\":1}\n", "{\"url\":\"a\",\"body\":1}", "{\"ur"] {
        let held = parse(before, decode).logs;
        let text = append(&log("b", "{\"k\":2}"), is_torn(before));
        for cut in 0..text.len() + 1 {
            let logs = parse(&format!("{before}{}", &text[..cut]), decode).logs;
            assert_eq!(logs[..held.len()], held[..]);
            assert_eq!(logs.len() - held.len(), (cut + 1 >= text.len()) as usize);
        }
    }
}

#[test]
fn strings_are_escaped_as_json_has_it() {
    let mut url = String::new();
    for code in 0u8..0x20 {
        url.push(code as char);
    }
    url.push_str("\"\\/'\u{7f}\u{85}\u{2028}\u{1f600}");
    assert_eq!(
        append(&log(&url, "null"), false),
        [
            "{\"url\":\"\\u0000\\u0001\\u0002\\u0003\\u0004\\u0005\\u0006\\u0007",
            "\\b\\t\\n\\u000b\\f\\r\\u000e\\u000f",
            "\\u0010\\u0011\\u0012\\u0013\\u0014\\u0015\\u0016\\u0017",
            "\\u0018\\u0019\\u001a\\u001b\\u001c\\u001d\\u001e\\u001f",
            "\\\"\\\\/'\u{7f}\u{85}\u{2028}\u{1f600}\",\"body\":null}\n",
        ]
        .concat()
    );
}

#[test]
fn a_file_that_was_not_read_is_never_removed_or_overwritten() {
    assert!(matches!(compact(&Vec::new(), true), Compaction::Keep));
    match compact(&vec![log("a", "1")], true) {
        Compaction::SetAside(text) => assert_eq!(text, append(&log("a", "1"), false)),
        _ => panic!("the text of the file is lost"),
    }
}

#[test]
fn a_cloned_log_is_the_same() {
    let original = log("https://p/a", "{\"k\":[1,null]}");
    assert_eq!(original.clone(), original);
}

#[test]
fn a_migrated_file_holds_the_same_logs() {
    let loaded = parse("[[{\"k\":1},\"a\"],[2,\"b\"]]", decode);
    match compact(&loaded.logs, false) {
        Compaction::Rewrite(text) => {
            let again = parse(&text, decode);
            assert!(!again.legacy);
            assert_eq!(again.logs, loaded.logs);
        }
        _ => panic!("the queue is not empty"),
    }
}

#[test]
fn without_a_readable_file_nothing_is_loaded() {
    for (read, unread) in vec![(FileRead::Missing, false), (FileRead::Unreadable, true)] {
        let loaded = load(read, decode);
        assert_eq!(loaded.unread, unread);
        assert!(loaded.logs.is_empty());
        assert!(!loaded.legacy);
        assert_eq!(loaded.skipped, 0);
    }
    let loaded = load(
        FileRead::Contents("{\"url\":\"a\",\"body\":1}".to_string()),
        decode,
    );
    assert_eq!(loaded.logs, vec![log("a", "1")]);
}

#[test]
fn a_deeply_nested_body_is_read_back() {
    let body = format!("{}\"\\u0000 \\\"x\\\"\"{}", "[".repeat(100), "]".repeat(100));
    let queue = vec![log("a", &body), log("b", "{\"n\":-9223372036854775808}")];
    match compact(&queue, false) {
        Compaction::Rewrite(text) => {
            let loaded = parse(&text, decode);
            assert_eq!(loaded.logs, queue);
            assert_eq!(loaded.skipped, 0);
            assert!(!loaded.torn);
        }
        _ => panic!("the queue is not empty"),
    }
}
