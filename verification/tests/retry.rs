use logs_gateway::failed_log::{load, parse, Compaction, FailedLog, FileRead, Loaded};
use logs_gateway::forward::Outcome;
use logs_gateway::retry::{RetryMsg, RetryQueue};
use logs_gateway::status::Status;
use serde_json::Value;

fn log(url: &str) -> FailedLog {
    FailedLog {
        url: url.to_string(),
        body: Value::from(1),
    }
}

fn restored(urls: &[&str], legacy: bool) -> (RetryQueue, Option<Compaction>) {
    RetryQueue::restore(Loaded {
        logs: urls.iter().map(|url| log(url)).collect(),
        legacy,
        skipped: 0,
        torn: false,
        unread: false,
    })
}

fn lines(urls: &[&str]) -> String {
    urls.iter()
        .map(|url| format!("{{\"url\":\"{url}\",\"body\":1}}\n"))
        .collect()
}

fn text(compaction: Compaction) -> Option<String> {
    match compaction {
        Compaction::Remove => None,
        Compaction::Rewrite(text) => Some(text),
        Compaction::Keep | Compaction::SetAside(_) => panic!("the file was read"),
    }
}

fn decode(line: &str) -> Option<FailedLog> {
    let record: Value = serde_json::from_str(line).ok()?;
    Some(FailedLog {
        url: record.get("url")?.as_str()?.to_string(),
        body: record.get("body")?.clone(),
    })
}

fn rejected() -> Outcome {
    Outcome::Rejected(Status::new(422).unwrap())
}

fn unreachable_panel() -> Outcome {
    Outcome::Unreachable("timeout".to_string())
}

/// The targets that a round attempts and those that it leaves in the queue.
fn round(urls: &[&str], outcomes: Vec<Outcome>) -> (Vec<String>, Option<String>) {
    let (mut queue, _) = restored(urls, false);
    let mut round = queue.tick().unwrap();
    assert_eq!(queue.len(), 0);
    let mut attempts = Vec::new();
    let mut answers = outcomes.into_iter();
    while let Some(next) = round.next() {
        attempts.push(next.url.clone());
        round.attempted(&answers.next().unwrap());
    }
    (attempts, text(queue.round_done(round)))
}

#[test]
fn only_what_was_sent_leaves_the_queue() {
    let (attempts, file) = round(
        &["a", "b", "c", "d"],
        vec![Outcome::Sent, rejected(), Outcome::Sent, Outcome::Unauthorized],
    );
    assert_eq!(attempts, vec!["a", "b", "c", "d"]);
    assert_eq!(file, Some(lines(&["b", "d"])));
}

#[test]
fn an_unreachable_panel_ends_the_round() {
    let (attempts, file) = round(
        &["a", "b", "c", "d"],
        vec![Outcome::Sent, unreachable_panel()],
    );
    assert_eq!(attempts, vec!["a", "b"]);
    assert_eq!(file, Some(lines(&["b", "c", "d"])));
}

#[test]
fn a_round_that_delivers_everything_removes_the_file() {
    let (_, file) = round(&["a", "b"], vec![Outcome::Sent, Outcome::Sent]);
    assert_eq!(file, None);
}

#[test]
fn outcomes_after_the_end_of_a_round_change_nothing() {
    let (mut queue, _) = restored(&["a", "b"], false);
    let mut round = queue.tick().unwrap();
    round.attempted(&unreachable_panel());
    assert!(round.next().is_none());
    round.attempted(&Outcome::Sent);
    assert_eq!(text(queue.round_done(round)), Some(lines(&["a", "b"])));
    assert_eq!(queue.len(), 2);
}

#[test]
fn an_empty_queue_has_no_round() {
    let (mut queue, compaction) = restored(&[], false);
    assert!(compaction.is_none());
    assert!(queue.tick().is_none());
}

#[test]
fn a_legacy_file_is_compacted_at_once() {
    let (queue, compaction) = restored(&["a"], true);
    assert_eq!(queue.len(), 1);
    assert_eq!(compaction.and_then(text), Some(lines(&["a"])));
    let (_, none) = restored(&["a"], false);
    assert!(none.is_none());
}

#[test]
fn appending_and_compacting_write_the_same_file() {
    let (mut queue, _) = restored(&[], false);
    let mut file = String::new();
    file.push_str(&queue.received(RetryMsg::Failed(log("a"))).text);
    file.push_str(&queue.received(RetryMsg::Failed(log("b"))).text);
    assert_eq!(queue.len(), 2);
    assert_eq!(file, lines(&["a", "b"]));
    assert_eq!(text(queue.closed()), Some(file));
}

#[test]
fn a_log_that_fails_after_a_crash_survives_the_next_start() {
    let mut file = format!("{}{{\"url\":\"b\",\"bo", lines(&["a"]));
    let (mut queue, compaction) = RetryQueue::restore(parse(&file, decode));
    assert!(compaction.is_none());
    assert_eq!(queue.len(), 1);
    for url in vec!["c", "d"] {
        let append = queue.received(RetryMsg::Failed(log(url)));
        assert!(!append.set_aside);
        file.push_str(&append.text);
    }
    assert!(file.ends_with(&format!("\"bo\n{}", lines(&["c", "d"]))));

    let again = parse(&file, decode);
    assert_eq!(again.logs, vec![log("a"), log("c"), log("d")]);
    assert_eq!(again.skipped, 1);
    assert_eq!(text(queue.closed()), Some(lines(&["a", "c", "d"])));
}

#[test]
fn a_file_that_was_not_read_is_kept_while_nothing_fails() {
    for read in vec![
        FileRead::Unreadable,
        FileRead::Contents("[[{\"k\":1},\"https://p/a\"], [".to_string()),
    ] {
        let (mut queue, compaction) = RetryQueue::restore(load(read, decode));
        assert!(compaction.is_none());
        assert!(queue.tick().is_none());
        assert!(matches!(queue.closed(), Compaction::Keep));
    }
}

#[test]
fn a_file_that_was_not_read_is_set_aside_before_anything_is_written() {
    let (mut queue, _) = RetryQueue::restore(load(FileRead::Unreadable, decode));
    let append = queue.received(RetryMsg::Failed(log("a")));
    assert!(append.set_aside);
    assert_eq!(append.text, lines(&["a"]));
    match queue.closed() {
        Compaction::SetAside(text) => assert_eq!(text, lines(&["a"])),
        _ => panic!("the text of the file is lost"),
    }
    let mut round = queue.tick().unwrap();
    round.attempted(&rejected());
    match queue.round_done(round) {
        Compaction::SetAside(text) => assert_eq!(text, lines(&["a"])),
        _ => panic!("the text of the file is lost"),
    }
    let mut round = queue.tick().unwrap();
    round.attempted(&Outcome::Sent);
    assert!(matches!(queue.round_done(round), Compaction::Keep));

    queue.was_set_aside();
    assert!(!queue.received(RetryMsg::Failed(log("b"))).set_aside);
    assert_eq!(text(queue.closed()), Some(lines(&["b"])));
}

#[test]
fn after_a_write_that_tore_a_line_the_next_log_starts_a_line() {
    let (mut queue, _) = restored(&[], false);
    queue.received(RetryMsg::Failed(log("a")));
    queue.write_failed(true);
    assert_eq!(
        queue.received(RetryMsg::Failed(log("b"))).text,
        format!("\n{}", lines(&["b"]))
    );
    queue.write_failed(false);
    assert_eq!(
        queue.received(RetryMsg::Failed(log("c"))).text,
        lines(&["c"])
    );
}
