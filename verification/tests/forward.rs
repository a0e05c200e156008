use logs_gateway::failed_log::FailedLog;
use logs_gateway::forward::{
    after_delivery, classify, portion, Delivery, Dispatch, Outcome, Reply,
};
use logs_gateway::retry::RetryMsg;
use logs_gateway::status::Status;
use serde_json::Value;

fn status(code: u16) -> Status {
    Status::new(code).unwrap()
}

fn answered(code: u16) -> Outcome {
    classify(Reply::Answered(status(code)))
}

fn outcome(delivery: Delivery) -> Option<String> {
    match delivery {
        Delivery::Finished { outcome } => Some(outcome.describe()),
        _ => None,
    }
}

#[test]
fn status_codes_have_three_digits() {
    assert!(Status::new(99).is_none());
    assert!(Status::new(1000).is_none());
    assert_eq!(status(100).code(), 100);
    assert_eq!(status(999).text(), "999 <unknown status code>");
    assert!(status(200).is_success());
    assert!(status(299).is_success());
    assert!(!status(199).is_success());
    assert!(!status(300).is_success());
}

#[test]
fn replies_are_classified() {
    assert!(answered(200).is_sent());
    assert!(answered(204).is_sent());
    assert!(matches!(answered(401), Outcome::Unauthorized));
    match answered(422) {
        Outcome::Rejected(status) => assert_eq!(status.code(), 422),
        _ => panic!("not rejected"),
    }
    assert!(matches!(answered(302), Outcome::Rejected(_)));
    assert!(matches!(
        classify(Reply::Failed("refused".to_string())),
        Outcome::Unreachable(e) if e == "refused"
    ));
}

#[test]
fn outcomes_are_described() {
    assert_eq!(Outcome::Sent.describe(), "sent");
    assert_eq!(
        Outcome::Unauthorized.describe(),
        "401 even after a token refresh"
    );
    assert_eq!(
        Outcome::Rejected(status(422)).describe(),
        "HTTP 422 Unprocessable Entity"
    );
    assert_eq!(
        Outcome::Unreachable("timeout".to_string()).describe(),
        "unreachable: timeout"
    );
    assert!(!Outcome::Unauthorized.is_sent());
}

#[test]
fn the_first_answer_decides_unless_the_token_is_rejected() {
    let sent = Delivery::start("t".to_string()).sent(Outcome::Sent);
    assert_eq!(outcome(sent).unwrap(), "sent");
    let down = Delivery::start("t".to_string()).sent(Outcome::Unreachable("x".to_string()));
    assert_eq!(outcome(down).unwrap(), "unreachable: x");
}

#[test]
fn a_rejected_token_is_refreshed_once() {
    let rejected = Delivery::start("old".to_string()).sent(Outcome::Unauthorized);
    match &rejected {
        Delivery::Refresh { stale } => assert_eq!(stale, "old"),
        _ => panic!("no refresh"),
    }
    let second = rejected.refreshed(Some("new".to_string()));
    match &second {
        Delivery::Second { token } => assert_eq!(token, "new"),
        _ => panic!("no second request"),
    }
    assert_eq!(
        outcome(second.sent(Outcome::Unauthorized)).unwrap(),
        "401 even after a token refresh"
    );
}

#[test]
fn without_a_newer_token_the_log_is_unauthorized() {
    let delivery = Delivery::start("old".to_string())
        .sent(Outcome::Unauthorized)
        .refreshed(None);
    assert_eq!(
        outcome(delivery).unwrap(),
        "401 even after a token refresh"
    );
}

#[test]
fn what_was_not_sent_is_handed_to_the_retry_queue() {
    let body = Value::from("b");
    assert!(after_delivery(&Outcome::Sent, "u".to_string(), body.clone()).is_none());
    match after_delivery(&Outcome::Unauthorized, "u".to_string(), body.clone()) {
        Some(RetryMsg::Failed(log)) => assert_eq!(
            log,
            FailedLog {
                url: "u".to_string(),
                body
            }
        ),
        None => panic!("the log is lost"),
    }
}

#[test]
fn every_log_of_the_live_queue_gets_a_task() {
    let message = ("u".to_string(), Value::from(7));
    let acquire = Dispatch::Receive.received(Some(message.clone()), 64);
    assert!(matches!(&acquire, Dispatch::Acquire { .. }));
    let (spawned, next) = acquire.permitted().spawned();
    assert_eq!(spawned, Some(message));
    assert!(matches!(next, Dispatch::Receive));
}

#[test]
fn a_closed_queue_is_drained() {
    let drain = Dispatch::Receive.received(None, 64);
    match &drain {
        Dispatch::Drain { permits } => assert_eq!(*permits, 64),
        _ => panic!("not draining"),
    }
    let (spawned, done) = drain.permitted().spawned();
    assert!(spawned.is_none());
    assert!(matches!(done, Dispatch::Done));
}

#[test]
fn a_large_number_of_permits_is_waited_for_in_portions() {
    let max_inflight = usize::try_from(8_589_934_595u64).unwrap();
    let mut state = Dispatch::Receive.received(None, max_inflight);
    let mut portions = Vec::new();
    while let Dispatch::Drain { permits } = state {
        portions.push(portion(permits));
        state = Dispatch::Drain { permits }.permitted();
    }
    assert!(matches!(state, Dispatch::Done));
    assert_eq!(portions, vec![u32::MAX, u32::MAX, 5]);

    let exactly = usize::try_from(4_294_967_296u64).unwrap();
    match Dispatch::Receive.received(None, exactly) {
        Dispatch::Drain { permits } => assert_eq!(permits, exactly),
        _ => panic!("not draining"),
    }
    assert_eq!(portion(u32::MAX as usize), u32::MAX);
    assert_eq!(portion(0), 0);
}
