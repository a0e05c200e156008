use logs_gateway::auth::{
    authorization, login_token, response_token, Backoff, LoginError, LoginStep, Refresh, Refresher,
    Waited, Wake,
};
use logs_gateway::status::Status;
use serde_json::Value;

fn login(code: u16, body: &str) -> Result<String, LoginError> {
    login_token(Status::new(code).unwrap(), body.as_bytes())
}

fn json(text: &str) -> Value {
    serde_json::from_str(text).unwrap()
}

#[test]
fn a_login_gives_the_header_value() {
    assert_eq!(
        login(200, "{\"token\": \"abc\", \"id\": 1}").unwrap(),
        "Bearer abc"
    );
    assert_eq!(authorization(""), "Bearer ");
}

#[test]
fn a_login_without_a_token_gives_nothing() {
    assert_eq!(
        login(401, "{\"token\":\"abc\"}"),
        Err(LoginError::Rejected(Status::new(401).unwrap()))
    );
    assert_eq!(login(200, "not json"), Err(LoginError::NotJson));
    for body in vec!["{\"tokens\":\"abc\"}", "{\"token\":12}", "[\"token\"]"] {
        assert_eq!(login(200, body), Err(LoginError::NoToken));
    }
}

#[test]
fn the_token_is_the_string_under_its_key() {
    assert_eq!(
        response_token(&json("{\"token\":\"a\\\"b\"}")).unwrap(),
        "Bearer a\"b"
    );
    assert!(response_token(&json("\"token\"")).is_none());
}

#[test]
fn the_backoff_doubles_up_to_a_minute() {
    let mut backoff = Backoff::start();
    let mut delays = Vec::new();
    for _ in 0..9 {
        match backoff.attempted(None) {
            LoginStep::Sleep(secs) => delays.push(secs),
            LoginStep::Acquired(_) => panic!("there was no token"),
        }
    }
    assert_eq!(delays, vec![1, 2, 4, 8, 16, 32, 60, 60, 60]);
}

#[test]
fn a_token_ends_the_backoff() {
    let mut backoff = Backoff::start();
    match backoff.attempted(Some("t".to_string())) {
        LoginStep::Acquired(token) => assert_eq!(token, "t"),
        LoginStep::Sleep(_) => panic!("there was a token"),
    }
}

#[test]
fn a_token_that_changed_already_is_used_at_once() {
    let refresh = Refresh::start("new".to_string(), &"old".to_string());
    assert!(matches!(&refresh, Refresh::Ready { .. }));
    assert_eq!(refresh.token().unwrap(), "new");
}

#[test]
fn an_unchanged_token_is_waited_for() {
    let changed = Refresh::start("t".to_string(), &"t".to_string());
    assert!(matches!(&changed, Refresh::Wait));
    assert_eq!(
        changed
            .waited(Waited::Changed("n".to_string()))
            .token()
            .unwrap(),
        "n"
    );
    for waited in vec![Waited::TimedOut, Waited::Closed] {
        let missed = Refresh::start("t".to_string(), &"t".to_string()).waited(waited);
        assert!(missed.token().is_none());
    }
}

#[test]
fn the_refresher_logs_in_on_timer_and_on_request() {
    for wake in vec![Wake::Timer, Wake::Request] {
        let state = Refresher::Idle.woken(wake);
        assert!(matches!(&state, Refresher::LogIn));
        match state.logged_in(Some("t".to_string())).taken(false) {
            Refresher::Publish { token } => assert_eq!(token, "t"),
            _ => panic!("the token is not published"),
        }
    }
    assert!(matches!(
        Refresher::Idle.woken(Wake::Closed),
        Refresher::Stopped
    ));
}

#[test]
fn a_failed_login_is_tried_again() {
    let state = Refresher::LogIn.logged_in(None);
    assert!(matches!(&state, Refresher::Idle));
    assert!(matches!(state.woken(Wake::Timer), Refresher::LogIn));
}

#[test]
fn the_refresher_stops_when_nobody_listens() {
    let publish = || Refresher::LogIn.logged_in(Some("t".to_string())).taken(false);
    assert!(matches!(publish().published(true), Refresher::Idle));
    assert!(matches!(publish().published(false), Refresher::Stopped));
}

#[test]
fn requests_that_queued_up_during_a_login_are_dropped() {
    let mut state = Refresher::LogIn.logged_in(Some("t".to_string()));
    for dropped in vec![true, true, true] {
        state = state.taken(dropped);
        assert!(matches!(&state, Refresher::Drain { .. }));
    }
    match state.taken(false) {
        Refresher::Publish { token } => assert_eq!(token, "t"),
        _ => panic!("the token is not published"),
    }
}

#[test]
fn a_login_starts_only_from_waiting() {
    let waiting_for_nothing = || Refresher::Publish { token: "t".to_string() };
    for wake in vec![Wake::Timer, Wake::Request] {
        assert!(matches!(
            waiting_for_nothing().woken(wake),
            Refresher::Publish { .. }
        ));
    }
    assert!(matches!(
        Refresher::Stopped.woken(Wake::Request),
        Refresher::Stopped
    ));
    assert!(matches!(Refresher::Idle.taken(true), Refresher::Idle));
}
