use logs_gateway::config::Config;
use logs_gateway::failed_log::FailedLog;
use logs_gateway::intake::{admitted, diverted, recorded, route, Admission, Queued, Route};
use logs_gateway::local::LocalLog;
use logs_gateway::retry::RetryMsg;
use serde_json::Value;

fn routed(path: &str) -> Route {
    let cfg = Config::from_lookup(|name| match name {
        "EXTERNAL_URL_BASE" => Some("https://p/".to_string()),
        "LOCAL_LOG_PATHS" => Some("/api/audit".to_string()),
        "EXTERNAL_AUTH_URL" | "EXTERNAL_EMAIL" | "EXTERNAL_PASSWORD" => Some("x".to_string()),
        _ => None,
    })
    .unwrap();
    let local = LocalLog::new(cfg.local_log_paths.clone());
    route(&cfg, &local, path)
}

#[test]
fn listed_paths_are_recorded() {
    assert!(matches!(routed("/api/audit"), Route::Record));
    assert_eq!(recorded(true), 202);
    assert_eq!(recorded(false), 500);
}

#[test]
fn other_paths_are_forwarded_to_the_panel() {
    match routed("/api/audit/") {
        Route::Forward { url } => assert_eq!(url, "https://p/api/audit/"),
        Route::Record => panic!("not forwarded"),
    }
}

#[test]
fn the_live_queue_decides_on_the_answer() {
    assert!(matches!(
        admitted(Queued::Accepted),
        Admission::Answer { code: 202 }
    ));
    assert!(matches!(
        admitted(Queued::Closed),
        Admission::Answer { code: 503 }
    ));
}

#[test]
fn a_full_queue_diverts_the_log() {
    match admitted(Queued::Full(("u".to_string(), Value::from(5)))) {
        Admission::Divert {
            msg: RetryMsg::Failed(log),
        } => assert_eq!(
            log,
            FailedLog {
                url: "u".to_string(),
                body: Value::from(5)
            }
        ),
        Admission::Answer { .. } => panic!("not diverted"),
    }
    assert_eq!(diverted(true), 202);
    assert_eq!(diverted(false), 503);
}
