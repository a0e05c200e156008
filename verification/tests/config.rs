use std::collections::HashMap;
use std::time::Duration;

use logs_gateway::config::{Config, Variables};

fn lookup(pairs: &[(&str, &str)]) -> impl Fn(&str) -> Option<String> {
    let map: HashMap<String, String> = pairs
        .iter()
        .map(|(k, v)| (k.to_string(), v.to_string()))
        .collect();
    move |name| map.get(name).cloned()
}

fn minimal() -> Vec<(&'static str, &'static str)> {
    vec![
        ("EXTERNAL_URL_BASE", "https://panel.example.ro/"),
        (
            "EXTERNAL_AUTH_URL",
            "https://panel.example.ro/api/auth/login",
        ),
        ("EXTERNAL_EMAIL", "bot@example.ro"),
        ("EXTERNAL_PASSWORD", "secret"),
    ]
}

fn with(extra: &[(&'static str, &'static str)]) -> Result<Config, String> {
    let mut pairs = minimal();
    pairs.extend_from_slice(extra);
    Config::from_lookup(lookup(&pairs))
}

#[test]
fn defaults_apply_when_optional_vars_are_missing() {
    let cfg = Config::from_lookup(lookup(&minimal())).unwrap();
    assert_eq!(cfg.port, 3000);
    assert_eq!(cfg.retry_interval, Duration::from_secs(30));
    assert_eq!(cfg.token_refresh, Duration::from_secs(1800));
    assert_eq!(cfg.max_inflight, 64);
}

#[test]
fn every_missing_required_var_is_reported() {
    let err = Config::from_lookup(lookup(&[("EXTERNAL_EMAIL", "x")])).unwrap_err();
    assert!(err.contains("EXTERNAL_URL_BASE is required"));
    assert!(err.contains("EXTERNAL_AUTH_URL is required"));
    assert!(err.contains("EXTERNAL_PASSWORD is required"));
    assert!(!err.contains("EXTERNAL_EMAIL"));
}

#[test]
fn invalid_numbers_are_rejected() {
    let mut pairs = minimal();
    pairs.push(("MAX_INFLIGHT", "lots"));
    let err = Config::from_lookup(lookup(&pairs)).unwrap_err();
    assert!(err.contains("MAX_INFLIGHT"));
}

#[test]
fn local_log_paths_are_split_and_validated() {
    let mut pairs = minimal();
    pairs.push((
        "LOCAL_LOG_PATHS",
        " /api/admin-action-log/store, /api/audit/store ,",
    ));
    let cfg = Config::from_lookup(lookup(&pairs)).unwrap();
    assert_eq!(
        cfg.local_log_paths,
        vec!["/api/admin-action-log/store", "/api/audit/store"]
    );

    let mut bad = minimal();
    bad.push(("LOCAL_LOG_PATHS", "api/no-slash"));
    assert!(Config::from_lookup(lookup(&bad))
        .unwrap_err()
        .contains("LOCAL_LOG_PATHS"));
}

#[test]
fn target_url_joins_without_double_slashes() {
    let cfg = Config::from_lookup(lookup(&minimal())).unwrap();
    assert_eq!(
        cfg.target_url("/api/kill-log/store"),
        "https://panel.example.ro/api/kill-log/store"
    );
}

#[test]
fn problems_are_reported_together_and_in_order() {
    let err = Config::from_lookup(lookup(&[
        ("EXTERNAL_AUTH_URL", "u"),
        ("EXTERNAL_EMAIL", " \t "),
        ("PORT", "70000"),
        ("RETRY_INTERVAL_SECS", "0"),
        ("TOKEN_REFRESH_SECS", " 1_0 "),
        ("MAX_INFLIGHT", "0"),
        ("LOCAL_LOG_PATHS", "/ok, a\"b,, /"),
    ]))
    .unwrap_err();
    assert_eq!(
        err,
        "EXTERNAL_URL_BASE is required\n\
         EXTERNAL_EMAIL is required\n\
         EXTERNAL_PASSWORD is required\n\
         TOKEN_REFRESH_SECS: expected a number, got \" 1_0 \"\n\
         LOCAL_LOG_PATHS: \"a\\\"b\" must start with '/'\n\
         PORT: 70000 is out of range\n\
         MAX_INFLIGHT must be at least 1\n\
         RETRY_INTERVAL_SECS and TOKEN_REFRESH_SECS must be at least 1"
    );
}

#[test]
fn values_are_trimmed_and_numbers_are_read() {
    let cfg = with(&[
        ("PORT", " 65535\n"),
        ("RETRY_INTERVAL_SECS", "+5"),
        ("TOKEN_REFRESH_SECS", "0060"),
        ("MAX_INFLIGHT", "1"),
    ])
    .unwrap();
    assert_eq!(cfg.port, 65535);
    assert_eq!(cfg.retry_interval, Duration::from_secs(5));
    assert_eq!(cfg.token_refresh, Duration::from_secs(60));
    assert_eq!(cfg.max_inflight, 1);
    assert_eq!(cfg.external_email, "bot@example.ro");
    assert!(cfg.local_log_paths.is_empty());
}

#[test]
fn unicode_white_space_counts_as_blank() {
    let cfg = with(&[("PORT", "\u{a0}\u{3000}\u{2028}")]).unwrap();
    assert_eq!(cfg.port, 3000);
    let cfg = with(&[("EXTERNAL_PASSWORD", "\u{2003}p w\u{85}")]).unwrap();
    assert_eq!(cfg.external_password, "p w");
}

#[test]
fn numbers_beyond_64_bits_are_no_numbers() {
    assert!(with(&[("MAX_INFLIGHT", "18446744073709551615")]).is_ok());
    assert_eq!(
        with(&[("MAX_INFLIGHT", "18446744073709551616")]).unwrap_err(),
        "MAX_INFLIGHT: expected a number, got \"18446744073709551616\""
    );
    assert_eq!(
        with(&[("PORT", "-1")]).unwrap_err(),
        "PORT: expected a number, got \"-1\""
    );
    assert_eq!(
        with(&[("PORT", "+")]).unwrap_err(),
        "PORT: expected a number, got \"+\""
    );
}

#[test]
fn variables_that_are_not_set_are_none() {
    let vars = Variables {
        external_url_base: Some("b".to_string()),
        external_auth_url: Some("a".to_string()),
        external_email: Some("e".to_string()),
        external_password: None,
        port: None,
        retry_interval_secs: None,
        token_refresh_secs: None,
        max_inflight: None,
        local_log_paths: None,
    };
    assert_eq!(
        Config::from_variables(vars).unwrap_err(),
        "EXTERNAL_PASSWORD is required"
    );
}

#[test]
fn request_paths_are_preserved_and_slashes_collapse_at_the_joint() {
    let cfg = with(&[("EXTERNAL_URL_BASE", "http://p///")]).unwrap();
    assert_eq!(cfg.target_url("/api//x/"), "http://p/api//x/");
    assert_eq!(cfg.target_url("api"), "http://p/api");
    assert_eq!(cfg.target_url("//api"), "http://p/api");
    assert_eq!(cfg.target_url(""), "http://p/");
    let bare = with(&[("EXTERNAL_URL_BASE", "http://p")]).unwrap();
    assert_eq!(bare.target_url("/a"), cfg.target_url("/a"));
    assert_eq!(bare.target_url("a"), cfg.target_url("////a"));
}

#[test]
fn a_cloned_configuration_is_the_same() {
    let cfg = with(&[("LOCAL_LOG_PATHS", "/a,/b")]).unwrap();
    let copy = cfg.clone();
    assert_eq!(copy.external_auth_url, cfg.external_auth_url);
    assert_eq!(copy.retry_interval, cfg.retry_interval);
    assert_eq!(copy.local_log_paths, vec!["/a", "/b"]);
}
