//! Runtime configuration.
//!
//! The settings come from variables that are looked up by name. All problems
//! are collected and reported together, so a half-configured gateway never
//! starts.

use std::time::Duration;

use vstd::prelude::*;
use vstd::string::*;

use crate::text::{join_strings, parse_number, push_decimal, debug_quoted, split_fields, starts_with};
use crate::text::{without_leading, without_trailing};

verus! {

/// The duration of a whole number of seconds.
pub uninterp spec fn seconds(n: u64) -> Duration;

/// `Duration::from_secs` depends on the number of seconds alone, and gives no
/// two numbers of seconds the same duration.
pub assume_specification[ Duration::from_secs ](secs: u64) -> (d: Duration)
    ensures
        d == seconds(secs),
        forall|other: u64| #[trigger] seconds(other) == d ==> other == secs,
;

#[derive(Debug)]
pub struct Config {
    /// Base URL of the panel. The original request path (`/api/...`) is
    /// appended to it unchanged.
    pub external_url_base: String,
    /// Login endpoint that returns `{ "token": "..." }`.
    pub external_auth_url: String,
    pub external_email: String,
    pub external_password: String,
    pub port: u16,
    pub retry_interval: Duration,
    pub token_refresh: Duration,
    pub max_inflight: usize,
    /// Request paths recorded locally instead of being forwarded.
    pub local_log_paths: Vec<String>,
}

impl Clone for Config {
    fn clone(&self) -> (copy: Self)
        ensures
            copy.external_url_base@ == self.external_url_base@,
            copy.external_auth_url@ == self.external_auth_url@,
            copy.external_email@ == self.external_email@,
            copy.external_password@ == self.external_password@,
            copy.port == self.port,
            copy.retry_interval == self.retry_interval,
            copy.token_refresh == self.token_refresh,
            copy.max_inflight == self.max_inflight,
            copy.local_log_paths@ == self.local_log_paths@,
    {
        let local_log_paths = self.local_log_paths.clone();
        assert(local_log_paths@ =~= self.local_log_paths@);
        Self {
            external_url_base: self.external_url_base.clone(),
            external_auth_url: self.external_auth_url.clone(),
            external_email: self.external_email.clone(),
            external_password: self.external_password.clone(),
            port: self.port,
            retry_interval: self.retry_interval,
            token_refresh: self.token_refresh,
            max_inflight: self.max_inflight,
            local_log_paths,
        }
    }
}

/// The values of the variables that the configuration is made of, `None`
/// where a variable is not set.
pub struct Variables {
    pub external_url_base: Option<String>,
    pub external_auth_url: Option<String>,
    pub external_email: Option<String>,
    pub external_password: Option<String>,
    pub port: Option<String>,
    pub retry_interval_secs: Option<String>,
    pub token_refresh_secs: Option<String>,
    pub max_inflight: Option<String>,
    pub local_log_paths: Option<String>,
}

// ---- what the variables mean ---------------------------------------------

/// The trimmed value of a variable; a blank value counts as not set.
pub open spec fn setting(value: Option<String>) -> Option<Seq<char>> {
    match value {
        Some(text) => crate::text::field(text@),
        None => None,
    }
}

/// The problem with a required variable: it is not set.
pub open spec fn required_errors(name: Seq<char>, value: Option<String>) -> Seq<Seq<char>> {
    if setting(value) is Some {
        Seq::empty()
    } else {
        seq![name + " is required"@]
    }
}

/// The number that an optional variable gives; the default where it is not
/// set or not a number.
pub open spec fn number_or(value: Option<String>, default: u64) -> u64 {
    match setting(value) {
        Some(text) => match crate::text::number(text) {
            Some(n) => n,
            None => default,
        },
        None => default,
    }
}

/// The problem with an optional variable: it is set and not a number.
pub open spec fn number_errors(name: Seq<char>, value: Option<String>) -> Seq<Seq<char>> {
    match setting(value) {
        Some(text) => if crate::text::number(text) is Some {
            Seq::empty()
        } else {
            seq![name + ": expected a number, got "@ + crate::text::debug_text(value->0@)]
        },
        None => Seq::empty(),
    }
}

/// The items of a comma-separated list.
pub open spec fn listed(value: Option<String>) -> Seq<Seq<char>> {
    match value {
        Some(text) => crate::text::fields(text@, ','),
        None => Seq::empty(),
    }
}

/// The problem with a request path: it does not start with a slash.
pub open spec fn path_error(path: Seq<char>) -> Option<Seq<char>> {
    if path.len() > 0 && path[0] == '/' {
        None
    } else {
        Some("LOCAL_LOG_PATHS: "@ + crate::text::debug_text(path) + " must start with '/'"@)
    }
}

/// The problems with the request paths, in their order.
pub open spec fn path_errors(paths: Seq<Seq<char>>) -> Seq<Seq<char>> {
    paths.filter_map(|path: Seq<char>| path_error(path))
}

/// The problems with numbers that are out of range.
pub open spec fn range_errors(port: u64, max_inflight: u64, retry: u64, refresh: u64) -> Seq<
    Seq<char>,
> {
    (if port > u16::MAX {
        seq!["PORT: "@ + crate::text::decimal(port as nat) + " is out of range"@]
    } else {
        Seq::empty()
    }) + (if max_inflight == 0 {
        seq!["MAX_INFLIGHT must be at least 1"@]
    } else {
        Seq::empty()
    }) + (if retry == 0 || refresh == 0 {
        seq!["RETRY_INTERVAL_SECS and TOKEN_REFRESH_SECS must be at least 1"@]
    } else {
        Seq::empty()
    })
}

impl Variables {
    pub open spec fn port_number(self) -> u64 {
        number_or(self.port, 3000)
    }

    pub open spec fn retry_number(self) -> u64 {
        number_or(self.retry_interval_secs, 30)
    }

    pub open spec fn refresh_number(self) -> u64 {
        number_or(self.token_refresh_secs, 1800)
    }

    pub open spec fn inflight_number(self) -> u64 {
        number_or(self.max_inflight, 64)
    }

    /// The problems with the required variables.
    pub open spec fn missing(self) -> Seq<Seq<char>> {
        required_errors("EXTERNAL_URL_BASE"@, self.external_url_base)
            + required_errors("EXTERNAL_AUTH_URL"@, self.external_auth_url)
            + required_errors("EXTERNAL_EMAIL"@, self.external_email)
            + required_errors("EXTERNAL_PASSWORD"@, self.external_password)
    }

    /// The problems with the variables that hold numbers.
    pub open spec fn malformed(self) -> Seq<Seq<char>> {
        number_errors("PORT"@, self.port)
            + number_errors("RETRY_INTERVAL_SECS"@, self.retry_interval_secs)
            + number_errors("TOKEN_REFRESH_SECS"@, self.token_refresh_secs)
            + number_errors("MAX_INFLIGHT"@, self.max_inflight)
    }

    /// The numbers that are out of range.
    pub open spec fn out_of_range(self) -> Seq<Seq<char>> {
        range_errors(
            self.port_number(),
            self.inflight_number(),
            self.retry_number(),
            self.refresh_number(),
        )
    }

    /// Everything that is wrong with the variables, in the order in which it
    /// is reported.
    pub open spec fn errors(self) -> Seq<Seq<char>> {
        self.missing() + self.malformed() + path_errors(listed(self.local_log_paths))
            + self.out_of_range()
    }

    /// `cfg` is the configuration that the variables describe.
    pub open spec fn describe(self, cfg: Config) -> bool {
        &&& setting(self.external_url_base) == Some(cfg.external_url_base@)
        &&& setting(self.external_auth_url) == Some(cfg.external_auth_url@)
        &&& setting(self.external_email) == Some(cfg.external_email@)
        &&& setting(self.external_password) == Some(cfg.external_password@)
        &&& cfg.port == self.port_number()
        &&& cfg.retry_interval == seconds(self.retry_number())
        &&& cfg.token_refresh == seconds(self.refresh_number())
        &&& cfg.max_inflight == self.inflight_number() as usize
        &&& crate::text::views(cfg.local_log_paths@) == listed(self.local_log_paths)
    }

    /// `result` is what the variables lead to: the configuration that they
    /// describe, or one line for each thing that is wrong with them.
    pub open spec fn lead_to(self, result: Result<Config, String>) -> bool {
        match result {
            Ok(cfg) => self.errors().len() == 0 && self.describe(cfg),
            Err(report) => self.errors().len() > 0 && report@ == crate::text::join(
                self.errors(),
                "\n"@,
            ),
        }
    }
}

// ---- reading the variables -----------------------------------------------

fn push_error(errors: &mut Vec<String>, error: String)
    ensures
        crate::text::views(final(errors)@) == crate::text::views(old(errors)@) + seq![error@],
{
    errors.push(error);
    assert(crate::text::views(errors@) =~= crate::text::views(old(errors)@) + seq![error@]);
}

/// The trimmed value of a variable, unless it is blank or not set.
fn read_setting(value: &Option<String>) -> (r: Option<String>)
    ensures
        (match r {
            Some(text) => setting(*value) == Some(text@),
            None => setting(*value) is None,
        }),
{
    match value {
        Some(text) => {
            let trimmed = text.trim();
            if trimmed.is_empty() {
                None
            } else {
                Some(trimmed.to_string())
            }
        },
        None => None,
    }
}

/// The value of a required variable. Where it is not set, that is added to
/// the problems.
fn required(name: &str, value: &Option<String>, errors: &mut Vec<String>) -> (r: String)
    ensures
        setting(*value) matches Some(text) ==> r@ == text,
        crate::text::views(final(errors)@) == crate::text::views(old(errors)@) + required_errors(
            name@,
            *value,
        ),
{
    match read_setting(value) {
        Some(text) => {
            assert(crate::text::views(errors@) + Seq::<Seq<char>>::empty()
                =~= crate::text::views(errors@));
            text
        },
        None => {
            push_error(errors, name.to_string().concat(" is required"));
            String::new()
        },
    }
}

/// The number in an optional variable. Where it is set and not a number, that
/// is added to the problems.
fn optional(name: &str, value: &Option<String>, default: u64, errors: &mut Vec<String>) -> (r: u64)
    ensures
        r == number_or(*value, default),
        crate::text::views(final(errors)@) == crate::text::views(old(errors)@) + number_errors(
            name@,
            *value,
        ),
{
    assert(crate::text::views(errors@) + Seq::<Seq<char>>::empty()
        =~= crate::text::views(errors@));
    match (value, read_setting(value)) {
        (Some(raw), Some(text)) => match parse_number(&text) {
            Some(n) => n,
            None => {
                let error = name.to_string().concat(": expected a number, got ");
                push_error(errors, error.concat(&debug_quoted(raw)));
                default
            },
        },
        _ => default,
    }
}

/// Adds the problems with the request paths to the others.
fn check_paths(paths: &Vec<String>, errors: &mut Vec<String>)
    ensures
        crate::text::views(final(errors)@) == crate::text::views(old(errors)@) + path_errors(
            crate::text::views(paths@),
        ),
{
    let ghost all = crate::text::views(paths@);
    let ghost before = crate::text::views(errors@);
    let mut i: usize = 0;
    assert(path_errors(all.take(0)) =~= Seq::<Seq<char>>::empty());
    assert(before + path_errors(all.take(0)) =~= before);
    while i < paths.len()
        invariant
            i <= paths.len(),
            all == crate::text::views(paths@),
            crate::text::views(errors@) == before + path_errors(all.take(i as int)),
        decreases paths.len() - i,
    {
        let path = paths[i].as_str();
        assert(all.take(i + 1).drop_last() == all.take(i as int));
        assert(all.take(i + 1).last() == path@);
        if !starts_with(path, '/') {
            let error = "LOCAL_LOG_PATHS: ".to_string().concat(&debug_quoted(path));
            push_error(errors, error.concat(" must start with '/'"));
        }
        assert(crate::text::views(errors@) =~= before + path_errors(all.take(i + 1)));
        i += 1;
    }
    assert(all.take(i as int) == all);
}

/// Adds the numbers that are out of range to the problems.
fn check_numbers(port: u64, max_inflight: u64, retry: u64, refresh: u64, errors: &mut Vec<String>)
    ensures
        crate::text::views(final(errors)@) == crate::text::views(old(errors)@) + range_errors(
            port,
            max_inflight,
            retry,
            refresh,
        ),
{
    if port > u16::MAX as u64 {
        let mut error = "PORT: ".to_string();
        push_decimal(&mut error, port);
        push_error(errors, error.concat(" is out of range"));
    }
    if max_inflight == 0 {
        push_error(errors, "MAX_INFLIGHT must be at least 1".to_string());
    }
    if retry == 0 || refresh == 0 {
        push_error(
            errors,
            "RETRY_INTERVAL_SECS and TOKEN_REFRESH_SECS must be at least 1".to_string(),
        );
    }
    assert(crate::text::views(errors@) =~= crate::text::views(old(errors)@) + range_errors(
        port,
        max_inflight,
        retry,
        refresh,
    ));
}

/// The values of the required variables: base URL, login URL, e-mail and
/// password. The problems with them are the first that are found.
fn read_required(vars: &Variables, errors: &mut Vec<String>) -> (r: (String, String, String, String))
    requires
        old(errors)@.len() == 0,
    ensures
        setting(vars.external_url_base) matches Some(text) ==> r.0@ == text,
        setting(vars.external_auth_url) matches Some(text) ==> r.1@ == text,
        setting(vars.external_email) matches Some(text) ==> r.2@ == text,
        setting(vars.external_password) matches Some(text) ==> r.3@ == text,
        crate::text::views(final(errors)@) == vars.missing(),
{
    assert(crate::text::views(errors@) =~= Seq::<Seq<char>>::empty());
    let url_base = required("EXTERNAL_URL_BASE", &vars.external_url_base, errors);
    assert(crate::text::views(errors@) =~= required_errors(
        "EXTERNAL_URL_BASE"@,
        vars.external_url_base,
    ));
    let auth_url = required("EXTERNAL_AUTH_URL", &vars.external_auth_url, errors);
    let email = required("EXTERNAL_EMAIL", &vars.external_email, errors);
    let password = required("EXTERNAL_PASSWORD", &vars.external_password, errors);
    (url_base, auth_url, email, password)
}

/// The numbers in the optional variables: port, retry interval, token refresh
/// and forwards in flight. The problems with them are added to the others.
fn read_numbers(vars: &Variables, errors: &mut Vec<String>) -> (r: (u64, u64, u64, u64))
    ensures
        r.0 == vars.port_number(),
        r.1 == vars.retry_number(),
        r.2 == vars.refresh_number(),
        r.3 == vars.inflight_number(),
        crate::text::views(final(errors)@) == crate::text::views(old(errors)@) + vars.malformed(),
{
    let port: u64 = optional("PORT", &vars.port, 3000, errors);
    let retry: u64 = optional("RETRY_INTERVAL_SECS", &vars.retry_interval_secs, 30, errors);
    let refresh: u64 = optional("TOKEN_REFRESH_SECS", &vars.token_refresh_secs, 1800, errors);
    let inflight: u64 = optional("MAX_INFLIGHT", &vars.max_inflight, 64, errors);
    assert(crate::text::views(errors@) =~= crate::text::views(old(errors)@) + vars.malformed());
    (port, retry, refresh, inflight)
}

/// `value` is an answer that `get` may give when it is asked for `name`.
pub open spec fn answers<F: Fn(&str) -> Option<String>>(
    get: F,
    name: Seq<char>,
    value: Option<String>,
) -> bool {
    exists|asked: &str| asked@ == name && #[trigger] call_ensures(get, (asked,), value)
}

/// Each of the variables is what `get` answered when it was asked for it.
pub open spec fn looked_up<F: Fn(&str) -> Option<String>>(get: F, vars: Variables) -> bool {
    &&& answers(get, "EXTERNAL_URL_BASE"@, vars.external_url_base)
    &&& answers(get, "EXTERNAL_AUTH_URL"@, vars.external_auth_url)
    &&& answers(get, "EXTERNAL_EMAIL"@, vars.external_email)
    &&& answers(get, "EXTERNAL_PASSWORD"@, vars.external_password)
    &&& answers(get, "PORT"@, vars.port)
    &&& answers(get, "RETRY_INTERVAL_SECS"@, vars.retry_interval_secs)
    &&& answers(get, "TOKEN_REFRESH_SECS"@, vars.token_refresh_secs)
    &&& answers(get, "MAX_INFLIGHT"@, vars.max_inflight)
    &&& answers(get, "LOCAL_LOG_PATHS"@, vars.local_log_paths)
}

impl Config {
    /// Builds the config from any lookup function, so it can be tested
    /// without touching the process environment.
    pub fn from_lookup(get: impl Fn(&str) -> Option<String>) -> (result: Result<Self, String>)
        requires
            forall|name: &str| #[trigger] call_requires(get, (name,)),
        ensures
            exists|vars: Variables| #[trigger] looked_up(get, vars) && vars.lead_to(result),
    {
        let vars = Variables {
            external_url_base: get("EXTERNAL_URL_BASE"),
            external_auth_url: get("EXTERNAL_AUTH_URL"),
            external_email: get("EXTERNAL_EMAIL"),
            external_password: get("EXTERNAL_PASSWORD"),
            port: get("PORT"),
            retry_interval_secs: get("RETRY_INTERVAL_SECS"),
            token_refresh_secs: get("TOKEN_REFRESH_SECS"),
            max_inflight: get("MAX_INFLIGHT"),
            local_log_paths: get("LOCAL_LOG_PATHS"),
        };
        assert(looked_up(get, vars));
        Self::from_variables(vars)
    }

    /// Builds the config from the values of the variables.
    pub fn from_variables(vars: Variables) -> (result: Result<Self, String>)
        ensures
            vars.lead_to(result),
    {
        let mut errors: Vec<String> = Vec::new();
        let (external_url_base, external_auth_url, external_email, external_password) =
            read_required(&vars, &mut errors);
        let (port, retry_interval, token_refresh, max_inflight) = read_numbers(&vars, &mut errors);

        let local_log_paths = match &vars.local_log_paths {
            Some(list) => split_fields(list, ','),
            None => Vec::new(),
        };
        assert(crate::text::views(local_log_paths@) =~= listed(vars.local_log_paths));
        check_paths(&local_log_paths, &mut errors);
        check_numbers(port, max_inflight, retry_interval, token_refresh, &mut errors);
        assert(crate::text::views(errors@) == vars.errors());

        if !errors.is_empty() {
            return Err(join_strings(&errors, "\n"));
        }
        Ok(
            Self {
                external_url_base,
                external_auth_url,
                external_email,
                external_password,
                port: port as u16,
                retry_interval: Duration::from_secs(retry_interval),
                token_refresh: Duration::from_secs(token_refresh),
                max_inflight: max_inflight as usize,
                local_log_paths,
            },
        )
    }

    /// The URL that a request path is forwarded to.
    pub open spec fn url(self, path: Seq<char>) -> Seq<char> {
        crate::text::trim_end_char(self.external_url_base@, '/') + "/"@
            + crate::text::trim_start_char(path, '/')
    }

    /// Joins the panel base URL with an incoming request path.
    /// `https://panel.example.ro/` + `/api/x/store` -> `https://panel.example.ro/api/x/store`
    pub fn target_url(&self, path: &str) -> (url: String)
        ensures
            url@ == self.url(path@),
    {
        let base = without_trailing(&self.external_url_base, '/');
        base.concat("/").concat(&without_leading(path, '/'))
    }
}

// ---- what the configuration promises -------------------------------------

/// Whatever is wrong with the variables is in the report: nothing hides
/// behind something else.
pub proof fn law_report_names_every_problem(vars: Variables, report: String, i: int)
    requires
        vars.lead_to(Err(report)),
        0 <= i < vars.errors().len(),
    ensures
        crate::text::contains_text(report@, vars.errors()[i]),
{
    crate::text::law_join_contains_every_part(vars.errors(), "\n"@, i);
}

/// A required variable that is missing or blank is reported by its name, and
/// no configuration comes of it.
pub proof fn law_missing_variables_are_reported(vars: Variables, result: Result<Config, String>)
    requires
        vars.lead_to(result),
    ensures
        setting(vars.external_url_base) is None ==> result is Err && crate::text::contains_text(
            result->Err_0@,
            "EXTERNAL_URL_BASE"@ + " is required"@,
        ),
        setting(vars.external_auth_url) is None ==> result is Err && crate::text::contains_text(
            result->Err_0@,
            "EXTERNAL_AUTH_URL"@ + " is required"@,
        ),
        setting(vars.external_email) is None ==> result is Err && crate::text::contains_text(
            result->Err_0@,
            "EXTERNAL_EMAIL"@ + " is required"@,
        ),
        setting(vars.external_password) is None ==> result is Err && crate::text::contains_text(
            result->Err_0@,
            "EXTERNAL_PASSWORD"@ + " is required"@,
        ),
{
    let base = required_errors("EXTERNAL_URL_BASE"@, vars.external_url_base);
    let auth = required_errors("EXTERNAL_AUTH_URL"@, vars.external_auth_url);
    let email = required_errors("EXTERNAL_EMAIL"@, vars.external_email);
    let password = required_errors("EXTERNAL_PASSWORD"@, vars.external_password);
    let later = vars.malformed() + path_errors(listed(vars.local_log_paths)) + vars.out_of_range();
    assert(vars.errors() =~= base + auth + email + password + later);
    let after_base = base.len() as int;
    let after_auth = after_base + auth.len();
    let after_email = after_auth + email.len();
    if setting(vars.external_url_base) is None {
        assert(vars.errors()[0] == base[0]);
        law_report_names_every_problem(vars, result->Err_0, 0);
    }
    if setting(vars.external_auth_url) is None {
        assert(vars.errors()[after_base] == auth[0]);
        law_report_names_every_problem(vars, result->Err_0, after_base);
    }
    if setting(vars.external_email) is None {
        assert(vars.errors()[after_auth] == email[0]);
        law_report_names_every_problem(vars, result->Err_0, after_auth);
    }
    if setting(vars.external_password) is None {
        assert(vars.errors()[after_email] == password[0]);
        law_report_names_every_problem(vars, result->Err_0, after_email);
    }
}

proof fn lemma_no_path_errors(paths: Seq<Seq<char>>)
    requires
        path_errors(paths).len() == 0,
    ensures
        forall|i: int| 0 <= i < paths.len() ==> path_error(#[trigger] paths[i]) is None,
    decreases paths.len(),
{
    if paths.len() > 0 {
        lemma_no_path_errors(paths.drop_last());
        assert forall|i: int| 0 <= i < paths.len() implies path_error(#[trigger] paths[i]) is None by {
            if i < paths.len() - 1 {
                assert(paths.drop_last()[i] == paths[i]);
            }
        }
    }
}

/// A gateway that starts is fully configured: nothing required is empty, the
/// intervals and the number of forwards in flight are positive, and every
/// local path starts with a slash. (The number of forwards is stated for
/// values that the machine's word holds.)
pub proof fn law_accepted_configuration_is_complete(vars: Variables, cfg: Config)
    requires
        vars.lead_to(Ok(cfg)),
    ensures
        cfg.external_url_base@.len() > 0,
        cfg.external_auth_url@.len() > 0,
        cfg.external_email@.len() > 0,
        cfg.external_password@.len() > 0,
        exists|n: u64| n >= 1 && cfg.retry_interval == #[trigger] seconds(n),
        exists|n: u64| n >= 1 && cfg.token_refresh == #[trigger] seconds(n),
        vars.inflight_number() <= usize::MAX ==> cfg.max_inflight >= 1,
        forall|i: int|
            0 <= i < cfg.local_log_paths@.len() ==> (#[trigger] cfg.local_log_paths@[i])@.len() > 0
                && cfg.local_log_paths@[i]@[0] == '/',
{
    assert(vars.out_of_range().len() == 0);
    assert(path_errors(listed(vars.local_log_paths)).len() == 0);
    lemma_no_path_errors(listed(vars.local_log_paths));
    assert forall|i: int| 0 <= i < cfg.local_log_paths@.len() implies (
    #[trigger] cfg.local_log_paths@[i])@.len() > 0 && cfg.local_log_paths@[i]@[0] == '/' by {
        let path = listed(vars.local_log_paths)[i];
        assert(crate::text::views(cfg.local_log_paths@)[i] == path);
        assert(path_error(path) is None);
    }
}

/// Where the required variables are set and the optional ones are not, the
/// configuration is accepted, with the defaults.
pub proof fn law_defaults_apply(vars: Variables, result: Result<Config, String>)
    requires
        vars.lead_to(result),
        setting(vars.external_url_base) is Some,
        setting(vars.external_auth_url) is Some,
        setting(vars.external_email) is Some,
        setting(vars.external_password) is Some,
        setting(vars.port) is None,
        setting(vars.retry_interval_secs) is None,
        setting(vars.token_refresh_secs) is None,
        setting(vars.max_inflight) is None,
        vars.local_log_paths is None,
    ensures
        result is Ok,
        result->Ok_0.port == 3000,
        result->Ok_0.retry_interval == seconds(30),
        result->Ok_0.token_refresh == seconds(1800),
        result->Ok_0.max_inflight == 64,
        result->Ok_0.local_log_paths@.len() == 0,
{
    assert(vars.errors() =~= Seq::<Seq<char>>::empty());
    assert(crate::text::views(result->Ok_0.local_log_paths@).len() == 0);
}

proof fn lemma_trim_end_char(s: Seq<char>, c: char)
    ensures
        crate::text::trim_end_char(s, c).len() > 0 ==> crate::text::trim_end_char(s, c).last() != c,
    decreases s.len(),
{
    if s.len() > 0 && s.last() == c {
        lemma_trim_end_char(s.drop_last(), c);
    }
}

proof fn lemma_trim_start_char(s: Seq<char>, c: char)
    ensures
        crate::text::trim_start_char(s, c).len() > 0 ==> crate::text::trim_start_char(s, c)[0] != c,
    decreases s.len(),
{
    if s.len() > 0 && s[0] == c {
        lemma_trim_start_char(s.drop_first(), c);
    }
}

/// Base URL and path meet in exactly one slash.
pub proof fn law_urls_join_in_one_slash(cfg: Config, path: Seq<char>)
    ensures
        exists|base: Seq<char>, rest: Seq<char>| #[trigger] (base + "/"@ + rest) == cfg.url(path)
            && (base.len() > 0 ==> base.last() != '/') && (rest.len() > 0 ==> rest[0] != '/'),
{
    let base = crate::text::trim_end_char(cfg.external_url_base@, '/');
    let rest = crate::text::trim_start_char(path, '/');
    lemma_trim_end_char(cfg.external_url_base@, '/');
    lemma_trim_start_char(path, '/');
    assert(base + "/"@ + rest == cfg.url(path));
}

/// A request path that starts with one slash is appended to the base URL
/// unchanged.
pub proof fn law_request_path_is_preserved(cfg: Config, path: Seq<char>)
    requires
        path.len() > 0 && path[0] == '/',
        path.len() > 1 ==> path[1] != '/',
    ensures
        cfg.url(path) == crate::text::trim_end_char(cfg.external_url_base@, '/') + path,
{
    reveal_strlit("/");
    let rest = path.drop_first();
    assert(crate::text::trim_start_char(rest, '/') == rest);
    assert("/"@ + rest =~= path);
    assert(crate::text::trim_end_char(cfg.external_url_base@, '/') + "/"@ + rest
        =~= crate::text::trim_end_char(cfg.external_url_base@, '/') + ("/"@ + rest));
}

/// As many slashes.
pub open spec fn slashes(n: nat) -> Seq<char> {
    Seq::new(n, |i: int| '/')
}

proof fn lemma_trim_end_slashes(s: Seq<char>, n: nat)
    ensures
        crate::text::trim_end_char(s + slashes(n), '/') == crate::text::trim_end_char(s, '/'),
    decreases n,
{
    if n == 0 {
        assert(s + slashes(n) =~= s);
    } else {
        lemma_trim_end_slashes(s, (n - 1) as nat);
        assert((s + slashes(n)).drop_last() =~= s + slashes((n - 1) as nat));
    }
}

proof fn lemma_trim_start_slashes(s: Seq<char>, n: nat)
    ensures
        crate::text::trim_start_char(slashes(n) + s, '/') == crate::text::trim_start_char(s, '/'),
    decreases n,
{
    if n == 0 {
        assert(slashes(n) + s =~= s);
    } else {
        lemma_trim_start_slashes(s, (n - 1) as nat);
        assert((slashes(n) + s).drop_first() =~= slashes((n - 1) as nat) + s);
    }
}

/// It does not matter how many slashes stand behind the base URL, nor how many
/// stand in front of the path.
pub proof fn law_slashes_at_the_joint_do_not_matter(
    cfg: Config,
    other: Config,
    path: Seq<char>,
    behind: nat,
    before: nat,
)
    requires
        other.external_url_base@ == cfg.external_url_base@ + slashes(behind),
    ensures
        other.url(slashes(before) + path) == cfg.url(path),
{
    lemma_trim_end_slashes(cfg.external_url_base@, behind);
    lemma_trim_start_slashes(path, before);
}

// ---- what each variable does ----------------------------------------------

/// The required settings are the values of their variables, without the white
/// space around them and otherwise as they are.
pub proof fn law_required_settings_are_used_as_they_are(vars: Variables, cfg: Config)
    requires
        vars.lead_to(Ok(cfg)),
    ensures
        vars.external_url_base is Some && cfg.external_url_base@ == crate::text::trim(
            vars.external_url_base->0@,
        ),
        vars.external_auth_url is Some && cfg.external_auth_url@ == crate::text::trim(
            vars.external_auth_url->0@,
        ),
        vars.external_email is Some && cfg.external_email@ == crate::text::trim(
            vars.external_email->0@,
        ),
        vars.external_password is Some && cfg.external_password@ == crate::text::trim(
            vars.external_password->0@,
        ),
{
}

/// A number that is set is the number that is used: where a variable holds a
/// number, white space around it apart, and the configuration is accepted, the
/// setting is that number.
pub proof fn law_numbers_that_are_set_are_used(vars: Variables, cfg: Config, text: String, n: u64)
    requires
        vars.lead_to(Ok(cfg)),
        crate::text::number(crate::text::trim(text@)) == Some(n),
    ensures
        vars.port == Some(text) ==> cfg.port == n,
        vars.retry_interval_secs == Some(text) ==> cfg.retry_interval == seconds(n),
        vars.token_refresh_secs == Some(text) ==> cfg.token_refresh == seconds(n),
        vars.max_inflight == Some(text) && n <= usize::MAX ==> cfg.max_inflight == n,
{
    let trimmed = crate::text::trim(text@);
    if trimmed.len() == 0 {
        assert(trimmed =~= Seq::empty());
        crate::text::law_other_texts_are_no_numbers(seq!['x'], 0);
    }
}

/// The same of the decimal digits: a variable that is set to the digits of a
/// number, with white space before or behind, gives that number.
pub proof fn law_digits_that_are_set_are_used(
    vars: Variables,
    cfg: Config,
    text: String,
    n: u64,
    before: Seq<char>,
    behind: Seq<char>,
)
    requires
        vars.lead_to(Ok(cfg)),
        text@ == before + crate::text::decimal(n as nat) + behind,
        forall|i: int| 0 <= i < before.len() ==> crate::text::is_space(#[trigger] before[i]),
        forall|i: int| 0 <= i < behind.len() ==> crate::text::is_space(#[trigger] behind[i]),
    ensures
        vars.port == Some(text) ==> cfg.port == n,
        vars.retry_interval_secs == Some(text) ==> cfg.retry_interval == seconds(n),
        vars.token_refresh_secs == Some(text) ==> cfg.token_refresh == seconds(n),
        vars.max_inflight == Some(text) && n <= usize::MAX ==> cfg.max_inflight == n,
{
    let digits = crate::text::decimal(n as nat);
    crate::text::law_decimal_digit_by_digit(n as nat, 0);
    assert(crate::text::is_digit(digits[0]));
    assert(crate::text::is_digit(digits[digits.len() - 1]));
    crate::text::law_trimmed_text_is_left(before, digits, behind);
    crate::text::law_printed_number_is_read_back(n);
    law_numbers_that_are_set_are_used(vars, cfg, text, n);
}

/// A variable for a number that is not set, or blank, gives the default,
/// whatever the other variables hold.
pub proof fn law_unset_numbers_have_defaults(vars: Variables, cfg: Config)
    requires
        vars.lead_to(Ok(cfg)),
    ensures
        vars.port is None || crate::text::trim(vars.port->0@).len() == 0 ==> cfg.port == 3000,
        vars.retry_interval_secs is None || crate::text::trim(vars.retry_interval_secs->0@).len()
            == 0 ==> cfg.retry_interval == seconds(30),
        vars.token_refresh_secs is None || crate::text::trim(vars.token_refresh_secs->0@).len() == 0
            ==> cfg.token_refresh == seconds(1800),
        vars.max_inflight is None || crate::text::trim(vars.max_inflight->0@).len() == 0
            ==> cfg.max_inflight == 64,
{
}

/// The local paths are the items of their list, all of them and in order.
pub proof fn law_local_paths_are_those_listed(vars: Variables, cfg: Config)
    requires
        vars.lead_to(Ok(cfg)),
    ensures
        vars.local_log_paths is None ==> cfg.local_log_paths@.len() == 0,
        vars.local_log_paths matches Some(list) ==> cfg.local_log_paths@.len()
            == crate::text::fields(list@, ',').len(),
        vars.local_log_paths matches Some(list) ==> forall|i: int|
            0 <= i < cfg.local_log_paths@.len() ==> (#[trigger] cfg.local_log_paths@[i])@
                == crate::text::fields(list@, ',')[i],
{
    let views = crate::text::views(cfg.local_log_paths@);
    assert(views.len() == cfg.local_log_paths@.len());
    assert forall|i: int| 0 <= i < cfg.local_log_paths@.len() implies (
    #[trigger] cfg.local_log_paths@[i])@ == listed(vars.local_log_paths)[i] by {
        assert(views[i] == cfg.local_log_paths@[i]@);
    }
}

/// Whether a value counts as set: it is there and not blank.
pub open spec fn is_set(value: Option<String>) -> bool {
    value is Some && crate::text::trim(value->0@).len() > 0
}

/// Whether a variable holds what a number may be: nothing, or a number in this
/// range.
pub open spec fn in_range(value: Option<String>, least: u64, most: u64) -> bool {
    is_set(value) ==> {
        &&& crate::text::number(crate::text::trim(value->0@)) is Some
        &&& least <= crate::text::number(crate::text::trim(value->0@))->0 <= most
    }
}

proof fn lemma_good_paths(paths: Seq<Seq<char>>)
    requires
        forall|i: int| 0 <= i < paths.len() ==> (#[trigger] paths[i]).len() > 0 && paths[i][0] == '/',
    ensures
        path_errors(paths).len() == 0,
    decreases paths.len(),
{
    if paths.len() > 0 {
        let rest = paths.drop_last();
        assert forall|i: int| 0 <= i < rest.len() implies (#[trigger] rest[i]).len() > 0
            && rest[i][0] == '/' by {
            assert(rest[i] == paths[i]);
        }
        lemma_good_paths(rest);
        assert(path_error(paths[paths.len() - 1]) is None);
    }
}

/// A configuration with nothing wrong is accepted: the required variables are
/// set, each number that is set is a number in its range, and each local path
/// starts with a slash. Nothing else is refused.
pub proof fn law_what_is_right_is_accepted(vars: Variables, result: Result<Config, String>)
    requires
        vars.lead_to(result),
        is_set(vars.external_url_base),
        is_set(vars.external_auth_url),
        is_set(vars.external_email),
        is_set(vars.external_password),
        in_range(vars.port, 0, 65535),
        in_range(vars.retry_interval_secs, 1, u64::MAX),
        in_range(vars.token_refresh_secs, 1, u64::MAX),
        in_range(vars.max_inflight, 1, u64::MAX),
        vars.local_log_paths matches Some(list) ==> forall|i: int|
            0 <= i < crate::text::fields(list@, ',').len() ==> (#[trigger] crate::text::fields(
                list@,
                ',',
            )[i]).len() > 0 && crate::text::fields(list@, ',')[i][0] == '/',
    ensures
        result is Ok,
{
    lemma_good_paths(listed(vars.local_log_paths));
    assert(vars.missing() =~= Seq::<Seq<char>>::empty());
    assert(vars.malformed() =~= Seq::<Seq<char>>::empty());
    assert(vars.out_of_range() =~= Seq::<Seq<char>>::empty());
    assert(vars.errors().len() == 0);
}

/// A configuration is accepted only with nothing wrong.
pub proof fn law_what_is_wrong_is_refused(vars: Variables, cfg: Config)
    requires
        vars.lead_to(Ok(cfg)),
    ensures
        is_set(vars.external_url_base),
        is_set(vars.external_auth_url),
        is_set(vars.external_email),
        is_set(vars.external_password),
        in_range(vars.port, 0, 65535),
        in_range(vars.retry_interval_secs, 1, u64::MAX),
        in_range(vars.token_refresh_secs, 1, u64::MAX),
        in_range(vars.max_inflight, 1, u64::MAX),
        vars.local_log_paths matches Some(list) ==> forall|i: int|
            0 <= i < crate::text::fields(list@, ',').len() ==> (#[trigger] crate::text::fields(
                list@,
                ',',
            )[i]).len() > 0 && crate::text::fields(list@, ',')[i][0] == '/',
{
    assert(vars.missing().len() == 0);
    assert(vars.malformed().len() == 0);
    assert(vars.out_of_range().len() == 0);
    assert(path_errors(listed(vars.local_log_paths)).len() == 0);
    lemma_no_path_errors(listed(vars.local_log_paths));
    if let Some(list) = vars.local_log_paths {
        assert forall|i: int| 0 <= i < crate::text::fields(list@, ',').len() implies (
        #[trigger] crate::text::fields(list@, ',')[i]).len() > 0 && crate::text::fields(
            list@,
            ',',
        )[i][0] == '/' by {
            assert(path_error(listed(vars.local_log_paths)[i]) is None);
        }
    }
}

proof fn lemma_path_errors_in_order(paths: Seq<Seq<char>>)
    ensures
        path_errors(paths) == paths.filter(
            |path: Seq<char>| !(path.len() > 0 && path[0] == '/'),
        ).map_values(
            |path: Seq<char>|
                "LOCAL_LOG_PATHS: "@ + crate::text::debug_text(path) + " must start with '/'"@,
        ),
    decreases paths.len(),
{
    let wrong = |path: Seq<char>| !(path.len() > 0 && path[0] == '/');
    let told = |path: Seq<char>|
        "LOCAL_LOG_PATHS: "@ + crate::text::debug_text(path) + " must start with '/'"@;
    reveal(Seq::filter);
    if paths.len() == 0 {
        assert(path_errors(paths) =~= Seq::empty());
        assert(paths.filter(wrong).map_values(told) =~= Seq::empty());
    } else {
        lemma_path_errors_in_order(paths.drop_last());
        let rest = paths.drop_last().filter(wrong);
        assert(path_errors(paths.drop_last()) == rest.map_values(told));
        assert(rest.push(paths.last()).map_values(told) =~= rest.map_values(told).push(
            told(paths.last()),
        ));
        if wrong(paths.last()) {
            assert(paths.filter(wrong) == rest.push(paths.last()));
            assert(path_errors(paths) =~= rest.map_values(told).push(told(paths.last())));
        } else {
            assert(paths.filter(wrong) == rest);
            assert(path_errors(paths) =~= rest.map_values(told));
        }
    }
}

/// The report in full, line by line: every required variable that is not set,
/// then every number that cannot be read, then every local path without its
/// slash, then every number that is out of range. Nothing is left out, and
/// nothing that is in order is reported.
#[verifier::rlimit(50)]
pub proof fn law_report_in_full(vars: Variables, report: String)
    requires
        vars.lead_to(Err(report)),
    ensures
        ({
            let none = Seq::<Seq<char>>::empty();
            let unread = |value: Option<String>|
                is_set(value) && crate::text::number(crate::text::trim(value->0@)) is None;
            let given = |value: Option<String>, default: u64|
                if is_set(value) && !unread(value) {
                    crate::text::number(crate::text::trim(value->0@))->0
                } else {
                    default
                };
            let got = |name: Seq<char>, value: Option<String>|
                if unread(value) {
                    seq![name + ": expected a number, got "@ + crate::text::debug_text(value->0@)]
                } else {
                    none
                };
            let needed = |name: Seq<char>, value: Option<String>|
                if is_set(value) {
                    none
                } else {
                    seq![name + " is required"@]
                };
            let paths = match vars.local_log_paths {
                Some(list) => crate::text::fields(list@, ','),
                None => none,
            };
            let port = given(vars.port, 3000);
            report@ == crate::text::join(
                needed("EXTERNAL_URL_BASE"@, vars.external_url_base) + needed(
                    "EXTERNAL_AUTH_URL"@,
                    vars.external_auth_url,
                ) + needed("EXTERNAL_EMAIL"@, vars.external_email) + needed(
                    "EXTERNAL_PASSWORD"@,
                    vars.external_password,
                ) + (got("PORT"@, vars.port) + got(
                    "RETRY_INTERVAL_SECS"@,
                    vars.retry_interval_secs,
                ) + got("TOKEN_REFRESH_SECS"@, vars.token_refresh_secs) + got(
                    "MAX_INFLIGHT"@,
                    vars.max_inflight,
                )) + paths.filter(
                    |path: Seq<char>| !(path.len() > 0 && path[0] == '/'),
                ).map_values(
                    |path: Seq<char>|
                        "LOCAL_LOG_PATHS: "@ + crate::text::debug_text(path)
                            + " must start with '/'"@,
                ) + ((if port > 65535 {
                    seq!["PORT: "@ + crate::text::decimal(port as nat) + " is out of range"@]
                } else {
                    none
                }) + (if given(vars.max_inflight, 64) == 0 {
                    seq!["MAX_INFLIGHT must be at least 1"@]
                } else {
                    none
                }) + (if given(vars.retry_interval_secs, 30) == 0 || given(
                    vars.token_refresh_secs,
                    1800,
                ) == 0 {
                    seq!["RETRY_INTERVAL_SECS and TOKEN_REFRESH_SECS must be at least 1"@]
                } else {
                    none
                })),
                "\n"@,
            )
        }),
{
    let none = Seq::<Seq<char>>::empty();
    let unread = |value: Option<String>|
        is_set(value) && crate::text::number(crate::text::trim(value->0@)) is None;
    let given = |value: Option<String>, default: u64|
        if is_set(value) && !unread(value) {
            crate::text::number(crate::text::trim(value->0@))->0
        } else {
            default
        };
    let got = |name: Seq<char>, value: Option<String>|
        if unread(value) {
            seq![name + ": expected a number, got "@ + crate::text::debug_text(value->0@)]
        } else {
            none
        };
    let needed = |name: Seq<char>, value: Option<String>|
        if is_set(value) {
            none
        } else {
            seq![name + " is required"@]
        };
    lemma_path_errors_in_order(listed(vars.local_log_paths));
    assert forall|name: Seq<char>, value: Option<String>| #[trigger]
        needed(name, value) == required_errors(name, value) by {}
    assert forall|name: Seq<char>, value: Option<String>| #[trigger]
        got(name, value) == number_errors(name, value) by {}
    assert forall|value: Option<String>, default: u64| #[trigger]
        given(value, default) == number_or(value, default) by {}
    assert(vars.missing() == needed("EXTERNAL_URL_BASE"@, vars.external_url_base) + needed(
        "EXTERNAL_AUTH_URL"@,
        vars.external_auth_url,
    ) + needed("EXTERNAL_EMAIL"@, vars.external_email) + needed(
        "EXTERNAL_PASSWORD"@,
        vars.external_password,
    ));
    assert(vars.malformed() == got("PORT"@, vars.port) + got(
        "RETRY_INTERVAL_SECS"@,
        vars.retry_interval_secs,
    ) + got("TOKEN_REFRESH_SECS"@, vars.token_refresh_secs) + got(
        "MAX_INFLIGHT"@,
        vars.max_inflight,
    ));
}

/// The variables are looked up by their names: where the answers depend on the
/// name alone, each variable is the answer for its own name.
pub proof fn law_variables_are_looked_up_by_name<F: Fn(&str) -> Option<String>>(
    get: F,
    vars: Variables,
    answer: spec_fn(Seq<char>) -> Option<String>,
)
    requires
        looked_up(get, vars),
        forall|name: &str, value: Option<String>| #[trigger]
            call_ensures(get, (name,), value) ==> value == answer(name@),
    ensures
        vars.external_url_base == answer("EXTERNAL_URL_BASE"@),
        vars.external_auth_url == answer("EXTERNAL_AUTH_URL"@),
        vars.external_email == answer("EXTERNAL_EMAIL"@),
        vars.external_password == answer("EXTERNAL_PASSWORD"@),
        vars.port == answer("PORT"@),
        vars.retry_interval_secs == answer("RETRY_INTERVAL_SECS"@),
        vars.token_refresh_secs == answer("TOKEN_REFRESH_SECS"@),
        vars.max_inflight == answer("MAX_INFLIGHT"@),
        vars.local_log_paths == answer("LOCAL_LOG_PATHS"@),
{
}

/// The URL that a path is forwarded to, told from its parts: what stands
/// before the slashes at the end of the base, one slash, and what stands
/// behind the slashes at the start of the path; both are kept as they are,
/// whatever their length.
pub proof fn law_url_is_base_slash_path(
    cfg: Config,
    base: Seq<char>,
    path: Seq<char>,
    behind: nat,
    before: nat,
)
    requires
        cfg.external_url_base@ == base + Seq::new(behind, |i: int| '/'),
        base.len() > 0 ==> base.last() != '/',
        path.len() > 0 ==> path[0] != '/',
    ensures
        cfg.url(Seq::new(before, |i: int| '/') + path) == base + seq!['/'] + path,
{
    reveal_strlit("/");
    assert("/"@ =~= seq!['/']);
    assert(Seq::new(behind, |i: int| '/') =~= slashes(behind));
    assert(Seq::new(before, |i: int| '/') =~= slashes(before));
    lemma_trim_end_slashes(base, behind);
    lemma_trim_start_slashes(path, before);
}

}
