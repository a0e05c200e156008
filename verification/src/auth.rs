//! Bearer token lifecycle.
//!
//! The token is fetched at startup with exponential backoff, refreshed on a
//! timer, and refreshed on demand when the panel answers `401`.

use serde_json::Value;
use vstd::prelude::*;
use vstd::string::*;

use crate::json::{member, read_value};
use crate::status::Status;

verus! {

/// How many seconds a forwarder waits for a refreshed token after a `401`.
pub const REFRESH_WAIT_SECS: u64 = 20;

/// How many seconds pass before the second login attempt.
pub const BACKOFF_START_SECS: u64 = 1;

/// How many seconds pass at most between two login attempts.
pub const BACKOFF_CAP_SECS: u64 = 60;

// ---- the login response --------------------------------------------------

/// The header value for a token.
pub open spec fn bearer(token: Seq<char>) -> Seq<char> {
    "Bearer "@ + token
}

/// A token, formatted as an `Authorization` header value.
pub fn authorization(token: &str) -> (header: String)
    ensures
        header@ == bearer(token@),
        header@ == "Bearer "@ + token@,
        header@.len() == 7 + token@.len(),
        header@.skip(7) == token@,
{
    proof {
        law_header_is_bearer_and_the_token(token@);
    }
    "Bearer ".to_string().concat(token)
}

/// The token in a login response, given by its compact text: the string under
/// the key `token`.
pub open spec fn token_in(response: Seq<char>) -> Option<Seq<char>> {
    match crate::json::member_text(response, "token"@) {
        Some(token) => crate::json::characters(token),
        None => None,
    }
}

/// The header value for the token in a login response, if there is one.
pub fn response_token(response: &Value) -> (header: Option<String>)
    ensures
        (match (header, token_in(crate::json::value_text(*response))) {
            (Some(h), Some(token)) => h@ == bearer(token),
            (None, None) => true,
            _ => false,
        }),
        (match crate::json::member_text(crate::json::value_text(*response), "token"@) {
            Some(found) => match crate::json::characters(found) {
                Some(token) => header is Some && header->0@ == "Bearer "@ + token,
                None => header is None,
            },
            None => header is None,
        }),
{
    match member(response, "token") {
        Some(token) => match token.as_str() {
            Some(text) => Some(authorization(text)),
            None => None,
        },
        None => None,
    }
}

/// Why a login gave no token.
#[derive(Clone, Copy, Debug, PartialEq, Eq)]
pub enum LoginError {
    /// The login endpoint answered with this status.
    Rejected(Status),
    /// The answer was not JSON.
    NotJson,
    /// The answer held no token.
    NoToken,
}

/// The header value for the token that the login endpoint handed out, or why
/// there is none.
pub fn login_token(status: Status, body: &[u8]) -> (r: Result<String, LoginError>)
    ensures
        (match r {
            Ok(header) => {
                &&& 200 <= status@ < 300
                &&& crate::json::value_in(body@) matches Some(response) && token_in(response)
                    matches Some(token) && header@ == bearer(token) && header@ == "Bearer "@ + token
            },
            Err(LoginError::Rejected(s)) => s == status && !(200 <= status@ < 300),
            Err(LoginError::NotJson) => 200 <= status@ < 300 && crate::json::value_in(body@)
                is None,
            Err(LoginError::NoToken) => {
                &&& 200 <= status@ < 300
                &&& crate::json::value_in(body@) matches Some(response) && token_in(response)
                    is None
            },
        }),
{
    if !status.is_success() {
        return Err(LoginError::Rejected(status));
    }
    match read_value(body) {
        Some(response) => match response_token(&response) {
            Some(header) => Ok(header),
            None => Err(LoginError::NoToken),
        },
        None => Err(LoginError::NotJson),
    }
}

// ---- the first login -----------------------------------------------------

/// The waiting times of the first login: after each failure twice as long,
/// up to a cap.
pub struct Backoff {
    delay: u64,
}

/// What to do after a login attempt.
pub enum LoginStep {
    /// The login succeeded with this token.
    Acquired(String),
    /// Sleep for this many seconds, then try again.
    Sleep(u64),
}

impl View for Backoff {
    type V = u64;

    closed spec fn view(&self) -> u64 {
        self.delay
    }
}

/// The waiting time that follows a waiting time.
pub open spec fn doubled(delay: u64) -> u64 {
    if delay * 2 <= BACKOFF_CAP_SECS {
        (delay * 2) as u64
    } else {
        BACKOFF_CAP_SECS
    }
}

/// The waiting time after the failure with this number, counted from 0.
pub open spec fn nth_delay(n: nat) -> u64
    decreases n,
{
    if n == 0 {
        BACKOFF_START_SECS
    } else {
        doubled(nth_delay((n - 1) as nat))
    }
}

impl Backoff {
    #[verifier::type_invariant]
    spec fn in_range(self) -> bool {
        BACKOFF_START_SECS <= self.delay <= BACKOFF_CAP_SECS
    }

    pub fn start() -> (backoff: Backoff)
        ensures
            backoff@ == nth_delay(0),
            backoff@ == 1,
    {
        Backoff { delay: BACKOFF_START_SECS }
    }

    /// A login was attempted; `None` where it gave no token.
    pub fn attempted(&mut self, token: Option<String>) -> (step: LoginStep)
        ensures
            (match token {
                Some(t) => step == LoginStep::Acquired(t) && final(self)@ == old(self)@,
                None => step == LoginStep::Sleep(old(self)@) && final(self)@ == doubled(
                    old(self)@,
                ),
            }),
            BACKOFF_START_SECS <= final(self)@ <= BACKOFF_CAP_SECS,
            token is None ==> final(self)@ == (if old(self)@ <= 30 {
                2 * old(self)@
            } else {
                60
            }),
    {
        proof {
            use_type_invariant(&*self);
        }
        match token {
            Some(token) => LoginStep::Acquired(token),
            None => {
                let delay: u64 = self.delay;
                self.delay = if delay * 2 <= BACKOFF_CAP_SECS {
                    delay * 2
                } else {
                    BACKOFF_CAP_SECS
                };
                LoginStep::Sleep(delay)
            },
        }
    }
}

/// Two to the power of `n`.
pub open spec fn power_of_two(n: nat) -> nat
    decreases n,
{
    if n == 0 {
        1
    } else {
        2 * power_of_two((n - 1) as nat)
    }
}

/// The waiting times grow exponentially, up to the cap: they are 1, 2, 4, 8,
/// 16 and 32 seconds, and 60 seconds from then on.
pub proof fn law_backoff_is_exponential(n: nat)
    ensures
        nth_delay(n) == (if power_of_two(n) <= BACKOFF_CAP_SECS {
            power_of_two(n)
        } else {
            BACKOFF_CAP_SECS as nat
        }),
    decreases n,
{
    if n > 0 {
        law_backoff_is_exponential((n - 1) as nat);
        if n == 6 {
            reveal_with_fuel(power_of_two, 8);
        }
    }
}

// ---- refreshing on demand ------------------------------------------------

/// Where a forwarder stands that asks for a token newer than the one the
/// panel rejected.
pub enum Refresh {
    /// The token has changed already: there is nothing to ask for.
    Ready { token: String },
    /// Ask for a login, and wait for the next token.
    Wait,
    /// No newer token came in time.
    Missed,
}

/// What came of waiting for the next token.
pub enum Waited {
    /// The token was replaced by this one.
    Changed(String),
    /// Whoever publishes tokens is gone.
    Closed,
    /// No token came in time.
    TimedOut,
}

impl Refresh {
    /// Where a forwarder stands that was rejected with the token `stale` when
    /// the latest token is `latest`.
    pub open spec fn compared(latest: String, stale: String) -> Refresh {
        if latest@ != stale@ {
            Refresh::Ready { token: latest }
        } else {
            Refresh::Wait
        }
    }

    /// Compares the latest token with the one that was rejected. If another
    /// forwarder already triggered a refresh and the token has changed, no
    /// further login is asked for.
    pub fn start(latest: String, stale: &String) -> (refresh: Refresh)
        ensures
            refresh == Refresh::compared(latest, *stale),
    {
        if latest != *stale {
            Refresh::Ready { token: latest }
        } else {
            Refresh::Wait
        }
    }

    pub open spec fn after_waited(self, waited: Waited) -> Refresh {
        match self {
            Refresh::Wait => match waited {
                Waited::Changed(token) => Refresh::Ready { token },
                Waited::Closed => Refresh::Missed,
                Waited::TimedOut => Refresh::Missed,
            },
            other => other,
        }
    }

    pub fn waited(self, waited: Waited) -> (next: Refresh)
        ensures
            next == self.after_waited(waited),
    {
        match self {
            Refresh::Wait => match waited {
                Waited::Changed(token) => Refresh::Ready { token },
                Waited::Closed => Refresh::Missed,
                Waited::TimedOut => Refresh::Missed,
            },
            other => other,
        }
    }

    /// The newer token, if there is one.
    pub fn token(self) -> (token: Option<String>)
        ensures
            token == (match self {
                Refresh::Ready { token } => Some(token),
                _ => None,
            }),
    {
        match self {
            Refresh::Ready { token } => Some(token),
            _ => None,
        }
    }
}

// ---- the refresher -------------------------------------------------------

/// Where the task that owns the token stands, and with that what it does
/// next.
pub enum Refresher {
    /// Wait for the timer or for a request. The timer starts anew each time,
    /// so a token that was refreshed on demand is not refreshed again a
    /// moment later.
    Idle,
    /// Log in.
    LogIn,
    /// Take a request that queued up during the login, if one is waiting, and
    /// drop it: it was about the token that this one replaces.
    Drain { token: String },
    /// No request is waiting: publish this token.
    Publish { token: String },
    /// Nobody needs tokens any more.
    Stopped,
}

/// What ended the waiting of the refresher.
pub enum Wake {
    Timer,
    Request,
    /// Everyone who could ask for a refresh is gone.
    Closed,
}

impl Refresher {
    pub open spec fn after_wake(self, wake: Wake) -> Refresher {
        match self {
            Refresher::Idle => match wake {
                Wake::Closed => Refresher::Stopped,
                _ => Refresher::LogIn,
            },
            other => other,
        }
    }

    pub open spec fn after_login(self, token: Option<String>) -> Refresher {
        match self {
            Refresher::LogIn => match token {
                Some(token) => Refresher::Drain { token },
                None => Refresher::Idle,
            },
            other => other,
        }
    }

    pub open spec fn after_taken(self, dropped: bool) -> Refresher {
        match self {
            Refresher::Drain { token } => if dropped {
                Refresher::Drain { token }
            } else {
                Refresher::Publish { token }
            },
            other => other,
        }
    }

    pub open spec fn after_published(self, heard: bool) -> Refresher {
        match self {
            Refresher::Publish { .. } => if heard {
                Refresher::Idle
            } else {
                Refresher::Stopped
            },
            other => other,
        }
    }

    /// The waiting is over.
    pub fn woken(self, wake: Wake) -> (next: Refresher)
        ensures
            next == self.after_wake(wake),
    {
        match self {
            Refresher::Idle => match wake {
                Wake::Closed => Refresher::Stopped,
                _ => Refresher::LogIn,
            },
            other => other,
        }
    }

    /// The login gave this token, or none; then it is tried again at the next
    /// cycle.
    pub fn logged_in(self, token: Option<String>) -> (next: Refresher)
        ensures
            next == self.after_login(token),
    {
        match self {
            Refresher::LogIn => match token {
                Some(token) => Refresher::Drain { token },
                None => Refresher::Idle,
            },
            other => other,
        }
    }

    /// A request was waiting and was dropped, or none was waiting.
    pub fn taken(self, dropped: bool) -> (next: Refresher)
        ensures
            next == self.after_taken(dropped),
    {
        match self {
            Refresher::Drain { token } => if dropped {
                Refresher::Drain { token }
            } else {
                Refresher::Publish { token }
            },
            other => other,
        }
    }

    /// The token was published; `heard` says whether anyone still listens.
    pub fn published(self, heard: bool) -> (next: Refresher)
        ensures
            next == self.after_published(heard),
    {
        match self {
            Refresher::Publish { .. } => if heard {
                Refresher::Idle
            } else {
                Refresher::Stopped
            },
            other => other,
        }
    }
}

// ---- what the refresher promises -----------------------------------------

/// What can happen to the refresher.
pub enum RefresherEvent {
    Woken(Wake),
    LoggedIn(Option<String>),
    Taken(bool),
    Published(bool),
}

impl Refresher {
    /// The state after any event.
    pub open spec fn after(self, event: RefresherEvent) -> Refresher {
        match event {
            RefresherEvent::Woken(wake) => self.after_wake(wake),
            RefresherEvent::LoggedIn(token) => self.after_login(token),
            RefresherEvent::Taken(dropped) => self.after_taken(dropped),
            RefresherEvent::Published(heard) => self.after_published(heard),
        }
    }

    /// The state after the events, one by one.
    pub open spec fn after_all(self, events: Seq<RefresherEvent>) -> Refresher
        decreases events.len(),
    {
        if events.len() == 0 {
            self
        } else {
            self.after_all(events.drop_last()).after(events.last())
        }
    }
}

/// A login starts only when the refresher was waiting, and the timer ran out
/// or a request came.
pub proof fn law_login_starts_on_timer_or_request(state: Refresher, event: RefresherEvent)
    requires
        !(state is LogIn),
    ensures
        state.after(event) is LogIn <==> state is Idle && (event
            == RefresherEvent::Woken(Wake::Timer) || event == RefresherEvent::Woken(Wake::Request)),
{
}

/// The refresher stops only when everyone who could ask for a refresh is gone,
/// or when nobody heard the token that it published; and then for good.
pub proof fn law_refresher_stops_when_nobody_needs_it(state: Refresher, event: RefresherEvent)
    ensures
        !(state is Stopped) ==> (state.after(event) is Stopped <==> (state is Idle && event
            == RefresherEvent::Woken(Wake::Closed)) || (state is Publish && event
            == RefresherEvent::Published(false))),
        state is Stopped ==> state.after(event) is Stopped,
{
}

/// A token is published only when no request is left over from the login that
/// gave it: the requests were dropped, so they cause no second login.
pub proof fn law_requests_of_a_login_are_dropped(state: Refresher, event: RefresherEvent)
    requires
        !(state is Publish),
    ensures
        state.after(event) is Publish <==> state is Drain && event == RefresherEvent::Taken(false),
        state.after(event) is Publish ==> state.after(event)->Publish_token == state->Drain_token,
        state is Drain && event == RefresherEvent::Taken(true) ==> state.after(event) == state,
{
}

/// A login that fails does not stop the refresher and publishes nothing: it
/// waits again, and the next timer or request makes it log in anew.
pub proof fn law_failed_login_is_tried_again(wake: Wake)
    requires
        !(wake is Closed),
    ensures
        Refresher::LogIn.after_login(None) == Refresher::Idle,
        Refresher::LogIn.after_login(None).after_wake(wake) == Refresher::LogIn,
{
}

/// After a login that succeeds, however many requests have queued up, the
/// token that it gave is published, and then the refresher waits again.
pub proof fn law_new_token_is_published(token: String, requests: nat)
    ensures
        Refresher::LogIn.after_login(Some(token)).after_all(
            Seq::new(requests, |i: int| RefresherEvent::Taken(true)),
        ).after_taken(false) == (Refresher::Publish { token }),
        (Refresher::Publish { token }).after_published(true) == Refresher::Idle,
    decreases requests,
{
    let drops = Seq::new(requests, |i: int| RefresherEvent::Taken(true));
    if requests > 0 {
        let fewer = Seq::new((requests - 1) as nat, |i: int| RefresherEvent::Taken(true));
        law_new_token_is_published(token, (requests - 1) as nat);
        assert(drops.drop_last() =~= fewer);
        lemma_drain_drops(token, fewer);
    }
}

proof fn lemma_drain_drops(token: String, events: Seq<RefresherEvent>)
    requires
        forall|i: int|
            0 <= i < events.len() ==> #[trigger] events[i] == RefresherEvent::Taken(true),
    ensures
        (Refresher::Drain { token }).after_all(events) == (Refresher::Drain { token }),
    decreases events.len(),
{
    if events.len() > 0 {
        lemma_drain_drops(token, events.drop_last());
        assert(events.last() == events[events.len() - 1]);
    }
}

/// Once a token was replaced, no forwarder that was rejected with the old one
/// asks for a login: each of them gets the new token at once, so a burst of
/// rejections does not cost a login each.
pub proof fn law_replaced_token_costs_no_further_login(latest: String, stale: String)
    requires
        latest@ != stale@,
    ensures
        Refresh::compared(latest, stale) == (Refresh::Ready { token: latest }),
{
}

/// A forwarder that waits gets the token that is published next, and nothing
/// where none is published in time.
pub proof fn law_refresh_gives_a_newer_token(waited: Waited)
    ensures
        Refresh::Wait.after_waited(waited) is Ready <==> waited is Changed,
        waited matches Waited::Changed(token) ==> Refresh::Wait.after_waited(waited) == (
        Refresh::Ready { token }),
        Refresh::Wait.after_waited(waited) is Missed <==> !(waited is Changed),
{
}

// ---- what the login and the waiting promise -------------------------------

/// The header value for a token of any length is the word `Bearer`, a space
/// and the whole token, and nothing else.
pub proof fn law_header_is_bearer_and_the_token(token: Seq<char>)
    ensures
        bearer(token).len() == 7 + token.len(),
        bearer(token).take(7) == seq!['B', 'e', 'a', 'r', 'e', 'r', ' '],
        bearer(token).skip(7) == token,
{
    reveal_strlit("Bearer ");
    assert(bearer(token).take(7) =~= seq!['B', 'e', 'a', 'r', 'e', 'r', ' ']);
    assert(bearer(token).skip(7) =~= token);
}

/// Two tokens never share a header value.
pub proof fn law_header_tells_the_token(token: Seq<char>, other: Seq<char>)
    requires
        bearer(token) == bearer(other),
    ensures
        token == other,
{
    law_header_is_bearer_and_the_token(token);
    law_header_is_bearer_and_the_token(other);
}

/// A login response gives a token exactly where its member `token` is a
/// string, and then it gives that string, whatever it is.
pub proof fn law_token_is_the_member_of_that_name(response: Seq<char>, found: Seq<char>)
    requires
        crate::json::member_text(response, seq!['t', 'o', 'k', 'e', 'n']) == Some(found),
    ensures
        token_in(response) == crate::json::characters(found),
{
    reveal_strlit("token");
    assert("token"@ =~= seq!['t', 'o', 'k', 'e', 'n']);
}

/// Without a member `token` a login response gives no token.
pub proof fn law_no_member_no_token(response: Seq<char>)
    requires
        crate::json::member_text(response, seq!['t', 'o', 'k', 'e', 'n']) is None,
    ensures
        token_in(response) is None,
{
    reveal_strlit("token");
    assert("token"@ =~= seq!['t', 'o', 'k', 'e', 'n']);
}

/// The first waiting time is one second; each further one is twice the one
/// before it, as long as that is at most a minute, and a minute otherwise; so
/// the waiting times never get shorter and never exceed a minute.
pub proof fn law_waiting_time_doubles_up_to_a_minute(n: nat)
    ensures
        nth_delay(0) == 1,
        1 <= nth_delay(n) <= 60,
        nth_delay(n) <= 30 ==> nth_delay(n + 1) == 2 * nth_delay(n),
        nth_delay(n) > 30 ==> nth_delay(n + 1) == 60,
        n >= 6 ==> nth_delay(n) == 60,
    decreases n,
{
    if n > 0 {
        law_waiting_time_doubles_up_to_a_minute((n - 1) as nat);
        if n == 6 {
            reveal_with_fuel(nth_delay, 8);
        }
    }
}

/// A forwarder waits twenty seconds for a refreshed token.
pub proof fn law_refresh_is_awaited_for_twenty_seconds()
    ensures
        REFRESH_WAIT_SECS == 20,
{
}

/// A login is asked for exactly when the latest token is the one that was
/// rejected; otherwise the latest token is used as it is.
pub proof fn law_login_is_asked_for_only_if_nothing_changed(latest: String, stale: String)
    ensures
        Refresh::compared(latest, stale) is Wait <==> latest@ == stale@,
        !(Refresh::compared(latest, stale) is Wait) ==> Refresh::compared(latest, stale) == (
        Refresh::Ready { token: latest }),
{
}

/// A forwarder that has its token, or has missed it, is not changed by what is
/// published later.
pub proof fn law_settled_refresh_stays(token: String, waited: Waited)
    ensures
        (Refresh::Ready { token }).after_waited(waited) == (Refresh::Ready { token }),
        Refresh::Missed.after_waited(waited) == Refresh::Missed,
{
}

/// The refresher passes the token of a login on unchanged from the login to
/// where it is published, and anything that happens out of turn changes
/// nothing.
pub proof fn law_refresher_heeds_its_turn(
    state: Refresher,
    wake: Wake,
    token: Option<String>,
    flag: bool,
)
    ensures
        !(state is Idle) ==> state.after_wake(wake) == state,
        !(state is LogIn) ==> state.after_login(token) == state,
        !(state is Drain) ==> state.after_taken(flag) == state,
        !(state is Publish) ==> state.after_published(flag) == state,
        state is Idle ==> state.after_wake(wake) == (match wake {
            Wake::Closed => Refresher::Stopped,
            Wake::Timer => Refresher::LogIn,
            Wake::Request => Refresher::LogIn,
        }),
        state is LogIn && token is Some ==> state.after_login(token) == (Refresher::Drain {
            token: token->0,
        }),
        state is LogIn && token is None ==> state.after_login(token) == Refresher::Idle,
        state is Drain && flag ==> state.after_taken(flag) == state,
        state is Drain && !flag ==> state.after_taken(flag) == (Refresher::Publish {
            token: state->Drain_token,
        }),
        state is Publish && flag ==> state.after_published(flag) == Refresher::Idle,
        state is Publish && !flag ==> state.after_published(flag) == Refresher::Stopped,
{
}

}
