//! Delivery of queued logs to the panel.
//!
//! One delivery is a first request and, where the panel answers `401`, one
//! refresh of the token and a second request. What could not be delivered is
//! handed to the retry queue.

use serde_json::Value;
use vstd::prelude::*;
use vstd::string::*;

use crate::failed_log::FailedLog;
use crate::retry::RetryMsg;
use crate::status::Status;

verus! {

/// A log waiting to be forwarded: target URL plus JSON body.
pub type LogMessage = (String, Value);

/// What came of a delivery.
#[derive(Debug)]
pub enum Outcome {
    Sent,
    /// The panel rejected the token. As the outcome of a whole delivery: it
    /// did so even after one refresh, or no newer token came in time.
    Unauthorized,
    /// The panel answered with an error other than 401.
    Rejected(Status),
    /// No usable answer: connection error or timeout.
    Unreachable(String),
}

/// The status code by which the panel rejects a token.
pub const UNAUTHORIZED: u16 = 401;

impl Outcome {
    pub fn is_sent(&self) -> (r: bool)
        ensures
            r == (self is Sent),
    {
        matches!(self, Outcome::Sent)
    }

    /// The short reason for log lines.
    pub open spec fn reason(self) -> Seq<char> {
        match self {
            Outcome::Sent => "sent"@,
            Outcome::Unauthorized => "401 even after a token refresh"@,
            Outcome::Rejected(status) => "HTTP "@ + crate::status::status_text(status@),
            Outcome::Unreachable(error) => "unreachable: "@ + error@,
        }
    }

    /// Short reason for log lines.
    pub fn describe(&self) -> (text: String)
        ensures
            text@ == self.reason(),
            self is Sent ==> text@ == "sent"@,
            self is Unauthorized ==> text@ == "401 even after a token refresh"@,
            self matches Outcome::Rejected(status) ==> text@ == "HTTP "@
                + crate::status::status_text(status@),
            self matches Outcome::Unreachable(error) ==> text@ == "unreachable: "@ + error@,
            self matches Outcome::Rejected(status) ==> ("HTTP "@ + crate::text::decimal(
                status@ as nat,
            ) + seq![' ']).is_prefix_of(text@),
    {
        match self {
            Outcome::Sent => "sent".to_string(),
            Outcome::Unauthorized => "401 even after a token refresh".to_string(),
            Outcome::Rejected(status) => {
                let text = status.text();
                proof {
                    let code = crate::text::decimal(status@ as nat) + seq![' '];
                    assert("HTTP "@ + crate::text::decimal(status@ as nat) + seq![' '] =~= "HTTP "@
                        + code);
                    assert(code =~= text@.subrange(0, code.len() as int));
                    let whole = "HTTP "@ + text@;
                    assert("HTTP "@ + code =~= whole.subrange(0, ("HTTP "@ + code).len() as int));
                }
                "HTTP ".to_string().concat(&text)
            },
            Outcome::Unreachable(error) => "unreachable: ".to_string().concat(error),
        }
    }
}

// ---- one request ---------------------------------------------------------

/// What came of one request to the panel.
pub enum Reply {
    /// The panel answered with this status.
    Answered(Status),
    /// There was no answer, for this reason.
    Failed(String),
}

/// The outcome that a reply stands for.
pub open spec fn outcome_of(reply: Reply) -> Outcome {
    match reply {
        Reply::Answered(status) => if 200 <= status@ < 300 {
            Outcome::Sent
        } else if status@ == UNAUTHORIZED {
            Outcome::Unauthorized
        } else {
            Outcome::Rejected(status)
        },
        Reply::Failed(error) => Outcome::Unreachable(error),
    }
}

/// Tells the outcome of one request from the reply.
pub fn classify(reply: Reply) -> (outcome: Outcome)
    ensures
        outcome == outcome_of(reply),
        outcome is Sent <==> (reply matches Reply::Answered(status) && 200 <= status@ <= 299),
        outcome is Unauthorized <==> (reply matches Reply::Answered(status) && status@ == 401),
        outcome is Rejected <==> (reply matches Reply::Answered(status) && !(200 <= status@ <= 299)
            && status@ != 401),
        outcome matches Outcome::Rejected(status) ==> reply == Reply::Answered(status),
        outcome is Unreachable <==> reply is Failed,
        outcome matches Outcome::Unreachable(error) ==> reply == Reply::Failed(error),
{
    match reply {
        Reply::Answered(status) => if status.is_success() {
            Outcome::Sent
        } else if status.code() == UNAUTHORIZED {
            Outcome::Unauthorized
        } else {
            Outcome::Rejected(status)
        },
        Reply::Failed(error) => Outcome::Unreachable(error),
    }
}

// ---- one delivery --------------------------------------------------------

/// Where a delivery stands, and with that what is to be done next.
pub enum Delivery {
    /// Send the log with this token.
    First { token: String },
    /// Ask for a token that is newer than this one.
    Refresh { stale: String },
    /// Send the log once more, with this token.
    Second { token: String },
    /// The delivery is over.
    Finished { outcome: Outcome },
}

impl Delivery {
    /// The state after a request was sent.
    pub open spec fn after_sent(self, outcome: Outcome) -> Delivery {
        match self {
            Delivery::First { token } => match outcome {
                Outcome::Unauthorized => Delivery::Refresh { stale: token },
                other => Delivery::Finished { outcome: other },
            },
            Delivery::Second { .. } => Delivery::Finished { outcome },
            other => other,
        }
    }

    /// The state after a newer token was asked for.
    pub open spec fn after_refreshed(self, fresh: Option<String>) -> Delivery {
        match self {
            Delivery::Refresh { .. } => match fresh {
                Some(token) => Delivery::Second { token },
                None => Delivery::Finished { outcome: Outcome::Unauthorized },
            },
            other => other,
        }
    }

    /// A delivery starts with the current token.
    pub fn start(token: String) -> (delivery: Delivery)
        ensures
            delivery == (Delivery::First { token }),
    {
        Delivery::First { token }
    }

    /// A request was sent, with this outcome.
    pub fn sent(self, outcome: Outcome) -> (next: Delivery)
        ensures
            next == self.after_sent(outcome),
    {
        match self {
            Delivery::First { token } => match outcome {
                Outcome::Unauthorized => Delivery::Refresh { stale: token },
                other => Delivery::Finished { outcome: other },
            },
            Delivery::Second { .. } => Delivery::Finished { outcome },
            other => other,
        }
    }

    /// A newer token was asked for; `None` where none came in time.
    pub fn refreshed(self, fresh: Option<String>) -> (next: Delivery)
        ensures
            next == self.after_refreshed(fresh),
    {
        match self {
            Delivery::Refresh { .. } => match fresh {
                Some(token) => Delivery::Second { token },
                None => Delivery::Finished { outcome: Outcome::Unauthorized },
            },
            other => other,
        }
    }
}

/// What is handed to the retry queue after a delivery: the log, unless it was
/// sent.
pub fn after_delivery(outcome: &Outcome, url: String, body: Value) -> (msg: Option<RetryMsg>)
    ensures
        msg == (if outcome is Sent {
            None
        } else {
            Some(RetryMsg::Failed(FailedLog { url, body }))
        }),
        msg is None <==> outcome is Sent,
        msg matches Some(RetryMsg::Failed(log)) ==> log.url@ == url@ && log.body == body,
{
    if outcome.is_sent() {
        None
    } else {
        Some(RetryMsg::Failed(FailedLog { url, body }))
    }
}

// ---- the live queue ------------------------------------------------------

/// Where the forwarder of the live queue stands, and with that what it does
/// next.
pub enum Dispatch {
    /// Wait for a log.
    Receive,
    /// Wait for a permit to forward this log.
    Acquire { message: LogMessage },
    /// Hand this log, with its permit, to a task of its own.
    Spawn { message: LogMessage },
    /// The queue is closed: wait for this many permits, in portions, and hold
    /// them. Once every permit is held, every forward has finished.
    Drain { permits: usize },
    Done,
}

/// The most permits that are waited for at once.
pub const MAX_PORTION: u32 = u32::MAX;

/// How many of the permits that are still to be waited for make up the next
/// portion.
pub open spec fn portion_of(permits: usize) -> u32 {
    if permits <= MAX_PORTION {
        permits as u32
    } else {
        MAX_PORTION
    }
}

/// The next portion of the permits that are still to be waited for.
pub fn portion(permits: usize) -> (n: u32)
    ensures
        n == portion_of(permits),
        n <= permits,
        n == permits || n == 4_294_967_295,
{
    if permits as u64 <= MAX_PORTION as u64 {
        permits as u32
    } else {
        MAX_PORTION
    }
}

impl Dispatch {
    pub open spec fn after_received(
        self,
        message: Option<LogMessage>,
        max_inflight: usize,
    ) -> Dispatch {
        match self {
            Dispatch::Receive => match message {
                Some(message) => Dispatch::Acquire { message },
                None => Dispatch::Drain { permits: max_inflight },
            },
            other => other,
        }
    }

    pub open spec fn after_permit(self) -> Dispatch {
        match self {
            Dispatch::Acquire { message } => Dispatch::Spawn { message },
            Dispatch::Drain { permits } => if portion_of(permits) == permits {
                Dispatch::Done
            } else {
                Dispatch::Drain { permits: (permits - portion_of(permits)) as usize }
            },
            other => other,
        }
    }

    /// How many permits the forwarder waits for and holds from here on until
    /// it is done; nothing for a forwarder that is not draining.
    pub open spec fn drained(self) -> nat
        decreases
                (match self {
                    Dispatch::Drain { permits } => permits as nat,
                    _ => 0,
                }),
    {
        match self {
            Dispatch::Drain { permits } => portion_of(permits) as nat + (if portion_of(permits)
                == permits {
                0
            } else {
                (Dispatch::Drain { permits: (permits - portion_of(permits)) as usize }).drained()
            }),
            _ => 0,
        }
    }

    pub open spec fn after_spawned(self) -> Dispatch {
        match self {
            Dispatch::Spawn { .. } => Dispatch::Receive,
            other => other,
        }
    }

    /// The queue gave a log, or `None` where every sender is gone.
    pub fn received(self, message: Option<LogMessage>, max_inflight: usize) -> (next: Dispatch)
        ensures
            next == self.after_received(message, max_inflight),
    {
        match self {
            Dispatch::Receive => match message {
                Some(message) => Dispatch::Acquire { message },
                None => Dispatch::Drain { permits: max_inflight },
            },
            other => other,
        }
    }

    /// What was waited for was granted: the permit of a log, or the next
    /// portion of all permits.
    pub fn permitted(self) -> (next: Dispatch)
        ensures
            next == self.after_permit(),
    {
        match self {
            Dispatch::Acquire { message } => Dispatch::Spawn { message },
            Dispatch::Drain { permits } => {
                let left: usize = permits - portion(permits) as usize;
                if left == 0 {
                    Dispatch::Done
                } else {
                    Dispatch::Drain { permits: left }
                }
            },
            other => other,
        }
    }

    /// The log, if there is one to hand on now, and the state after that.
    pub fn spawned(self) -> (r: (Option<LogMessage>, Dispatch))
        ensures
            r.0 == (match self {
                Dispatch::Spawn { message } => Some(message),
                _ => None,
            }),
            r.1 == self.after_spawned(),
    {
        match self {
            Dispatch::Spawn { message } => (Some(message), Dispatch::Receive),
            other => (None, other),
        }
    }
}

// ---- what deliveries promise ---------------------------------------------

impl Delivery {
    /// How many steps a delivery can still take.
    pub open spec fn steps_left(self) -> nat {
        match self {
            Delivery::First { .. } => 3,
            Delivery::Refresh { .. } => 2,
            Delivery::Second { .. } => 1,
            Delivery::Finished { .. } => 0,
        }
    }
}

/// A delivery comes to an end: each step brings it nearer to its end, so it
/// takes at most two requests and one refresh, and no state comes twice.
pub proof fn law_delivery_ends(delivery: Delivery, outcome: Outcome, fresh: Option<String>)
    ensures
        delivery is First || delivery is Second ==> delivery.after_sent(outcome).steps_left()
            < delivery.steps_left(),
        delivery is Refresh ==> delivery.after_refreshed(fresh).steps_left()
            < delivery.steps_left(),
        delivery is Finished ==> delivery.after_sent(outcome) == delivery
            && delivery.after_refreshed(fresh) == delivery,
        delivery.after_sent(outcome).steps_left() <= delivery.steps_left(),
        delivery.after_refreshed(fresh).steps_left() <= delivery.steps_left(),
{
}

/// What comes of a delivery: the outcome of the first request, unless that was
/// rejected for its token. Then a newer token decides: without one the log is
/// unauthorized, with one it is what came of the second request, which was
/// made with that token.
pub proof fn law_outcome_of_a_delivery(
    token: String,
    first: Outcome,
    fresh: Option<String>,
    second: Outcome,
)
    ensures
        (Delivery::First { token }).after_sent(first).after_refreshed(fresh).after_sent(second) == (
        Delivery::Finished {
            outcome: if !(first is Unauthorized) {
                first
            } else if fresh is None {
                Outcome::Unauthorized
            } else {
                second
            },
        }),
        first is Unauthorized ==> (Delivery::First { token }).after_sent(first) == (
        Delivery::Refresh { stale: token }),
        first is Unauthorized && fresh is Some ==> (Delivery::First { token }).after_sent(
            first,
        ).after_refreshed(fresh) == (Delivery::Second { token: fresh->0 }),
{
}

/// Every log that is taken from the live queue is handed to a task of its own
/// before the next one is taken, and none is handed on without a permit.
pub proof fn law_every_received_log_is_spawned(message: LogMessage, max_inflight: usize)
    ensures
        Dispatch::Receive.after_received(Some(message), max_inflight) == (Dispatch::Acquire {
            message,
        }),
        Dispatch::Receive.after_received(Some(message), max_inflight).after_permit() == (
        Dispatch::Spawn { message }),
        Dispatch::Receive.after_received(
            Some(message),
            max_inflight,
        ).after_permit().after_spawned() == Dispatch::Receive,
{
}

proof fn lemma_drained(permits: usize)
    ensures
        (Dispatch::Drain { permits }).drained() == permits,
    decreases permits,
{
    if portion_of(permits) != permits {
        lemma_drained((permits - portion_of(permits)) as usize);
    }
}

/// Once the queue is closed the forwarder ends, and only after it has held
/// every permit there is, however many that are, so no forward is left in
/// flight.
pub proof fn law_closed_queue_is_drained(max_inflight: usize)
    ensures
        Dispatch::Receive.after_received(None, max_inflight) == (Dispatch::Drain {
            permits: max_inflight,
        }),
        Dispatch::Receive.after_received(None, max_inflight).drained() == max_inflight,
{
    lemma_drained(max_inflight);
}

/// The drain goes on, with fewer permits to wait for each time, until none is
/// left; only then is the forwarder done.
pub proof fn law_drain_ends_when_no_permit_is_left(permits: usize)
    ensures
        (Dispatch::Drain { permits }).after_permit() is Done <==> portion_of(permits) == permits,
        !((Dispatch::Drain { permits }).after_permit() is Done) ==> (Dispatch::Drain {
            permits,
        }).after_permit() is Drain && (Dispatch::Drain { permits }).after_permit()->permits
            < permits,
        (Dispatch::Drain { permits }).drained() == portion_of(permits) + (Dispatch::Drain {
            permits,
        }).after_permit().drained(),
{
}

/// A log counts as sent exactly when the panel answered with a status from 200
/// to 299. The token was rejected exactly when it answered 401; any other
/// answer rejects the log, with that very status; and no answer at all is an
/// unreachable panel, with the reason that was given.
pub proof fn law_only_success_counts_as_sent(status: Status, error: String)
    ensures
        outcome_of(Reply::Answered(status)) is Sent <==> 200 <= status@ <= 299,
        outcome_of(Reply::Answered(status)) is Unauthorized <==> status@ == 401,
        !(200 <= status@ <= 299) && status@ != 401 ==> outcome_of(Reply::Answered(status))
            == Outcome::Rejected(status),
        outcome_of(Reply::Failed(error)) == Outcome::Unreachable(error),
{
}

/// Two answers with different statuses that both reject a log are told apart:
/// the status is kept as it came.
pub proof fn law_rejection_keeps_the_status(one: Status, other: Status)
    requires
        outcome_of(Reply::Answered(one)) is Rejected,
        outcome_of(Reply::Answered(one)) == outcome_of(Reply::Answered(other)),
    ensures
        one == other,
{
}

/// The reason for log lines is the outcome in words: a rejection names its
/// status, an unreachable panel the whole error.
pub proof fn law_reasons_name_what_happened(status: Status, error: String, other: String)
    ensures
        Outcome::Sent.reason() == seq!['s', 'e', 'n', 't'],
        Outcome::Rejected(status).reason() == seq!['H', 'T', 'T', 'P', ' ']
            + crate::status::status_text(status@),
        Outcome::Unreachable(error).reason().skip(13) == error@,
        Outcome::Unreachable(error).reason() == Outcome::Unreachable(other).reason() ==> error@
            == other@,
        Outcome::Unauthorized.reason().take(4) == seq!['4', '0', '1', ' '],
{
    reveal_strlit("sent");
    reveal_strlit("HTTP ");
    reveal_strlit("unreachable: ");
    reveal_strlit("401 even after a token refresh");
    assert(Outcome::Sent.reason() =~= seq!['s', 'e', 'n', 't']);
    assert(Outcome::Rejected(status).reason() =~= seq!['H', 'T', 'T', 'P', ' ']
        + crate::status::status_text(status@));
    assert(Outcome::Unreachable(error).reason().skip(13) =~= error@);
    assert(Outcome::Unreachable(other).reason().skip(13) =~= other@);
    assert(Outcome::Unauthorized.reason().take(4) =~= seq!['4', '0', '1', ' ']);
}

/// A request that is answered out of turn, or a token that comes out of turn,
/// changes nothing about a delivery, and the second request ends it with what
/// came of it.
pub proof fn law_delivery_heeds_its_turn(
    token: String,
    outcome: Outcome,
    fresh: Option<String>,
)
    ensures
        (Delivery::First { token }).after_refreshed(fresh) == (Delivery::First { token }),
        (Delivery::Second { token }).after_refreshed(fresh) == (Delivery::Second { token }),
        (Delivery::Refresh { stale: token }).after_sent(outcome) == (Delivery::Refresh {
            stale: token,
        }),
        (Delivery::Second { token }).after_sent(outcome) == (Delivery::Finished { outcome }),
        (Delivery::Refresh { stale: token }).after_refreshed(fresh) == (match fresh {
            Some(newer) => Delivery::Second { token: newer },
            None => Delivery::Finished { outcome: Outcome::Unauthorized },
        }),
{
}

/// A log that is waiting for its permit or its task is not lost to anything
/// that happens out of turn, and a forwarder that is done stays so.
pub proof fn law_forwarder_heeds_its_turn(
    message: LogMessage,
    next: Option<LogMessage>,
    max_inflight: usize,
    permits: usize,
)
    ensures
        (Dispatch::Acquire { message }).after_received(next, max_inflight) == (Dispatch::Acquire {
            message,
        }),
        (Dispatch::Acquire { message }).after_spawned() == (Dispatch::Acquire { message }),
        (Dispatch::Acquire { message }).after_permit() == (Dispatch::Spawn { message }),
        (Dispatch::Spawn { message }).after_received(next, max_inflight) == (Dispatch::Spawn {
            message,
        }),
        (Dispatch::Spawn { message }).after_permit() == (Dispatch::Spawn { message }),
        (Dispatch::Spawn { message }).after_spawned() == Dispatch::Receive,
        (Dispatch::Drain { permits }).after_received(next, max_inflight) == (Dispatch::Drain {
            permits,
        }),
        (Dispatch::Drain { permits }).after_spawned() == (Dispatch::Drain { permits }),
        Dispatch::Receive.after_permit() == Dispatch::Receive,
        Dispatch::Receive.after_spawned() == Dispatch::Receive,
        Dispatch::Done.after_received(next, max_inflight) == Dispatch::Done,
        Dispatch::Done.after_permit() == Dispatch::Done,
        Dispatch::Done.after_spawned() == Dispatch::Done,
{
}

/// The next portion is all that is left, or, where that is too much for one
/// call, as much as one call can wait for.
pub proof fn law_portion_is_as_large_as_can_be(permits: usize)
    ensures
        portion_of(permits) <= permits,
        permits <= 4_294_967_295 ==> portion_of(permits) == permits,
        permits > 4_294_967_295 ==> portion_of(permits) == 4_294_967_295,
        (Dispatch::Drain { permits }).after_permit() == (if permits <= 4_294_967_295 {
            Dispatch::Done
        } else {
            Dispatch::Drain { permits: (permits - 4_294_967_295) as usize }
        }),
{
}

}
