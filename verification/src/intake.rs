//! What happens to a log that arrives: it is recorded, queued or diverted, and
//! the sender gets an answer at once.

use vstd::prelude::*;

use crate::config::Config;
use crate::failed_log::FailedLog;
use crate::forward::LogMessage;
use crate::local::LocalLog;
use crate::retry::RetryMsg;

verus! {

/// The log was taken over.
pub const ACCEPTED: u16 = 202;

/// The log could not be recorded.
pub const INTERNAL_SERVER_ERROR: u16 = 500;

/// The gateway is shutting down.
pub const SERVICE_UNAVAILABLE: u16 = 503;

/// Where a log goes.
pub enum Route {
    /// To the local file; it is never forwarded.
    Record,
    /// To this URL, over the live queue.
    Forward { url: String },
}

/// Decides where the log of a request goes. Paths that are listed as local are
/// written to a local file; everything else is queued for delivery to the same
/// path on the panel.
pub fn route(cfg: &Config, local: &LocalLog, path: &str) -> (route: Route)
    ensures
        local@.contains(path@) ==> route is Record,
        !local@.contains(path@) ==> route is Forward && route->url@ == cfg.url(path@),
        route is Record <==> local@.contains(path@),
{
    if local.matches(path) {
        Route::Record
    } else {
        Route::Forward { url: cfg.target_url(path) }
    }
}

/// The answer for a log that was to be recorded.
pub open spec fn recorded_code(written: bool) -> u16 {
    if written {
        ACCEPTED
    } else {
        INTERNAL_SERVER_ERROR
    }
}

/// The status code to answer with when a log was written to the local file,
/// or that failed.
pub fn recorded(written: bool) -> (code: u16)
    ensures
        code == recorded_code(written),
        written ==> code == 202,
        !written ==> code == 500,
{
    if written {
        ACCEPTED
    } else {
        INTERNAL_SERVER_ERROR
    }
}

/// What came of putting a log on the live queue.
pub enum Queued {
    Accepted,
    /// The queue is full; the log comes back.
    Full(LogMessage),
    /// Nobody takes logs from the queue any more.
    Closed,
}

/// What is done once the live queue has spoken.
pub enum Admission {
    /// Answer with this status code.
    Answer { code: u16 },
    /// The live queue is full (panel slow or down): hand the log to the retry
    /// queue instead of dropping it or blocking the game server.
    Divert { msg: RetryMsg },
}

/// What a result of the live queue leads to.
pub open spec fn admission(queued: Queued) -> Admission {
    match queued {
        Queued::Accepted => Admission::Answer { code: ACCEPTED },
        Queued::Full((url, body)) => Admission::Divert {
            msg: RetryMsg::Failed(FailedLog { url, body }),
        },
        Queued::Closed => Admission::Answer { code: SERVICE_UNAVAILABLE },
    }
}

/// Decides what is done with a log after it was put on the live queue.
pub fn admitted(queued: Queued) -> (next: Admission)
    ensures
        next == admission(queued),
        queued is Accepted ==> next == (Admission::Answer { code: 202 }),
        queued is Closed ==> next == (Admission::Answer { code: 503 }),
        queued matches Queued::Full(message) ==> next == (Admission::Divert {
            msg: RetryMsg::Failed(FailedLog { url: message.0, body: message.1 }),
        }),
{
    match queued {
        Queued::Accepted => Admission::Answer { code: ACCEPTED },
        Queued::Full((url, body)) => Admission::Divert {
            msg: RetryMsg::Failed(FailedLog { url, body }),
        },
        Queued::Closed => Admission::Answer { code: SERVICE_UNAVAILABLE },
    }
}

/// The answer for a log that was diverted.
pub open spec fn diverted_code(taken: bool) -> u16 {
    if taken {
        ACCEPTED
    } else {
        SERVICE_UNAVAILABLE
    }
}

/// The status code to answer with when a log was handed to the retry queue,
/// or that failed.
pub fn diverted(taken: bool) -> (code: u16)
    ensures
        code == diverted_code(taken),
        taken ==> code == 202,
        !taken ==> code == 503,
{
    if taken {
        ACCEPTED
    } else {
        SERVICE_UNAVAILABLE
    }
}

/// The answer for a log that is forwarded: that of the live queue, or, where
/// that diverted the log, that of the retry queue.
pub open spec fn forwarded_code(queued: Queued, taken: bool) -> u16 {
    match admission(queued) {
        Admission::Answer { code } => code,
        Admission::Divert { .. } => diverted_code(taken),
    }
}

/// A log that is forwarded is never dropped without a word: it is accepted
/// exactly when the live queue or the retry queue took it over, and otherwise
/// the sender is told that the service is unavailable.
pub proof fn law_accepted_logs_are_taken_over(queued: Queued, taken: bool)
    ensures
        forwarded_code(queued, taken) == ACCEPTED <==> (queued is Accepted || (queued is Full
            && taken)),
        forwarded_code(queued, taken) == ACCEPTED || forwarded_code(queued, taken)
            == SERVICE_UNAVAILABLE,
{
}

/// A full live queue does not cost a log: what did not fit, target and body,
/// is what the retry queue gets.
pub proof fn law_full_queue_diverts_the_log(message: LogMessage)
    ensures
        admission(Queued::Full(message)) == (Admission::Divert {
            msg: RetryMsg::Failed(FailedLog { url: message.0, body: message.1 }),
        }),
{
}

/// The answers in numbers: `202` for a log that was taken over, `500` for one
/// that could not be recorded, `503` for one that no queue takes any more.
pub proof fn law_answers_in_numbers(written: bool, taken: bool, queued: Queued)
    ensures
        written ==> recorded_code(written) == 202,
        !written ==> recorded_code(written) == 500,
        taken ==> diverted_code(taken) == 202,
        !taken ==> diverted_code(taken) == 503,
        queued is Accepted ==> forwarded_code(queued, taken) == 202,
        queued is Closed ==> forwarded_code(queued, taken) == 503,
        queued is Full ==> (forwarded_code(queued, taken) == 202 <==> taken),
        queued is Full && !taken ==> forwarded_code(queued, taken) == 503,
        admission(queued) is Divert <==> queued is Full,
{
}

}
