//! The retry queue: logs that failed, retried in rounds until they are sent.
//!
//! The queue is kept in memory and on disk. Each change to it says what has
//! to be done to the file, so that the file holds what the queue holds.

use vstd::prelude::*;

use crate::failed_log::{append, compact, Compaction, FailedLog, FailedLogView, Loaded, Reading};
use crate::forward::Outcome;

verus! {

/// What a forwarder sends to the retry queue.
pub enum RetryMsg {
    Failed(FailedLog),
}

// ---- one round -----------------------------------------------------------

/// One pass over the queue. It stops early when the panel is unreachable,
/// since the remaining logs would only add timeouts.
pub struct Round {
    /// The logs that were not attempted yet, the next one last.
    waiting: Vec<FailedLog>,
    /// The logs that were attempted and not sent, in order.
    kept: Vec<FailedLog>,
    /// The panel was unreachable.
    over: bool,
}

/// Where a round stands.
#[verifier::ext_equal]
pub struct RoundView {
    /// The logs that were not attempted yet, in order.
    pub pending: Seq<FailedLog>,
    /// The logs that were attempted and not sent, in order.
    pub kept: Seq<FailedLog>,
    /// The panel was unreachable.
    pub over: bool,
}

impl RoundView {
    /// A round that starts on these logs.
    pub open spec fn start(logs: Seq<FailedLog>) -> RoundView {
        RoundView { pending: logs, kept: Seq::empty(), over: false }
    }

    /// The log to attempt next, if the round goes on.
    pub open spec fn next(self) -> Option<FailedLog> {
        if self.over || self.pending.len() == 0 {
            None
        } else {
            Some(self.pending[0])
        }
    }

    /// The round after its next log was attempted.
    pub open spec fn after(self, outcome: Outcome) -> RoundView {
        match self.next() {
            Some(log) => RoundView {
                pending: self.pending.drop_first(),
                kept: if outcome is Sent {
                    self.kept
                } else {
                    self.kept.push(log)
                },
                over: outcome is Unreachable,
            },
            None => self,
        }
    }

    /// The round after its next logs were attempted one by one.
    pub open spec fn after_all(self, outcomes: Seq<Outcome>) -> RoundView
        decreases outcomes.len(),
    {
        if outcomes.len() == 0 {
            self
        } else {
            self.after(outcomes[0]).after_all(outcomes.drop_first())
        }
    }

    /// The logs that are still to be delivered.
    pub open spec fn unsent(self) -> Seq<FailedLog> {
        self.kept + self.pending
    }
}

impl View for Round {
    type V = RoundView;

    closed spec fn view(&self) -> RoundView {
        RoundView { pending: self.waiting@.reverse(), kept: self.kept@, over: self.over }
    }
}

/// The logs in the opposite order.
fn reversed(logs: Vec<FailedLog>) -> (r: Vec<FailedLog>)
    ensures
        r@ == logs@.reverse(),
{
    let ghost all = logs@;
    let mut rest = logs;
    let mut out: Vec<FailedLog> = Vec::new();
    while rest.len() > 0
        invariant
            rest@.len() <= all.len(),
            rest@ == all.take(rest@.len() as int),
            out@ == all.skip(rest@.len() as int).reverse(),
        decreases rest@.len(),
    {
        let ghost n = rest@.len();
        if let Some(log) = rest.pop() {
            assert(all.skip(n - 1).reverse() =~= all.skip(n as int).reverse().push(log));
            out.push(log);
        }
    }
    assert(all.skip(0) =~= all);
    out
}

impl Round {
    fn start(logs: Vec<FailedLog>) -> (round: Round)
        ensures
            round@ == RoundView::start(logs@),
    {
        let waiting = reversed(logs);
        assert(logs@.reverse().reverse() =~= logs@);
        Round { waiting, kept: Vec::new(), over: false }
    }

    /// The log to attempt next; `None` ends the round.
    pub fn next(&self) -> (log: Option<&FailedLog>)
        ensures
            (match log {
                Some(next) => self@.next() == Some(*next),
                None => self@.next() is None,
            }),
    {
        if self.over || self.waiting.is_empty() {
            None
        } else {
            Some(&self.waiting[self.waiting.len() - 1])
        }
    }

    /// The next log was attempted, with this outcome.
    pub fn attempted(&mut self, outcome: &Outcome)
        ensures
            final(self)@ == old(self)@.after(*outcome),
    {
        if self.over {
            return;
        }
        let ghost waiting = self.waiting@;
        if let Some(log) = self.waiting.pop() {
            assert(waiting.drop_last().reverse() =~= waiting.reverse().drop_first());
            match outcome {
                Outcome::Sent => {},
                Outcome::Unreachable(_) => {
                    self.over = true;
                    self.kept.push(log);
                },
                _ => {
                    self.kept.push(log);
                },
            }
        }
    }

    /// The logs that are still to be delivered.
    fn into_unsent(self) -> (logs: Vec<FailedLog>)
        ensures
            logs@ == self@.unsent(),
    {
        let mut logs = self.kept;
        let mut rest = reversed(self.waiting);
        logs.append(&mut rest);
        logs
    }
}

// ---- the queue -----------------------------------------------------------

/// The logs that are retried, and what has to be known of the file.
pub struct RetryQueue {
    logs: Vec<FailedLog>,
    torn: bool,
    unread: bool,
}

#[verifier::ext_equal]
pub struct RetryQueueView {
    pub logs: Seq<FailedLog>,
    /// The last line of the file may not be complete.
    pub torn: bool,
    /// The file in place was not read, so its text must be kept.
    pub unread: bool,
}

impl View for RetryQueue {
    type V = RetryQueueView;

    closed spec fn view(&self) -> RetryQueueView {
        RetryQueueView { logs: self.logs@, torn: self.torn, unread: self.unread }
    }
}

impl RetryQueueView {
    /// `compaction` makes the file hold the logs of the queue, and keeps the
    /// text of a file that was not read.
    pub open spec fn stored_by(self, compaction: Compaction) -> bool {
        crate::failed_log::stores(
            compaction,
            crate::failed_log::log_views(self.logs),
            self.unread,
        )
    }

    /// The queue that a log has joined.
    pub open spec fn joined_by(self, log: FailedLog) -> RetryQueueView {
        RetryQueueView { logs: self.logs.push(log), torn: false, unread: self.unread }
    }

    /// The queue that the unsent logs of a round have come back to.
    pub open spec fn rejoined_by(self, unsent: Seq<FailedLog>) -> RetryQueueView {
        RetryQueueView { logs: self.logs + unsent, torn: false, unread: self.unread }
    }
}

/// What is written when a log fails.
pub struct Append {
    /// The file in place was not read: it is first set aside under another
    /// name, where its text is kept.
    pub set_aside: bool,
    /// The text that is appended to the file.
    pub text: String,
}

impl RetryQueue {
    /// The queue starts with what was read from the file. A file in the older
    /// format is compacted right away; one that was not read stays as it is.
    pub fn restore(loaded: Loaded) -> (r: (RetryQueue, Option<Compaction>))
        ensures
            r.0@ == (RetryQueueView {
                logs: loaded.logs@,
                torn: loaded.torn && r.1 is None,
                unread: loaded.unread,
            }),
            r.1 is Some <==> loaded.legacy && !loaded.unread,
            r.1 matches Some(compaction) ==> r.0@.stored_by(compaction),
    {
        let compaction = if loaded.legacy && !loaded.unread {
            Some(compact(&loaded.logs, false))
        } else {
            None
        };
        let torn = loaded.torn && compaction.is_none();
        (RetryQueue { logs: loaded.logs, torn, unread: loaded.unread }, compaction)
    }

    pub fn len(&self) -> (n: usize)
        ensures
            n == self@.logs.len(),
    {
        self.logs.len()
    }

    /// A log failed: it joins the queue. The result says what is written to
    /// the file.
    pub fn received(&mut self, msg: RetryMsg) -> (append: Append)
        ensures
            (match msg {
                RetryMsg::Failed(log) => {
                    &&& final(self)@ == (RetryQueueView {
                        logs: old(self)@.logs.push(log),
                        torn: false,
                        unread: old(self)@.unread,
                    })
                    &&& final(self)@ == old(self)@.joined_by(log)
                    &&& append.set_aside == old(self)@.unread
                    &&& append.text@ == crate::failed_log::appended(
                        log@,
                        old(self)@.torn && !old(self)@.unread,
                    )
                    &&& crate::json::one_line(crate::failed_log::line(log@))
                },
            }),
    {
        match msg {
            RetryMsg::Failed(log) => {
                let text = append(&log, self.torn && !self.unread);
                self.logs.push(log);
                self.torn = false;
                Append { set_aside: self.unread, text }
            },
        }
    }

    /// The file that was not read was set aside: from now on the file is the
    /// queue's own.
    pub fn was_set_aside(&mut self)
        ensures
            final(self)@ == (RetryQueueView { torn: false, unread: false, ..old(self)@ }),
    {
        self.torn = false;
        self.unread = false;
    }

    /// Writing to the file failed. `torn` says whether the last line of the
    /// file is not complete now.
    pub fn write_failed(&mut self, torn: bool)
        ensures
            final(self)@ == (RetryQueueView { torn, ..old(self)@ }),
    {
        self.torn = torn;
    }

    /// It is time for a round. There is none while the queue is empty.
    pub fn tick(&mut self) -> (round: Option<Round>)
        ensures
            final(self)@ == (RetryQueueView { logs: Seq::empty(), ..old(self)@ }),
            round is Some <==> old(self)@.logs.len() > 0,
            round matches Some(r) ==> r@ == RoundView::start(old(self)@.logs),
    {
        if self.logs.is_empty() {
            assert(self@.logs =~= Seq::empty());
            return None;
        }
        let mut logs: Vec<FailedLog> = Vec::new();
        logs.append(&mut self.logs);
        assert(logs@ =~= old(self)@.logs);
        Some(Round::start(logs))
    }

    /// The round is over: what was not sent goes back to the queue, and the
    /// file is compacted.
    pub fn round_done(&mut self, round: Round) -> (compaction: Compaction)
        ensures
            final(self)@ == (RetryQueueView {
                logs: old(self)@.logs + round@.unsent(),
                torn: false,
                unread: old(self)@.unread,
            }),
            final(self)@ == old(self)@.rejoined_by(round@.unsent()),
            final(self)@.stored_by(compaction),
    {
        let mut unsent = round.into_unsent();
        self.logs.append(&mut unsent);
        self.torn = false;
        compact(&self.logs, self.unread)
    }

    /// Every sender is gone: the file is compacted a last time.
    pub fn closed(&self) -> (compaction: Compaction)
        ensures
            self@.stored_by(compaction),
    {
        compact(&self.logs, self.unread)
    }
}

// ---- what rounds keep ----------------------------------------------------

/// The logs that a round keeps when the panel would answer each log in turn
/// with the outcome in its place: those that were not sent, and, once the
/// panel is unreachable, all the rest.
pub open spec fn survivors(logs: Seq<FailedLog>, outcomes: Seq<Outcome>) -> Seq<FailedLog>
    decreases logs.len(),
{
    if logs.len() == 0 {
        logs
    } else {
        match outcomes[0] {
            Outcome::Sent => survivors(logs.drop_first(), outcomes.drop_first()),
            Outcome::Unreachable(_) => logs,
            _ => seq![logs[0]] + survivors(logs.drop_first(), outcomes.drop_first()),
        }
    }
}

/// How many logs a round delivers.
pub open spec fn delivered(outcomes: Seq<Outcome>) -> nat
    decreases outcomes.len(),
{
    if outcomes.len() == 0 {
        0
    } else {
        match outcomes[0] {
            Outcome::Sent => 1 + delivered(outcomes.drop_first()),
            Outcome::Unreachable(_) => 0,
            _ => delivered(outcomes.drop_first()),
        }
    }
}

proof fn lemma_round_over(round: RoundView, outcomes: Seq<Outcome>)
    requires
        round.over,
    ensures
        round.after_all(outcomes) == round,
    decreases outcomes.len(),
{
    if outcomes.len() > 0 {
        lemma_round_over(round, outcomes.drop_first());
    }
}

proof fn lemma_round_unsent(round: RoundView, outcomes: Seq<Outcome>)
    requires
        !round.over,
        outcomes.len() == round.pending.len(),
    ensures
        round.after_all(outcomes).unsent() == round.kept + survivors(round.pending, outcomes),
        round.after_all(outcomes).next() is None,
    decreases outcomes.len(),
{
    if outcomes.len() > 0 {
        let next = round.after(outcomes[0]);
        let log = round.pending[0];
        match outcomes[0] {
            Outcome::Unreachable(_) => {
                lemma_round_over(next, outcomes.drop_first());
                assert(round.kept.push(log) + round.pending.drop_first() =~= round.kept
                    + round.pending);
            },
            Outcome::Sent => {
                lemma_round_unsent(next, outcomes.drop_first());
            },
            _ => {
                lemma_round_unsent(next, outcomes.drop_first());
                let rest = survivors(round.pending.drop_first(), outcomes.drop_first());
                assert(round.kept.push(log) + rest =~= round.kept + (seq![log] + rest));
            },
        }
    }
}

/// A round ends with exactly the logs that the panel did not take, in their
/// order.
pub proof fn law_round_keeps_what_was_not_sent(logs: Seq<FailedLog>, outcomes: Seq<Outcome>)
    requires
        outcomes.len() == logs.len(),
    ensures
        RoundView::start(logs).after_all(outcomes).unsent() == survivors(logs, outcomes),
        RoundView::start(logs).after_all(outcomes).next() is None,
{
    lemma_round_unsent(RoundView::start(logs), outcomes);
    assert(Seq::<FailedLog>::empty() + survivors(logs, outcomes) =~= survivors(logs, outcomes));
}

/// A log leaves the queue only when the panel took it: one that was answered
/// otherwise stays, and so does every log behind one that found the panel
/// unreachable. Nothing else is ever in the queue, and no log is lost.
pub proof fn law_only_sent_logs_leave(logs: Seq<FailedLog>, outcomes: Seq<Outcome>)
    requires
        outcomes.len() == logs.len(),
    ensures
        forall|i: int|
            0 <= i < logs.len() && !(outcomes[i] is Sent) ==> survivors(logs, outcomes).contains(
                #[trigger] logs[i],
            ),
        forall|i: int, j: int|
            0 <= j < i < logs.len() && (#[trigger] outcomes[j]) is Unreachable ==> survivors(
                logs,
                outcomes,
            ).contains(#[trigger] logs[i]),
        forall|log: FailedLog| #[trigger]
            survivors(logs, outcomes).contains(log) ==> logs.contains(log),
        survivors(logs, outcomes).len() + delivered(outcomes) == logs.len(),
    decreases logs.len(),
{
    if logs.len() > 0 {
        let tail = logs.drop_first();
        let answers = outcomes.drop_first();
        let kept = survivors(logs, outcomes);
        law_only_sent_logs_leave(tail, answers);
        assert forall|i: int| 0 <= i < logs.len() && !(outcomes[i] is Sent) implies kept.contains(
            #[trigger] logs[i],
        ) by {
            lemma_tail_survives(logs, outcomes, i);
        }
        assert forall|i: int, j: int|
            0 <= j < i < logs.len() && (#[trigger] outcomes[j]) is Unreachable implies kept.contains(
            #[trigger] logs[i],
        ) by {
            if j > 0 && !(outcomes[0] is Unreachable) {
                assert(answers[j - 1] is Unreachable);
                assert(survivors(tail, answers).contains(tail[i - 1]));
                lemma_survivors_grow(logs, outcomes, tail[i - 1]);
            }
        }
        assert forall|log: FailedLog| #[trigger] kept.contains(log) implies logs.contains(log) by {
            let k = choose|k: int| 0 <= k < kept.len() && kept[k] == log;
            if outcomes[0] is Sent {
                assert(survivors(tail, answers).contains(log));
                let m = choose|m: int| 0 <= m < tail.len() && tail[m] == log;
                assert(logs[m + 1] == log);
            } else if !(outcomes[0] is Unreachable) {
                if k == 0 {
                    assert(logs[0] == log);
                } else {
                    assert(survivors(tail, answers)[k - 1] == log);
                    assert(survivors(tail, answers).contains(log));
                    let m = choose|m: int| 0 <= m < tail.len() && tail[m] == log;
                    assert(logs[m + 1] == log);
                }
            }
        }
    }
}

/// What survives of the later logs survives.
proof fn lemma_survivors_grow(logs: Seq<FailedLog>, outcomes: Seq<Outcome>, log: FailedLog)
    requires
        logs.len() > 0,
        survivors(logs.drop_first(), outcomes.drop_first()).contains(log),
        !(outcomes[0] is Unreachable),
    ensures
        survivors(logs, outcomes).contains(log),
{
    let rest = survivors(logs.drop_first(), outcomes.drop_first());
    let k = choose|k: int| 0 <= k < rest.len() && rest[k] == log;
    if !(outcomes[0] is Sent) {
        assert((seq![logs[0]] + rest)[k + 1] == log);
    }
}

proof fn lemma_tail_survives(logs: Seq<FailedLog>, outcomes: Seq<Outcome>, i: int)
    requires
        outcomes.len() == logs.len(),
        0 <= i < logs.len(),
        !(outcomes[i] is Sent),
    ensures
        survivors(logs, outcomes).contains(logs[i]),
    decreases logs.len(),
{
    if outcomes[0] is Unreachable {
        assert(logs.contains(logs[i]));
    } else if i == 0 {
        let rest = survivors(logs.drop_first(), outcomes.drop_first());
        assert((seq![logs[0]] + rest)[0] == logs[0]);
    } else {
        let tail = logs.drop_first();
        lemma_tail_survives(tail, outcomes.drop_first(), i - 1);
        lemma_survivors_grow(logs, outcomes, tail[i - 1]);
    }
}

// ---- the file and the queue ----------------------------------------------

/// What a file that may be missing contains.
pub open spec fn contents(file: Option<Seq<char>>) -> Seq<char> {
    match file {
        Some(text) => text,
        None => Seq::empty(),
    }
}

/// The file holds exactly the logs of the queue, in order, and where its last
/// line is not complete, that is known.
pub open spec fn in_step(
    file: Option<Seq<char>>,
    queue: Seq<FailedLogView>,
    torn: bool,
    reading: Reading,
) -> bool {
    &&& crate::failed_log::restored(file, reading).logs == queue
    &&& !crate::failed_log::restored(file, reading).legacy
    &&& crate::failed_log::complete(contents(file)) || torn
}

/// What the file holds once the queue was restored from it: what it held, or,
/// where it was in the older format, the same logs as NDJSON.
pub open spec fn file_after_restore(file: Option<Seq<char>>, reading: Reading) -> Option<Seq<char>> {
    let loaded = crate::failed_log::restored(file, reading);
    if loaded.legacy && !loaded.unread {
        crate::failed_log::compacted(loaded.logs)
    } else {
        file
    }
}

/// From the start on, the file and the queue are in step, whatever a crash has
/// left of the last line. Left out is a file that was not read.
pub proof fn law_restored_file_is_in_step(file: Option<Seq<char>>, reading: Reading)
    requires
        !crate::failed_log::restored(file, reading).unread,
        crate::failed_log::restored(file, reading).legacy ==> (forall|i: int|
            0 <= i < crate::failed_log::restored(file, reading).logs.len()
                ==> crate::json::one_line(
                crate::failed_log::line(
                    #[trigger] crate::failed_log::restored(file, reading).logs[i],
                ),
            )) && crate::failed_log::reads_back(
            reading,
            crate::failed_log::restored(file, reading).logs,
        ),
    ensures
        in_step(
            file_after_restore(file, reading),
            crate::failed_log::restored(file, reading).logs,
            crate::failed_log::restored(file, reading).torn,
            reading,
        ),
        crate::failed_log::restored(file, reading).legacy ==> in_step(
            file_after_restore(file, reading),
            crate::failed_log::restored(file, reading).logs,
            false,
            reading,
        ),
{
    let loaded = crate::failed_log::restored(file, reading);
    if loaded.legacy {
        law_compaction_brings_in_step(loaded.logs, reading);
    }
}

/// When a log fails, appending to the file keeps it in step with the queue
/// that the log joins, also behind a line that a crash cut short.
pub proof fn law_append_keeps_in_step(
    file: Option<Seq<char>>,
    queue: Seq<FailedLogView>,
    torn: bool,
    log: FailedLogView,
    reading: Reading,
)
    requires
        in_step(file, queue, torn, reading),
        crate::json::one_line(crate::failed_log::line(log)),
        reading(crate::failed_log::line(log)) == Some(log),
    ensures
        in_step(
            Some(contents(file) + crate::failed_log::appended(log, torn)),
            queue.push(log),
            false,
            reading,
        ),
{
    if file is None {
        crate::failed_log::lemma_empty_file(reading);
    }
    crate::failed_log::law_appended_log_is_read_back(contents(file), log, torn, reading);
}

/// A crash in the middle of an append, wherever it falls, loses none of the
/// logs that the queue held: at the next start they are read back, in order
/// and before anything else.
pub proof fn law_crash_during_append_loses_no_earlier_log(
    file: Option<Seq<char>>,
    queue: Seq<FailedLogView>,
    torn: bool,
    log: FailedLogView,
    k: int,
    reading: Reading,
)
    requires
        in_step(file, queue, torn, reading),
        0 <= k <= crate::failed_log::appended(log, torn).len(),
    ensures
        ({
            let after = crate::failed_log::restored(
                Some(contents(file) + crate::failed_log::appended(log, torn).take(k)),
                reading,
            );
            &&& queue.is_prefix_of(after.logs)
            &&& !after.legacy
            &&& !after.unread
        }),
{
    if file is None {
        crate::failed_log::lemma_empty_file(reading);
    }
    crate::failed_log::law_cut_append_costs_that_log_alone(contents(file), log, torn, k, reading);
}

/// Compacting brings the file in step with the queue, whatever it held
/// before.
pub proof fn law_compaction_brings_in_step(queue: Seq<FailedLogView>, reading: Reading)
    requires
        forall|i: int|
            0 <= i < queue.len() ==> crate::json::one_line(
                crate::failed_log::line(#[trigger] queue[i]),
            ),
        crate::failed_log::reads_back(reading, queue),
    ensures
        in_step(crate::failed_log::compacted(queue), queue, false, reading),
{
    crate::failed_log::law_compacted_file_reads_back(queue, reading);
    if queue.len() > 0 {
        reveal_strlit("\n");
        crate::failed_log::lemma_ended_file_is_complete(crate::failed_log::file_text(queue));
    }
}

/// A file that was not read, because it cannot be read as text or because it
/// is in the older format and not valid, is never removed and never
/// overwritten: it stays as it is until there is something to write, and is
/// then set aside. Any other file is removed only when no log is left.
pub proof fn law_unread_file_is_kept(queue: RetryQueueView, compaction: Compaction)
    requires
        queue.stored_by(compaction),
    ensures
        queue.unread ==> compaction is Keep || compaction is SetAside,
        compaction is SetAside ==> queue.logs.len() > 0,
        compaction is Remove ==> !queue.unread && queue.logs.len() == 0,
{
}

// ---- which logs a round attempts and keeps ---------------------------------

proof fn lemma_after_all_add(round: RoundView, a: Seq<Outcome>, b: Seq<Outcome>)
    ensures
        round.after_all(a + b) == round.after_all(a).after_all(b),
    decreases a.len(),
{
    if a.len() == 0 {
        assert(a + b =~= b);
    } else {
        lemma_after_all_add(round.after(a[0]), a.drop_first(), b);
        assert((a + b).drop_first() =~= a.drop_first() + b);
        assert((a + b)[0] == a[0]);
    }
}

spec fn attempts(logs: Seq<FailedLog>, outcomes: Seq<Outcome>, k: int) -> Seq<(FailedLog, Outcome)> {
    Seq::new(k as nat, |i: int| (logs[i], outcomes[i]))
}

proof fn lemma_round_goes_on(logs: Seq<FailedLog>, outcomes: Seq<Outcome>, k: int)
    requires
        0 <= k <= outcomes.len() <= logs.len(),
        forall|i: int| 0 <= i < k ==> !((#[trigger] outcomes[i]) is Unreachable),
    ensures
        RoundView::start(logs).after_all(outcomes.take(k)) == (RoundView {
            pending: logs.skip(k),
            kept: attempts(logs, outcomes, k).filter(
                |attempt: (FailedLog, Outcome)| !(attempt.1 is Sent),
            ).map_values(|attempt: (FailedLog, Outcome)| attempt.0),
            over: false,
        }),
    decreases k,
{
    let unsent = |attempt: (FailedLog, Outcome)| !(attempt.1 is Sent);
    let log = |attempt: (FailedLog, Outcome)| attempt.0;
    let start = RoundView::start(logs);
    reveal(Seq::filter);
    if k == 0 {
        assert(outcomes.take(0) =~= Seq::empty());
        assert(logs.skip(0) =~= logs);
        assert(attempts(logs, outcomes, 0).filter(unsent).map_values(log) =~= Seq::empty());
    } else {
        lemma_round_goes_on(logs, outcomes, k - 1);
        let before = start.after_all(outcomes.take(k - 1));
        let done = attempts(logs, outcomes, k - 1);
        let last = (logs[k - 1], outcomes[k - 1]);
        assert(outcomes.take(k) =~= outcomes.take(k - 1) + seq![outcomes[k - 1]]);
        lemma_after_all_add(start, outcomes.take(k - 1), seq![outcomes[k - 1]]);
        assert(seq![outcomes[k - 1]].drop_first() =~= Seq::empty());
        reveal_with_fuel(RoundView::after_all, 3);
        assert(before.after_all(seq![outcomes[k - 1]]) == before.after(outcomes[k - 1]));
        assert(attempts(logs, outcomes, k).drop_last() =~= done);
        assert(attempts(logs, outcomes, k).last() == last);
        assert(logs.skip(k - 1)[0] == logs[k - 1]);
        assert(logs.skip(k - 1).drop_first() =~= logs.skip(k));
        assert(done.filter(unsent).push(last).map_values(log) =~= done.filter(unsent).map_values(
            log,
        ).push(logs[k - 1]));
        if outcomes[k - 1] is Sent {
            assert(attempts(logs, outcomes, k).filter(unsent) == done.filter(unsent));
        } else {
            assert(attempts(logs, outcomes, k).filter(unsent) == done.filter(unsent).push(last));
        }
    }
}

/// A round attempts the logs in their order, each once, until one finds the
/// panel unreachable. After the attempts with these outcomes, of which the one
/// at `k`, if any, is the first that found it so, the logs that are still to
/// be delivered are those that were attempted before `k` and not sent, then
/// every log from `k` on. The round goes on exactly when no attempt found the
/// panel unreachable and a log is left, and with the log that is next in order.
pub proof fn law_round_attempts_in_order_until_unreachable(
    logs: Seq<FailedLog>,
    outcomes: Seq<Outcome>,
    k: int,
)
    requires
        0 <= k <= outcomes.len() <= logs.len(),
        forall|i: int| 0 <= i < k ==> !((#[trigger] outcomes[i]) is Unreachable),
        k < outcomes.len() ==> outcomes[k] is Unreachable,
    ensures
        RoundView::start(logs).after_all(outcomes).unsent() == Seq::new(
            k as nat,
            |i: int| (logs[i], outcomes[i]),
        ).filter(|attempt: (FailedLog, Outcome)| !(attempt.1 is Sent)).map_values(
            |attempt: (FailedLog, Outcome)| attempt.0,
        ) + logs.skip(k),
        RoundView::start(logs).after_all(outcomes).next() == (if k < outcomes.len() || k
            >= logs.len() {
            None
        } else {
            Some(logs[k])
        }),
{
    let start = RoundView::start(logs);
    let reached = start.after_all(outcomes.take(k));
    lemma_round_goes_on(logs, outcomes, k);
    assert(attempts(logs, outcomes, k) =~= Seq::new(k as nat, |i: int| (logs[i], outcomes[i])));
    assert(outcomes =~= outcomes.take(k) + outcomes.skip(k));
    lemma_after_all_add(start, outcomes.take(k), outcomes.skip(k));
    if k < outcomes.len() {
        let rest = outcomes.skip(k);
        assert(rest[0] == outcomes[k]);
        assert(logs.skip(k)[0] == logs[k]);
        let ended = reached.after(outcomes[k]);
        lemma_round_over(ended, rest.drop_first());
        assert(reached.kept.push(logs[k]) + logs.skip(k).drop_first() =~= reached.kept + logs.skip(
            k,
        ));
    } else {
        assert(outcomes.skip(k) =~= Seq::empty());
        if k < logs.len() {
            assert(logs.skip(k)[0] == logs[k]);
        }
    }
}

/// What the queue hands to the file when it is compacted holds the logs of the
/// queue: each with its whole URL and its body, in order, and nothing else.
pub proof fn law_compaction_holds_the_queue(queue: RetryQueueView, compaction: Compaction)
    requires
        queue.stored_by(compaction),
    ensures
        queue.logs.len() == 0 <==> compaction is Keep || compaction is Remove,
        compaction matches Compaction::Rewrite(text) ==> {
            let read = crate::failed_log::parsed(
                text@,
                |line: Seq<char>| crate::failed_log::log_in(line),
            );
            &&& read.logs.len() == queue.logs.len()
            &&& forall|i: int|
                0 <= i < queue.logs.len() ==> (#[trigger] read.logs[i]).url == queue.logs[i].url@
                    && read.logs[i].body == crate::json::value_text(queue.logs[i].body)
            &&& read.skipped == 0 && !read.legacy && !read.torn && !read.unread
        },
        compaction matches Compaction::SetAside(text) ==> {
            let read = crate::failed_log::parsed(
                text@,
                |line: Seq<char>| crate::failed_log::log_in(line),
            );
            &&& read.logs.len() == queue.logs.len()
            &&& forall|i: int|
                0 <= i < queue.logs.len() ==> (#[trigger] read.logs[i]).url == queue.logs[i].url@
                    && read.logs[i].body == crate::json::value_text(queue.logs[i].body)
            &&& read.skipped == 0 && !read.legacy && !read.torn && !read.unread
        },
{
    let views = crate::failed_log::log_views(queue.logs);
    crate::failed_log::law_compacted_queue_survives_a_restart(compaction, views, queue.unread);
}

/// The queue loses no log on its own and invents none: a log that fails is its
/// last, whatever it holds and however many there are; the unsent logs of a
/// round come back behind those that failed meanwhile, all of them and in
/// order; and everything that was in the queue stays where it was.
pub proof fn law_queue_keeps_every_log(
    queue: RetryQueueView,
    log: FailedLog,
    unsent: Seq<FailedLog>,
    i: int,
)
    ensures
        queue.joined_by(log).logs.len() == queue.logs.len() + 1,
        queue.joined_by(log).logs.last() == log,
        0 <= i < queue.logs.len() ==> queue.joined_by(log).logs[i] == queue.logs[i],
        queue.rejoined_by(unsent).logs.len() == queue.logs.len() + unsent.len(),
        0 <= i < queue.logs.len() ==> queue.rejoined_by(unsent).logs[i] == queue.logs[i],
        0 <= i < unsent.len() ==> queue.rejoined_by(unsent).logs[queue.logs.len() + i] == unsent[i],
        queue.joined_by(log).unread == queue.unread,
        queue.rejoined_by(unsent).unread == queue.unread,
{
}

/// A log that the panel did not take in a round is in the queue after it: it
/// was retried and not sent, or it was not retried because the panel could not
/// be reached.
pub proof fn law_unsent_log_is_in_the_queue_again(
    queue: RetryQueueView,
    logs: Seq<FailedLog>,
    outcomes: Seq<Outcome>,
    i: int,
)
    requires
        outcomes.len() == logs.len(),
        0 <= i < logs.len(),
        !(outcomes[i] is Sent),
    ensures
        queue.rejoined_by(
            RoundView::start(logs).after_all(outcomes).unsent(),
        ).logs.contains(logs[i]),
{
    let unsent = RoundView::start(logs).after_all(outcomes).unsent();
    law_round_keeps_what_was_not_sent(logs, outcomes);
    lemma_tail_survives(logs, outcomes, i);
    let k = choose|k: int| 0 <= k < unsent.len() && unsent[k] == logs[i];
    assert((queue.logs + unsent)[queue.logs.len() + k] == logs[i]);
}

}
