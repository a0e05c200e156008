//! Logs that could not be delivered, and the file that keeps them.
//!
//! The file is NDJSON: one log to a line, appended as it fails, and rewritten
//! from the queue after each round of retries. Files in the older format, a
//! JSON array of `[body, url]` pairs, are read too.

use serde_json::Value;
use vstd::prelude::*;
use vstd::string::*;

use crate::json::{print_string, print_value, read_pairs};
use crate::text::{last_piece, split_fields, starts_with};

verus! {

/// A log that could not be delivered.
#[derive(Debug, PartialEq)]
pub struct FailedLog {
    pub url: String,
    pub body: Value,
}

impl Clone for FailedLog {
    fn clone(&self) -> (copy: Self)
        ensures
            copy == *self,
    {
        FailedLog { url: self.url.clone(), body: self.body.clone() }
    }
}

/// The characters of the URL, and the compact text of the body.
#[verifier::ext_equal]
pub struct FailedLogView {
    pub url: Seq<char>,
    pub body: Seq<char>,
}

impl View for FailedLog {
    type V = FailedLogView;

    open spec fn view(&self) -> FailedLogView {
        FailedLogView { url: self.url@, body: crate::json::value_text(self.body) }
    }
}

/// The views of the logs.
pub open spec fn log_views(logs: Seq<FailedLog>) -> Seq<FailedLogView> {
    logs.map_values(|log: FailedLog| log@)
}

proof fn lemma_log_views_push(logs: Seq<FailedLog>, log: FailedLog)
    ensures
        log_views(logs.push(log)) == log_views(logs).push(log@),
{
    assert(log_views(logs.push(log)) =~= log_views(logs).push(log@));
}

// ---- writing -------------------------------------------------------------

/// The line of the file that holds a log.
pub open spec fn line(log: FailedLogView) -> Seq<char> {
    "{\"url\":"@ + crate::json::string_text(log.url) + ",\"body\":"@ + log.body + "}"@
}

/// The contents of the file that holds the logs: a line for each, in order.
pub open spec fn file_text(logs: Seq<FailedLogView>) -> Seq<char>
    decreases logs.len(),
{
    if logs.len() == 0 {
        Seq::empty()
    } else {
        file_text(logs.drop_last()) + line(logs.last()) + "\n"@
    }
}

/// The text that is appended to the file when a log fails: its line with a
/// line feed. Behind a line that is not complete, a line feed comes first, so
/// that the log gets a line of its own.
pub open spec fn appended(log: FailedLogView, torn: bool) -> Seq<char> {
    (if torn {
        "\n"@
    } else {
        Seq::empty()
    }) + (line(log) + "\n"@)
}

/// The text that is appended to the file when a log fails. `torn` says that
/// the last line of the file may not be complete.
pub fn append(log: &FailedLog, torn: bool) -> (text: String)
    ensures
        text@ == appended(log@, torn),
        text@ == (if torn {
            seq!['\n']
        } else {
            Seq::empty()
        }) + ("{\"url\":"@ + crate::json::string_text(log.url@) + ",\"body\":"@
            + crate::json::value_text(log.body) + "}"@ + "\n"@),
        crate::json::one_line(line(log@)),
        forall|contents: Seq<char>, reading: Reading|
            (complete(contents) || torn) && !is_legacy(contents) && reading(line(log@)) == Some(
                log@,
            ) ==> #[trigger] parsed(contents + text@, reading) == with_log(
                parsed(contents, reading),
                log@,
            ),
{
    let url = print_string(&log.url);
    let body = print_value(&log.body);
    proof {
        reveal_strlit("\n");
        assert("\n"@ =~= seq!['\n']);
        reveal_strlit("{\"url\":");
        reveal_strlit(",\"body\":");
        reveal_strlit("}");
    }
    let text = "{\"url\":".to_string().concat(&url).concat(",\"body\":").concat(&body).concat("}");
    assert(text@ == line(log@));
    proof {
        assert forall|contents: Seq<char>, reading: Reading|
            (complete(contents) || torn) && !is_legacy(contents) && reading(line(log@)) == Some(
                log@,
            ) implies #[trigger] parsed(contents + appended(log@, torn), reading) == with_log(
            parsed(contents, reading),
            log@,
        ) by {
            law_appended_log_is_read_back(contents, log@, torn, reading);
        }
    }
    if torn {
        "\n".to_string().concat(&text.concat("\n"))
    } else {
        let ended = text.concat("\n");
        assert(appended(log@, torn) =~= ended@);
        ended
    }
}

/// What is done to the file to make it hold the queue.
pub enum Compaction {
    /// The file could not be read and there is nothing to write: it stays as
    /// it is.
    Keep,
    /// The queue is empty: the file is removed.
    Remove,
    /// The file is replaced by one with these contents.
    Rewrite(String),
    /// The file could not be read: it is set aside under another name, where
    /// its text is kept, and a new file with these contents takes its place.
    SetAside(String),
}

/// What the file holds when it was made from these logs; `None` where there
/// is none.
pub open spec fn compacted(logs: Seq<FailedLogView>) -> Option<Seq<char>> {
    if logs.len() == 0 {
        None
    } else {
        Some(file_text(logs))
    }
}

/// `compaction` makes the file hold these logs, and reading it gives them
/// back, as far as each can be read back from its own line. `unread` says
/// that the text of the file in place was not read; then that text is kept.
pub open spec fn stores(
    compaction: Compaction,
    logs: Seq<FailedLogView>,
    unread: bool,
) -> bool {
    &&& match compaction {
        Compaction::Keep => unread && compacted(logs) is None,
        Compaction::Remove => !unread && compacted(logs) is None,
        Compaction::Rewrite(text) => !unread && compacted(logs) == Some(text@),
        Compaction::SetAside(text) => unread && compacted(logs) == Some(text@),
    }
    &&& forall|reading: Reading| #[trigger]
        reads_back(reading, logs) ==> restored(compacted(logs), reading) == exactly(logs)
}

/// Makes the contents of the file from the queue.
pub fn compact(queue: &Vec<FailedLog>, unread: bool) -> (compaction: Compaction)
    ensures
        stores(compaction, log_views(queue@), unread),
{
    let ghost logs = log_views(queue@);
    if queue.is_empty() {
        assert(logs =~= Seq::<FailedLogView>::empty());
        return if unread {
            Compaction::Keep
        } else {
            Compaction::Remove
        };
    }
    let mut out = String::new();
    let mut i: usize = 0;
    while i < queue.len()
        invariant
            i <= queue.len(),
            logs == log_views(queue@),
            out@ == file_text(logs.take(i as int)),
            forall|k: int| 0 <= k < i ==> crate::json::one_line(line(#[trigger] logs[k])),
        decreases queue.len() - i,
    {
        let text = append(&queue[i], false);
        assert(logs.take(i + 1).drop_last() == logs.take(i as int));
        assert(logs.take(i + 1).last() == queue[i as int]@);
        out.append(&text);
        assert(out@ =~= file_text(logs.take(i + 1)));
        i += 1;
    }
    assert(logs.take(i as int) == logs);
    proof {
        assert forall|reading: Reading| #[trigger] reads_back(reading, logs) implies restored(
            compacted(logs),
            reading,
        ) == exactly(logs) by {
            law_compacted_file_reads_back(logs, reading);
        }
    }
    if unread {
        Compaction::SetAside(out)
    } else {
        Compaction::Rewrite(out)
    }
}

// ---- reading -------------------------------------------------------------

/// What was read from the file.
pub struct Loaded {
    pub logs: Vec<FailedLog>,
    /// The file was in the older format.
    pub legacy: bool,
    /// How much of the file could not be read.
    pub skipped: usize,
    /// The last line of the file is not complete: the next one must not be
    /// appended to it.
    pub torn: bool,
    /// The file is there and was not read: it cannot be read as text, or it is
    /// in the older format and not valid.
    pub unread: bool,
}

#[verifier::ext_equal]
pub struct LoadedView {
    pub logs: Seq<FailedLogView>,
    pub legacy: bool,
    pub skipped: nat,
    pub torn: bool,
    pub unread: bool,
}

impl View for Loaded {
    type V = LoadedView;

    open spec fn view(&self) -> LoadedView {
        LoadedView {
            logs: log_views(self.logs@),
            legacy: self.legacy,
            skipped: self.skipped as nat,
            torn: self.torn,
            unread: self.unread,
        }
    }
}

/// These logs were read, and everything that the file holds.
pub open spec fn exactly(logs: Seq<FailedLogView>) -> LoadedView {
    LoadedView { logs, legacy: false, skipped: 0, torn: false, unread: false }
}

/// What was read, with one more log in a complete line behind it.
pub open spec fn with_log(loaded: LoadedView, log: FailedLogView) -> LoadedView {
    LoadedView { logs: loaded.logs.push(log), torn: false, ..loaded }
}

/// Whether a file is in the older format: its first character, white space
/// apart, opens an array.
pub open spec fn is_legacy(contents: Seq<char>) -> bool {
    let trimmed = crate::text::trim_start(contents);
    trimmed.len() > 0 && trimmed[0] == '['
}

/// What the pairs of a file in the older format amount to. A file that is not
/// valid is one thing that could not be read, and nothing of it was.
pub open spec fn legacy_loaded(pairs: Option<Seq<(Seq<char>, Seq<char>)>>) -> LoadedView {
    match pairs {
        Some(found) => LoadedView {
            logs: found.map_values(
                |pair: (Seq<char>, Seq<char>)| FailedLogView { url: pair.1, body: pair.0 },
            ),
            legacy: true,
            skipped: 0,
            torn: false,
            unread: false,
        },
        None => LoadedView {
            logs: Seq::empty(),
            legacy: true,
            skipped: 1,
            torn: false,
            unread: true,
        },
    }
}

/// The logs among the records, in order.
pub open spec fn readable(records: Seq<Option<FailedLogView>>) -> Seq<FailedLogView> {
    records.filter_map(|record: Option<FailedLogView>| record)
}

/// What the records of an NDJSON file amount to: the logs that could be read,
/// and how many records could not. `torn` says that its last line is not
/// complete.
pub open spec fn records_loaded(records: Seq<Option<FailedLogView>>, torn: bool) -> LoadedView {
    LoadedView {
        logs: readable(records),
        legacy: false,
        skipped: (records.len() - readable(records).len()) as nat,
        torn,
        unread: false,
    }
}

/// A reading of the line of a log: the log, or `None` for a corrupt line.
pub type Reading = spec_fn(Seq<char>) -> Option<FailedLogView>;

/// What a file holds when its lines are read by `reading`.
pub open spec fn parsed(contents: Seq<char>, reading: Reading) -> LoadedView {
    if is_legacy(contents) {
        legacy_loaded(crate::json::pairs_in(crate::text::trim_start(contents)))
    } else {
        records_loaded(
            crate::text::fields(contents, '\n').map_values(reading),
            !complete(contents),
        )
    }
}

/// The view of a log that may be missing.
pub open spec fn record_view(record: Option<FailedLog>) -> Option<FailedLogView> {
    match record {
        Some(log) => Some(log@),
        None => None,
    }
}

/// The views of the records.
pub open spec fn record_views(records: Seq<Option<FailedLog>>) -> Seq<Option<FailedLogView>> {
    records.map_values(|record: Option<FailedLog>| record_view(record))
}

/// `record` is a result that `decode` may give on a line.
pub open spec fn decoded<F: Fn(&str) -> Option<FailedLog>>(
    decode: F,
    line: Seq<char>,
    record: Option<FailedLog>,
) -> bool {
    exists|asked: &str| asked@ == line && #[trigger] call_ensures(decode, (asked,), record)
}

/// Each record is what `decode` gave on the line in its place.
pub open spec fn all_decoded<F: Fn(&str) -> Option<FailedLog>>(
    decode: F,
    lines: Seq<Seq<char>>,
    records: Seq<Option<FailedLog>>,
) -> bool {
    &&& records.len() == lines.len()
    &&& forall|i: int| 0 <= i < lines.len() ==> decoded(decode, #[trigger] lines[i], records[i])
}

/// `decode` always gives what `reading` says.
pub open spec fn follows<F: Fn(&str) -> Option<FailedLog>>(decode: F, reading: Reading) -> bool {
    forall|line: &str, record: Option<FailedLog>| #[trigger]
        call_ensures(decode, (line,), record) ==> record_view(record) == reading(line@)
}

/// The logs of a file in the older format.
pub fn from_legacy(pairs: Option<Vec<(Value, String)>>) -> (loaded: Loaded)
    ensures
        (match pairs {
            Some(found) => loaded@ == legacy_loaded(Some(crate::json::pair_views(found@))),
            None => loaded@ == legacy_loaded(None),
        }),
{
    match pairs {
        Some(found) => {
            let ghost all = legacy_loaded(Some(crate::json::pair_views(found@))).logs;
            let mut logs: Vec<FailedLog> = Vec::new();
            for pair in it: found
                invariant
                    it.seq() == found@,
                    all == legacy_loaded(Some(crate::json::pair_views(found@))).logs,
                    log_views(logs@) == all.take(it.index()),
            {
                let (body, url) = pair;
                let log = FailedLog { url, body };
                assert(all[it.index()] == log@);
                proof {
                    lemma_log_views_push(logs@, log);
                }
                logs.push(log);
                assert(all.take(it.index() + 1) =~= all.take(it.index()).push(log@));
            }
            let loaded = Loaded { logs, legacy: true, skipped: 0, torn: false, unread: false };
            assert(loaded@ =~= legacy_loaded(Some(crate::json::pair_views(found@))));
            loaded
        },
        None => {
            let loaded = Loaded {
                logs: Vec::new(),
                legacy: true,
                skipped: 1,
                torn: false,
                unread: true,
            };
            assert(loaded@ =~= legacy_loaded(None));
            loaded
        },
    }
}

/// The logs of an NDJSON file whose lines were decoded. `torn` says that its
/// last line is not complete.
pub fn from_records(records: Vec<Option<FailedLog>>, torn: bool) -> (loaded: Loaded)
    ensures
        loaded@ == records_loaded(record_views(records@), torn),
{
    let ghost all = record_views(records@);
    let mut logs: Vec<FailedLog> = Vec::new();
    let mut skipped: usize = 0;
    let total: usize = records.len();
    for record in it: records
        invariant
            it.seq() == records@,
            records@.len() == total,
            all == record_views(records@),
            skipped + logs@.len() == it.index(),
            log_views(logs@) == readable(all.take(it.index())),
    {
        assert(all.take(it.index() + 1).drop_last() == all.take(it.index()));
        assert(all.take(it.index() + 1).last() == record_view(record));
        match record {
            Some(log) => {
                logs.push(log);
            },
            None => {
                skipped += 1;
            },
        }
        assert(log_views(logs@) =~= readable(all.take(it.index() + 1)));
    }
    assert(all.take(all.len() as int) == all);
    Loaded { logs, legacy: false, skipped, torn, unread: false }
}

/// Whether the last line of a file is not complete, so that the next one must
/// not be appended to it. A file in the older format has no lines.
pub fn is_torn(contents: &str) -> (torn: bool)
    ensures
        torn == (!is_legacy(contents@) && !complete(contents@)),
        forall|reading: Reading| torn == (#[trigger] parsed(contents@, reading)).torn,
{
    if starts_with(contents.trim_start(), '[') {
        return false;
    }
    let last = last_piece(contents, '\n');
    !last.as_str().trim().is_empty()
}

/// Parses either format: the legacy JSON array or NDJSON.
///
/// `decode` reads the log in one line of NDJSON.
pub fn parse(contents: &str, decode: impl Fn(&str) -> Option<FailedLog>) -> (loaded: Loaded)
    requires
        forall|line: &str| #[trigger] call_requires(decode, (line,)),
    ensures
        is_legacy(contents@) ==> loaded@ == legacy_loaded(
            crate::json::pairs_in(crate::text::trim_start(contents@)),
        ),
        !is_legacy(contents@) ==> exists|records: Seq<Option<FailedLog>>| #[trigger]
            all_decoded(decode, crate::text::fields(contents@, '\n'), records) && loaded@
                == records_loaded(record_views(records), !complete(contents@)),
        forall|reading: Reading| #[trigger]
            follows(decode, reading) ==> loaded@ == parsed(contents@, reading),
{
    let trimmed = contents.trim_start();
    if starts_with(trimmed, '[') {
        return from_legacy(read_pairs(trimmed));
    }
    let lines = split_fields(contents, '\n');
    let ghost texts = crate::text::fields(contents@, '\n');
    let mut records: Vec<Option<FailedLog>> = Vec::new();
    let mut i: usize = 0;
    while i < lines.len()
        invariant
            i <= lines.len(),
            texts == crate::text::views(lines@),
            records@.len() == i,
            forall|line: &str| #[trigger] call_requires(decode, (line,)),
            forall|k: int| 0 <= k < i ==> decoded(decode, #[trigger] texts[k], records@[k]),
        decreases lines.len() - i,
    {
        let record = decode(lines[i].as_str());
        assert(decoded(decode, texts[i as int], record));
        records.push(record);
        i += 1;
    }
    assert(all_decoded(decode, texts, records@));
    assert forall|reading: Reading| #[trigger] follows(decode, reading) implies record_views(
        records@,
    ) == texts.map_values(reading) by {
        assert forall|k: int| 0 <= k < texts.len() implies record_view(#[trigger] records@[k])
            == reading(texts[k]) by {
            assert(decoded(decode, texts[k], records@[k]));
        }
        assert(record_views(records@) =~= texts.map_values(reading));
    }
    from_records(records, is_torn(contents))
}

/// What came of reading the file.
pub enum FileRead {
    Contents(String),
    Missing,
    /// The file is there and could not be read.
    Unreadable,
}

/// Nothing was read, because there is no file or because it cannot be read.
pub open spec fn nothing_loaded(unread: bool) -> LoadedView {
    LoadedView { logs: Seq::empty(), legacy: false, skipped: 0, torn: false, unread }
}

fn nothing_read(unread: bool) -> (loaded: Loaded)
    ensures
        loaded@ == nothing_loaded(unread),
{
    let loaded = Loaded { logs: Vec::new(), legacy: false, skipped: 0, torn: false, unread };
    assert(loaded@ =~= nothing_loaded(unread));
    loaded
}

/// Reads the logs back at startup. Without a file, or with one that cannot be
/// read, there are none.
pub fn load(read: FileRead, decode: impl Fn(&str) -> Option<FailedLog>) -> (loaded: Loaded)
    requires
        forall|line: &str| #[trigger] call_requires(decode, (line,)),
    ensures
        (match read {
            FileRead::Contents(contents) => {
                &&& is_legacy(contents@) ==> loaded@ == legacy_loaded(
                    crate::json::pairs_in(crate::text::trim_start(contents@)),
                )
                &&& !is_legacy(contents@) ==> exists|records: Seq<Option<FailedLog>>| #[trigger]
                    all_decoded(decode, crate::text::fields(contents@, '\n'), records) && loaded@
                        == records_loaded(record_views(records), !complete(contents@))
                &&& forall|reading: Reading| #[trigger]
                    follows(decode, reading) ==> loaded@ == restored(Some(contents@), reading)
            },
            FileRead::Missing => loaded@ == nothing_loaded(false),
            FileRead::Unreadable => loaded@ == nothing_loaded(true),
        }),
{
    match read {
        FileRead::Contents(contents) => parse(&contents, decode),
        FileRead::Missing => nothing_read(false),
        FileRead::Unreadable => nothing_read(true),
    }
}

// ---- the file reads back -------------------------------------------------

/// What is read from a file that may be missing.
pub open spec fn restored(file: Option<Seq<char>>, reading: Reading) -> LoadedView {
    match file {
        Some(contents) => parsed(contents, reading),
        None => nothing_loaded(false),
    }
}

/// `reading` gives back each of the logs from its own line.
pub open spec fn reads_back(reading: Reading, logs: Seq<FailedLogView>) -> bool {
    forall|i: int| 0 <= i < logs.len() ==> reading(line(#[trigger] logs[i])) == Some(logs[i])
}

/// The file ends where a new line can be appended to it: nothing but white
/// space stands behind its last line feed.
pub open spec fn complete(contents: Seq<char>) -> bool {
    crate::text::trim(crate::text::split(contents, '\n').last()).len() == 0
}

/// A file that is empty or ends with a line feed is complete.
pub proof fn lemma_ended_file_is_complete(contents: Seq<char>)
    requires
        contents.len() == 0 || contents.last() == '\n',
    ensures
        complete(contents),
{
    let empty = Seq::<char>::empty();
    assert(crate::text::trim(empty) == empty);
    assert(crate::text::split(contents, '\n').last() == empty);
}

proof fn lemma_readable_add(a: Seq<Option<FailedLogView>>, b: Seq<Option<FailedLogView>>)
    ensures
        readable(a + b) == readable(a) + readable(b),
        readable(a).len() <= a.len(),
{
    let f = |record: Option<FailedLogView>| record;
    crate::text::lemma_filter_map_add(a, b, f);
    crate::text::lemma_filter_map_len(a, f);
}

/// A complete part of a file and the rest are read one after the other.
proof fn lemma_parsed_add(contents: Seq<char>, rest: Seq<char>, reading: Reading)
    requires
        complete(contents),
        !is_legacy(contents),
        !is_legacy(rest),
    ensures
        parsed(contents + rest, reading) == (LoadedView {
            logs: parsed(contents, reading).logs + parsed(rest, reading).logs,
            legacy: false,
            skipped: parsed(contents, reading).skipped + parsed(rest, reading).skipped,
            torn: parsed(rest, reading).torn,
            unread: false,
        }),
{
    crate::text::lemma_trim_start_add(contents, rest);
    let a = crate::text::fields(contents, '\n');
    let b = crate::text::fields(rest, '\n');
    crate::text::lemma_fields_add(contents, rest, '\n');
    assert((a + b).map_values(reading) =~= a.map_values(reading) + b.map_values(reading));
    lemma_readable_add(a.map_values(reading), b.map_values(reading));
    lemma_readable_add(b.map_values(reading), Seq::empty());
}

/// The line of a log is one line of the file.
proof fn lemma_line_is_a_field(log: FailedLogView)
    requires
        crate::json::one_line(line(log)),
    ensures
        crate::text::fields(line(log) + "\n"@, '\n') == seq![line(log)],
        !is_legacy(line(log) + "\n"@),
{
    reveal_strlit("{\"url\":");
    reveal_strlit("}");
    reveal_strlit("\n");
    let s = line(log);
    assert(s[0] == '{');
    assert(s.last() == '}');
    assert(crate::text::trim_start(s) == s);
    assert((s + "\n"@)[0] == '{');
    assert(crate::text::trim_start(s + "\n"@) == s + "\n"@);
    assert(forall|i: int| 0 <= i < s.len() ==> s[i] != '\n');
    assert(s + "\n"@ =~= s.push('\n'));
    crate::text::lemma_fields_of_line(s, '\n');
}

/// A line feed behind a file completes its last line and adds nothing.
proof fn lemma_completed_file(contents: Seq<char>, reading: Reading)
    requires
        !is_legacy(contents),
    ensures
        parsed(contents + "\n"@, reading) == (LoadedView {
            torn: false,
            ..parsed(contents, reading)
        }),
        complete(contents + "\n"@),
        !is_legacy(contents + "\n"@),
{
    reveal_strlit("\n");
    assert(contents + "\n"@ =~= contents.push('\n'));
    crate::text::lemma_fields_push_separator(contents, '\n');
    crate::text::lemma_trim_start_add(contents, "\n"@);
    lemma_ended_file_is_complete(contents + "\n"@);
    let feed = "\n"@;
    assert(feed.drop_first() =~= Seq::empty());
    assert(crate::text::trim_start(feed.drop_first()) == feed.drop_first());
    assert(crate::text::trim_start(feed).len() == 0);
}

proof fn lemma_appended_to_complete_file(
    contents: Seq<char>,
    log: FailedLogView,
    reading: Reading,
)
    requires
        complete(contents),
        !is_legacy(contents),
        crate::json::one_line(line(log)),
        reading(line(log)) == Some(log),
    ensures
        parsed(contents + (line(log) + "\n"@), reading) == with_log(parsed(contents, reading), log),
        complete(contents + (line(log) + "\n"@)),
        !is_legacy(contents + (line(log) + "\n"@)),
{
    reveal_strlit("\n");
    let added = line(log) + "\n"@;
    lemma_line_is_a_field(log);
    lemma_parsed_add(contents, added, reading);
    let records = seq![line(log)].map_values(reading);
    assert(records =~= seq![Some(log)]);
    reveal_with_fuel(Seq::filter_map, 2);
    assert(readable(records) =~= seq![log]);
    assert(parsed(contents, reading).logs + seq![log] =~= parsed(contents, reading).logs.push(log));
    crate::text::lemma_trim_start_add(contents, added);
    lemma_ended_file_is_complete(added);
    lemma_ended_file_is_complete(contents + added);
}

/// Appending a log to a file adds that log to what the file holds, and changes
/// nothing else, even where the last line of the file was cut short: `torn` is
/// set at least there.
pub proof fn law_appended_log_is_read_back(
    contents: Seq<char>,
    log: FailedLogView,
    torn: bool,
    reading: Reading,
)
    requires
        complete(contents) || torn,
        !is_legacy(contents),
        crate::json::one_line(line(log)),
        reading(line(log)) == Some(log),
    ensures
        parsed(contents + appended(log, torn), reading) == with_log(parsed(contents, reading), log),
        complete(contents + appended(log, torn)),
        !is_legacy(contents + appended(log, torn)),
{
    let added = line(log) + "\n"@;
    if torn {
        lemma_completed_file(contents, reading);
        lemma_appended_to_complete_file(contents + "\n"@, log, reading);
        assert(contents + appended(log, torn) =~= contents + "\n"@ + added);
    } else {
        lemma_appended_to_complete_file(contents, log, reading);
        assert(contents + appended(log, torn) =~= contents + added);
    }
}

/// A file that was compacted from a queue is read back as that queue: every
/// log, in order, none twice, and nothing skipped.
pub proof fn law_compacted_file_reads_back(logs: Seq<FailedLogView>, reading: Reading)
    requires
        forall|i: int| 0 <= i < logs.len() ==> crate::json::one_line(line(#[trigger] logs[i])),
        reads_back(reading, logs),
    ensures
        restored(compacted(logs), reading) == exactly(logs),
{
    if logs.len() == 0 {
        assert(logs =~= Seq::empty());
    } else {
        lemma_file_text_reads_back(logs, reading);
    }
}

/// An empty file holds nothing.
pub proof fn lemma_empty_file(reading: Reading)
    ensures
        parsed(Seq::empty(), reading) == nothing_loaded(false),
        !is_legacy(Seq::empty()),
{
    lemma_ended_file_is_complete(Seq::empty());
    crate::text::lemma_fields_of_nothing('\n');
    let none = Seq::<Seq<char>>::empty().map_values(reading);
    assert(none =~= Seq::empty());
    assert(readable(none) =~= Seq::empty());
}

proof fn lemma_file_text_reads_back(logs: Seq<FailedLogView>, reading: Reading)
    requires
        forall|i: int| 0 <= i < logs.len() ==> crate::json::one_line(line(#[trigger] logs[i])),
        reads_back(reading, logs),
    ensures
        parsed(file_text(logs), reading) == exactly(logs),
        complete(file_text(logs)),
        !is_legacy(file_text(logs)),
    decreases logs.len(),
{
    if logs.len() == 0 {
        lemma_empty_file(reading);
        assert(logs =~= Seq::empty());
    } else {
        let before = logs.drop_last();
        let log = logs.last();
        assert(log == logs[logs.len() - 1]);
        assert forall|i: int| 0 <= i < before.len() implies crate::json::one_line(
            line(#[trigger] before[i]),
        ) && reading(line(before[i])) == Some(before[i]) by {
            assert(before[i] == logs[i]);
        }
        lemma_file_text_reads_back(before, reading);
        lemma_appended_to_complete_file(file_text(before), log, reading);
        assert(file_text(logs) =~= file_text(before) + (line(log) + "\n"@));
        assert(before.push(log) =~= logs);
    }
}

/// A last line that a crash cut short costs that line alone: every log before
/// it is read back, and one unreadable line is counted.
pub proof fn law_torn_last_line_is_skipped(
    contents: Seq<char>,
    torn: Seq<char>,
    reading: Reading,
)
    requires
        complete(contents),
        !is_legacy(contents),
        !torn.contains('\n'),
        !is_legacy(torn),
        crate::text::trim(torn).len() > 0,
        reading(crate::text::trim(torn)) is None,
    ensures
        parsed(contents + torn, reading) == (LoadedView {
            skipped: parsed(contents, reading).skipped + 1,
            torn: true,
            ..parsed(contents, reading)
        }),
{
    lemma_parsed_add(contents, torn, reading);
    assert(torn.len() > 0) by {
        if torn.len() == 0 {
            assert(crate::text::trim(torn) == torn);
        }
    }
    assert(torn.contains(torn.last()));
    assert(forall|i: int| 0 <= i < torn.len() ==> torn[i] != '\n');
    crate::text::lemma_split_without(torn, '\n');
    reveal_with_fuel(Seq::filter_map, 2);
    assert(crate::text::fields(torn, '\n') =~= seq![crate::text::trim(torn)]);
    assert(crate::text::fields(torn, '\n').map_values(reading) =~= seq![None]);
    assert(parsed(torn, reading).logs =~= Seq::empty());
    assert(parsed(contents, reading).logs + Seq::<FailedLogView>::empty()
        =~= parsed(contents, reading).logs);
}

proof fn lemma_cut_line(contents: Seq<char>, log: FailedLogView, n: int, reading: Reading)
    requires
        complete(contents),
        !is_legacy(contents),
        0 <= n <= (line(log) + "\n"@).len(),
    ensures
        ({
            let before = parsed(contents, reading);
            let after = parsed(contents + (line(log) + "\n"@).take(n), reading);
            &&& !after.legacy
            &&& !after.unread
            &&& before.logs.is_prefix_of(after.logs)
            &&& crate::json::one_line(line(log)) ==> after.logs.len() + after.skipped
                <= before.logs.len() + before.skipped + 1
            &&& crate::json::one_line(line(log)) && reading(line(log)) == Some(log) && n >= line(
                log,
            ).len() ==> after.logs == before.logs.push(log) && after.skipped == before.skipped
        }),
{
    reveal_strlit("{\"url\":");
    reveal_strlit("}");
    reveal_strlit("\n");
    let s = line(log);
    let added = s + "\n"@;
    let rest = added.take(n);
    assert(added[0] == '{');
    if n > 0 {
        assert(rest[0] == '{');
    }
    assert(crate::text::trim_start(rest) == rest);
    lemma_parsed_add(contents, rest, reading);
    law_every_line_is_accounted_for(rest, reading);
    if crate::json::one_line(s) {
        if n <= s.len() {
            assert(rest =~= s.take(n));
            crate::text::lemma_split_without(rest, '\n');
            crate::text::lemma_filter_map_len(
                seq![rest],
                |piece: Seq<char>| crate::text::field(piece),
            );
        } else {
            assert(rest =~= added);
            lemma_line_is_a_field(log);
        }
        if reading(s) == Some(log) && n >= s.len() {
            if n == s.len() {
                assert(rest =~= s);
                lemma_line_is_a_field(log);
                crate::text::lemma_fields_push_separator(s, '\n');
                assert(added =~= s.push('\n'));
            }
            assert(crate::text::fields(rest, '\n') == seq![s]);
            let records = seq![s].map_values(reading);
            assert(records =~= seq![Some(log)]);
            reveal_with_fuel(Seq::filter_map, 2);
            assert(readable(records) =~= seq![log]);
            assert(parsed(contents, reading).logs + seq![log] =~= parsed(
                contents,
                reading,
            ).logs.push(log));
        }
    }
}

/// Wherever a crash cuts off what is appended for a log, that costs at most
/// this log: every log that the file held is still read back, in its place,
/// and at most one line more is read or skipped. Once the line is there, with
/// or without its line feed, not even this log is lost.
pub proof fn law_cut_append_costs_that_log_alone(
    contents: Seq<char>,
    log: FailedLogView,
    torn: bool,
    k: int,
    reading: Reading,
)
    requires
        complete(contents) || torn,
        !is_legacy(contents),
        0 <= k <= appended(log, torn).len(),
    ensures
        ({
            let before = parsed(contents, reading);
            let after = parsed(contents + appended(log, torn).take(k), reading);
            &&& !after.legacy
            &&& !after.unread
            &&& before.logs.is_prefix_of(after.logs)
            &&& crate::json::one_line(line(log)) ==> after.logs.len() + after.skipped
                <= before.logs.len() + before.skipped + 1
            &&& crate::json::one_line(line(log)) && reading(line(log)) == Some(log) && k
                >= appended(log, torn).len() - 1 ==> after.logs == before.logs.push(log)
                && after.skipped == before.skipped
        }),
{
    reveal_strlit("\n");
    let added = line(log) + "\n"@;
    if !torn {
        assert(appended(log, torn) =~= added);
        lemma_cut_line(contents, log, k, reading);
    } else if k == 0 {
        reveal_strlit("}");
        assert(contents + appended(log, torn).take(k) =~= contents);
    } else {
        lemma_completed_file(contents, reading);
        lemma_cut_line(contents + "\n"@, log, k - 1, reading);
        assert(contents + appended(log, torn).take(k) =~= contents + "\n"@ + added.take(k - 1));
    }
}

/// After a crash in the middle of a line, the next log is not drawn into the
/// loss: it is read back, behind everything that was complete, and only the
/// line that was cut short is skipped.
pub proof fn law_log_after_torn_line_is_read_back(
    contents: Seq<char>,
    torn: Seq<char>,
    log: FailedLogView,
    reading: Reading,
)
    requires
        complete(contents),
        !is_legacy(contents),
        !torn.contains('\n'),
        !is_legacy(torn),
        crate::text::trim(torn).len() > 0,
        reading(crate::text::trim(torn)) is None,
        crate::json::one_line(line(log)),
        reading(line(log)) == Some(log),
    ensures
        parsed(contents + torn, reading).torn,
        parsed(contents + torn + appended(log, true), reading) == (LoadedView {
            logs: parsed(contents, reading).logs.push(log),
            legacy: false,
            skipped: parsed(contents, reading).skipped + 1,
            torn: false,
            unread: false,
        }),
{
    law_torn_last_line_is_skipped(contents, torn, reading);
    crate::text::lemma_trim_start_add(contents, torn);
    law_appended_log_is_read_back(contents + torn, log, true, reading);
}

/// Migrating a file in the older format loses nothing: the file that is
/// compacted from its logs holds the same logs, in the same order, as NDJSON.
pub proof fn law_migrated_file_holds_the_same_logs(contents: Seq<char>, reading: Reading)
    requires
        is_legacy(contents),
        forall|i: int|
            0 <= i < parsed(contents, reading).logs.len() ==> crate::json::one_line(
                line(#[trigger] parsed(contents, reading).logs[i]),
            ),
        reads_back(reading, parsed(contents, reading).logs),
    ensures
        parsed(contents, reading).legacy,
        restored(compacted(parsed(contents, reading).logs), reading) == exactly(
            parsed(contents, reading).logs,
        ),
{
    law_compacted_file_reads_back(parsed(contents, reading).logs, reading);
}

/// Every line that is not blank is either read as a log or counted as
/// skipped.
pub proof fn law_every_line_is_accounted_for(contents: Seq<char>, reading: Reading)
    requires
        !is_legacy(contents),
    ensures
        parsed(contents, reading).logs.len() + parsed(contents, reading).skipped
            == crate::text::fields(contents, '\n').len(),
{
    lemma_readable_add(crate::text::fields(contents, '\n').map_values(reading), Seq::empty());
}

// ---- what a line tells ---------------------------------------------------

/// The view of a log holds its whole URL and the compact text of its body, and
/// the views of a queue are those of its logs, each in its place.
pub proof fn law_views_are_the_logs(logs: Seq<FailedLog>, log: FailedLog)
    ensures
        log@.url == log.url@,
        log@.body == crate::json::value_text(log.body),
        log_views(logs).len() == logs.len(),
        forall|i: int| 0 <= i < logs.len() ==> #[trigger] log_views(logs)[i] == logs[i]@,
{
}

/// The line of a log is the JSON object with the members `url` and `body`, in
/// this order: the JSON string of the whole URL, and the compact text of the
/// body as it is. An ordinary URL stands in it literally.
pub proof fn law_line_is_the_json_object(log: FailedLogView)
    ensures
        line(log) == seq!['{', '"', 'u', 'r', 'l', '"', ':'] + crate::json::string_text(log.url)
            + seq![',', '"', 'b', 'o', 'd', 'y', '"', ':'] + log.body + seq!['}'],
        (forall|i: int|
            0 <= i < log.url.len() ==> (#[trigger] log.url[i]) as u32 >= 0x20 && log.url[i] != '"'
                && log.url[i] != '\\') ==> line(log) == seq!['{', '"', 'u', 'r', 'l', '"', ':', '"']
            + log.url + seq!['"', ',', '"', 'b', 'o', 'd', 'y', '"', ':'] + log.body + seq!['}'],
{
    reveal_strlit("{\"url\":");
    reveal_strlit(",\"body\":");
    reveal_strlit("}");
    assert(line(log) =~= seq!['{', '"', 'u', 'r', 'l', '"', ':'] + crate::json::string_text(log.url)
        + seq![',', '"', 'b', 'o', 'd', 'y', '"', ':'] + log.body + seq!['}']);
    if forall|i: int|
        0 <= i < log.url.len() ==> (#[trigger] log.url[i]) as u32 >= 0x20 && log.url[i] != '"'
            && log.url[i] != '\\' {
        crate::json::law_plain_string_stands_as_it_is(log.url);
        assert(line(log) =~= seq!['{', '"', 'u', 'r', 'l', '"', ':', '"'] + log.url + seq![
            '"',
            ',',
            '"',
            'b',
            'o',
            'd',
            'y',
            '"',
            ':',
        ] + log.body + seq!['}']);
    }
}

/// The line that is written tells the whole log: two logs with the same line
/// have the same URL and the same body.
pub proof fn law_line_determines_the_log(log: FailedLogView, other: FailedLogView)
    requires
        line(log) == line(other),
    ensures
        log.url == other.url,
        log.body == other.body,
        log == other,
{
    law_line_is_the_json_object(log);
    law_line_is_the_json_object(other);
    let key = seq![',', '"', 'b', 'o', 'd', 'y', '"', ':'];
    let r = key + log.body + seq!['}'];
    let t = key + other.body + seq!['}'];
    assert(line(log).skip(7) =~= crate::json::string_text(log.url) + r);
    assert(line(other).skip(7) =~= crate::json::string_text(other.url) + t);
    crate::json::law_string_is_read_back(log.url, other.url, r, t);
    assert(log.body =~= r.subrange(8, r.len() - 1));
    assert(other.body =~= t.subrange(8, t.len() - 1));
}

/// The log in a line: the one log that is written as this line, if there is
/// one.
pub open spec fn log_in(text: Seq<char>) -> Option<FailedLogView> {
    if exists|log: FailedLogView| #[trigger] line(log) == text {
        Some(choose|log: FailedLogView| #[trigger] line(log) == text)
    } else {
        None
    }
}

/// `reading` gives back every log from its own line.
pub open spec fn tells_every_log(reading: Reading) -> bool {
    forall|log: FailedLogView| reading(#[trigger] line(log)) == Some(log)
}

/// Every log can be told from its own line: there is one way of reading lines
/// that gives back each log, whatever its URL and its body.
pub proof fn law_every_log_is_told_from_its_line()
    ensures
        forall|log: FailedLogView| log_in(#[trigger] line(log)) == Some(log),
        exists|reading: Reading| #[trigger] tells_every_log(reading),
        forall|reading: Reading, logs: Seq<FailedLogView>|
            tells_every_log(reading) ==> #[trigger] reads_back(reading, logs),
{
    assert forall|log: FailedLogView| log_in(#[trigger] line(log)) == Some(log) by {
        let found = choose|other: FailedLogView| #[trigger] line(other) == line(log);
        law_line_determines_the_log(found, log);
    }
    let reading: Reading = |text: Seq<char>| log_in(text);
    assert forall|log: FailedLogView| reading(#[trigger] line(log)) == Some(log) by {
        assert(log_in(line(log)) == Some(log));
    }
    assert(tells_every_log(reading));
}

/// A queue survives a restart whole: the file that is compacted from it holds
/// every one of its logs, with URL and body, in order and nothing else. This
/// depends on no property of the logs.
pub proof fn law_compacted_queue_survives_a_restart(
    compaction: Compaction,
    logs: Seq<FailedLogView>,
    unread: bool,
)
    requires
        stores(compaction, logs, unread),
    ensures
        logs.len() == 0 <==> compaction is Keep || compaction is Remove,
        unread <==> compaction is Keep || compaction is SetAside,
        compaction matches Compaction::Rewrite(text) ==> parsed(
            text@,
            |line: Seq<char>| log_in(line),
        ) == (LoadedView { logs, legacy: false, skipped: 0, torn: false, unread: false }),
        compaction matches Compaction::SetAside(text) ==> parsed(
            text@,
            |line: Seq<char>| log_in(line),
        ) == (LoadedView { logs, legacy: false, skipped: 0, torn: false, unread: false }),
{
    let reading: Reading = |line: Seq<char>| log_in(line);
    law_every_log_is_told_from_its_line();
    assert(reads_back(reading, logs));
}

/// The file that is compacted from a queue tells the whole queue: two queues
/// with the same file are the same.
pub proof fn law_compacted_file_determines_the_queue(
    compaction: Compaction,
    logs: Seq<FailedLogView>,
    other: Seq<FailedLogView>,
    unread: bool,
)
    requires
        stores(compaction, logs, unread),
        stores(compaction, other, unread),
    ensures
        logs == other,
{
    law_compacted_queue_survives_a_restart(compaction, logs, unread);
    law_compacted_queue_survives_a_restart(compaction, other, unread);
    if logs.len() == 0 {
        assert(logs =~= other);
    }
}

/// A log that is appended survives a restart whole, behind every log that the
/// file held. This depends on no property of the log but that its text is one
/// line, which holds of every log.
pub proof fn law_appended_log_survives_a_restart(
    contents: Seq<char>,
    log: FailedLogView,
    torn: bool,
)
    requires
        complete(contents) || torn,
        !is_legacy(contents),
        crate::json::one_line(line(log)),
    ensures
        ({
            let reading: Reading = |line: Seq<char>| log_in(line);
            let before = parsed(contents, reading);
            let after = parsed(contents + appended(log, torn), reading);
            &&& after.logs == before.logs.push(log)
            &&& after.skipped == before.skipped
            &&& !after.legacy && !after.torn && !after.unread
        }),
{
    let reading: Reading = |line: Seq<char>| log_in(line);
    law_every_log_is_told_from_its_line();
    assert(reading(line(log)) == Some(log));
    law_appended_log_is_read_back(contents, log, torn, reading);
}

/// The text of a compacted file is that of its logs, one behind the other,
/// each with a line feed.
pub proof fn law_file_text_is_line_by_line(logs: Seq<FailedLogView>, log: FailedLogView)
    ensures
        file_text(Seq::empty()) == Seq::<char>::empty(),
        file_text(logs.push(log)) == file_text(logs) + line(log) + seq!['\n'],
        appended(log, false) == line(log) + seq!['\n'],
        appended(log, true) == seq!['\n'] + line(log) + seq!['\n'],
{
    reveal_strlit("\n");
    assert("\n"@ =~= seq!['\n']);
    assert(logs.push(log).drop_last() =~= logs);
    assert(appended(log, false) =~= line(log) + seq!['\n']);
    assert(appended(log, true) =~= seq!['\n'] + line(log) + seq!['\n']);
}

// ---- how a file is read --------------------------------------------------

/// A file is read line by line: what stands behind a line feed is read after
/// what stands before it, and adds to it.
pub proof fn law_lines_are_read_one_after_the_other(
    contents: Seq<char>,
    rest: Seq<char>,
    reading: Reading,
)
    requires
        contents.len() > 0 && contents.last() == '\n',
        !is_legacy(contents),
        !is_legacy(rest),
    ensures
        !is_legacy(contents + rest),
        parsed(contents + rest, reading).logs == parsed(contents, reading).logs + parsed(
            rest,
            reading,
        ).logs,
        parsed(contents + rest, reading).skipped == parsed(contents, reading).skipped + parsed(
            rest,
            reading,
        ).skipped,
        parsed(contents + rest, reading).torn == parsed(rest, reading).torn,
        !parsed(contents + rest, reading).legacy,
        !parsed(contents + rest, reading).unread,
{
    lemma_ended_file_is_complete(contents);
    lemma_parsed_add(contents, rest, reading);
    crate::text::lemma_trim_start_add(contents, rest);
}

/// One line of a file is the log that its trimmed text is read as; if it
/// cannot be read it is counted; and a blank line is nothing. With or without
/// a line feed behind it, only that makes a difference.
pub proof fn law_one_line_is_one_log(text: Seq<char>, reading: Reading)
    requires
        !text.contains('\n'),
        !is_legacy(text),
    ensures
        parsed(text, reading).logs == (if crate::text::trim(text).len() == 0 {
            Seq::empty()
        } else {
            match reading(crate::text::trim(text)) {
                Some(log) => seq![log],
                None => Seq::empty(),
            }
        }),
        parsed(text, reading).skipped == (if crate::text::trim(text).len() > 0 && reading(
            crate::text::trim(text),
        ) is None {
            1nat
        } else {
            0
        }),
        parsed(text, reading).torn <==> crate::text::trim(text).len() > 0,
        parsed(text + seq!['\n'], reading) == (LoadedView { torn: false, ..parsed(text, reading) }),
{
    reveal_strlit("\n");
    assert("\n"@ =~= seq!['\n']);
    lemma_completed_file(text, reading);
    crate::text::law_items_are_the_trimmed_pieces(Seq::empty(), text, '\n');
    assert forall|i: int| 0 <= i < text.len() implies text[i] != '\n' by {
        assert(text.contains(text[i]));
    }
    crate::text::lemma_split_without(text, '\n');
    let trimmed = crate::text::trim(text);
    let records = crate::text::fields(text, '\n').map_values(reading);
    reveal_with_fuel(Seq::filter_map, 2);
    if trimmed.len() == 0 {
        assert(records =~= Seq::empty());
        assert(readable(records) =~= Seq::empty());
    } else {
        assert(records =~= seq![reading(trimmed)]);
        match reading(trimmed) {
            Some(log) => {
                assert(readable(records) =~= seq![log]);
            },
            None => {
                assert(readable(records) =~= Seq::empty());
            },
        }
    }
}

/// A file is in the older format exactly when its first character that is not
/// white space opens an array.
pub proof fn law_older_format_starts_with_an_array(blank: Seq<char>, c: char, rest: Seq<char>)
    requires
        forall|i: int| 0 <= i < blank.len() ==> crate::text::is_space(#[trigger] blank[i]),
        !crate::text::is_space(c),
    ensures
        is_legacy(blank + seq![c] + rest) <==> c == '[',
        !is_legacy(blank),
    decreases blank.len(),
{
    let whole = blank + seq![c] + rest;
    if blank.len() > 0 {
        let fewer = blank.drop_first();
        assert forall|i: int| 0 <= i < fewer.len() implies crate::text::is_space(
            #[trigger] fewer[i],
        ) by {
            assert(fewer[i] == blank[i + 1]);
        }
        law_older_format_starts_with_an_array(fewer, c, rest);
        assert(whole[0] == blank[0]);
        assert(whole.drop_first() =~= fewer + seq![c] + rest);
    } else {
        assert(whole[0] == c);
    }
}

/// Every pair of a file in the older format is a log, body first and URL
/// second, in the same order; and a file in that format that is not valid
/// gives none, is counted once and counts as not read.
pub proof fn law_older_pairs_are_logs(pairs: Seq<(Seq<char>, Seq<char>)>)
    ensures
        legacy_loaded(Some(pairs)).logs.len() == pairs.len(),
        forall|i: int|
            0 <= i < pairs.len() ==> (#[trigger] legacy_loaded(Some(pairs)).logs[i]).url
                == pairs[i].1 && legacy_loaded(Some(pairs)).logs[i].body == pairs[i].0,
        legacy_loaded(Some(pairs)).legacy && legacy_loaded(Some(pairs)).skipped == 0
            && !legacy_loaded(Some(pairs)).torn && !legacy_loaded(Some(pairs)).unread,
        legacy_loaded(None).logs.len() == 0 && legacy_loaded(None).legacy
            && legacy_loaded(None).skipped == 1 && !legacy_loaded(None).torn
            && legacy_loaded(None).unread,
{
}

/// Which format a file is in decides how it is read: as an array behind its
/// white space, or line by line.
pub proof fn law_format_decides_the_reading(contents: Seq<char>, reading: Reading)
    ensures
        is_legacy(contents) ==> parsed(contents, reading) == legacy_loaded(
            crate::json::pairs_in(crate::text::trim_start(contents)),
        ),
        !is_legacy(contents) ==> !parsed(contents, reading).legacy && !parsed(
            contents,
            reading,
        ).unread,
{
}

/// Without a file nothing is read, and with one that cannot be read nothing
/// either, which is remembered.
pub proof fn law_nothing_is_read_from_no_file(reading: Reading)
    ensures
        nothing_loaded(false) == (LoadedView {
            logs: Seq::empty(),
            legacy: false,
            skipped: 0,
            torn: false,
            unread: false,
        }),
        nothing_loaded(true) == (LoadedView {
            logs: Seq::empty(),
            legacy: false,
            skipped: 0,
            torn: false,
            unread: true,
        }),
        restored(None, reading) == nothing_loaded(false),
        forall|contents: Seq<char>| #[trigger]
            restored(Some(contents), reading) == parsed(contents, reading),
{
}

/// The last line of a file is complete exactly when nothing but white space
/// stands behind the last line feed, or in the whole file where there is none.
pub proof fn law_last_line_is_complete_or_blank(ended: Seq<char>, tail: Seq<char>)
    requires
        ended.len() == 0 || ended.last() == '\n',
        !tail.contains('\n'),
    ensures
        complete(ended + tail) <==> crate::text::trim(tail).len() == 0,
{
    lemma_ended_file_is_complete(ended);
    assert forall|i: int| 0 <= i < tail.len() implies tail[i] != '\n' by {
        assert(tail.contains(tail[i]));
    }
    crate::text::lemma_split_without(tail, '\n');
    crate::text::lemma_fields_add(ended, tail, '\n');
}

/// What was read is seen as it is: every log in its place, and the four marks.
pub proof fn law_views_are_what_was_read(loaded: Loaded)
    ensures
        loaded@.logs.len() == loaded.logs@.len(),
        forall|i: int|
            0 <= i < loaded.logs@.len() ==> (#[trigger] loaded@.logs[i]).url
                == loaded.logs@[i].url@ && loaded@.logs[i].body == crate::json::value_text(
                loaded.logs@[i].body,
            ),
        loaded@.legacy == loaded.legacy,
        loaded@.skipped == loaded.skipped,
        loaded@.torn == loaded.torn,
        loaded@.unread == loaded.unread,
{
}

/// Each record stands for what was decoded from the line in its place: a log
/// stands for that log, whatever it holds, and nothing else for a log.
pub proof fn law_records_are_what_was_decoded<F: Fn(&str) -> Option<FailedLog>>(
    decode: F,
    lines: Seq<Seq<char>>,
    records: Seq<Option<FailedLog>>,
    reading: Reading,
)
    requires
        forall|line: &str, record: Option<FailedLog>| #[trigger]
            call_ensures(decode, (line,), record) ==> (match record {
                Some(log) => reading(line@) == Some(
                    FailedLogView { url: log.url@, body: crate::json::value_text(log.body) },
                ),
                None => reading(line@) is None,
            }),
    ensures
        follows(decode, reading),
        record_views(records).len() == records.len(),
        forall|i: int|
            0 <= i < records.len() ==> #[trigger] record_views(records)[i] == (match records[i] {
                Some(log) => Some(
                    FailedLogView { url: log.url@, body: crate::json::value_text(log.body) },
                ),
                None => None,
            }),
        all_decoded(decode, lines, records) ==> record_views(records) == lines.map_values(reading),
{
    if all_decoded(decode, lines, records) {
        assert forall|i: int| 0 <= i < lines.len() implies record_views(records)[i] == reading(
            #[trigger] lines[i],
        ) by {
            assert(decoded(decode, lines[i], records[i]));
        }
        assert(record_views(records) =~= lines.map_values(reading));
    }
}

}
