//! Paths that are recorded locally instead of being forwarded.
//!
//! Some logs are only useful on the box the game server runs on (audit
//! trails for admin actions, for example). Their paths are listed in the
//! configuration; such a log is appended, as one JSON line, to a daily file
//! and never sent to the panel.

use chrono::{FixedOffset, TimeZone};
use serde_json::Value;
use vstd::hash_set::StringHashSet;
use vstd::prelude::*;
use vstd::string::*;

use crate::json::{print_string, print_value};

verus! {

/// A point in time, as a clock at some place shows it.
#[derive(Clone, Copy, Debug, PartialEq, Eq)]
pub struct LocalTime {
    /// Seconds since the start of 1970, UTC.
    pub secs: i64,
    /// Nanoseconds since the last whole second.
    pub nanos: u32,
    /// How many seconds the clock is ahead of UTC.
    pub offset: i32,
}

impl LocalTime {
    /// The time lies between the years 1970 and 9999, and the clock is less
    /// than a day away from UTC.
    pub open spec fn ordinary(self) -> bool {
        &&& 0 <= self.secs < 253_402_214_400
        &&& self.nanos < 1_000_000_000
        &&& -86_400 < self.offset < 86_400
    }
}

/// A point in time in the format of RFC 3339, as `chrono` prints it; `None`
/// for a point in time or an offset that `chrono` cannot represent.
pub uninterp spec fn rfc3339(secs: i64, nanos: u32, offset: i32) -> Option<Seq<char>>;

/// The date of a point in time in the format `%Y-%m-%d`, as `chrono` prints
/// it; `None` for a point in time or an offset that `chrono` cannot represent.
pub uninterp spec fn date(secs: i64, nanos: u32, offset: i32) -> Option<Seq<char>>;

/// The characters of an optional string.
pub open spec fn opt_view(s: Option<String>) -> Option<Seq<char>> {
    match s {
        Some(text) => Some(text@),
        None => None,
    }
}

/// `s` is four digits, two digits and two digits, with hyphens between.
pub open spec fn is_dated(s: Seq<char>) -> bool {
    &&& s.len() == 10
    &&& s[4] == '-' && s[7] == '-'
    &&& forall|i: int| 0 <= i < 10 && i != 4 && i != 7 ==> crate::text::is_digit(#[trigger] s[i])
}

/// `chrono::DateTime::to_rfc3339`, of a point in time with a fixed offset. An
/// ordinary time can be represented. How the text is made up is not stated.
#[verifier::external_body]
fn print_timestamp(secs: i64, nanos: u32, offset: i32) -> (text: Option<String>)
    ensures
        opt_view(text) == rfc3339(secs, nanos, offset),
        (LocalTime { secs, nanos, offset }).ordinary() ==> text is Some,
{
    let time = FixedOffset::east_opt(offset)?.timestamp_opt(secs, nanos).single()?;
    Some(time.to_rfc3339())
}

/// `chrono::DateTime::format` with `%Y-%m-%d`, of a point in time with a fixed
/// offset. An ordinary time can be represented, and its year has four digits.
/// Which date a point in time falls on is not stated.
#[verifier::external_body]
fn print_date(secs: i64, nanos: u32, offset: i32) -> (text: Option<String>)
    ensures
        opt_view(text) == date(secs, nanos, offset),
        (LocalTime { secs, nanos, offset }).ordinary() ==> text is Some,
        (LocalTime { secs, nanos, offset }).ordinary() ==> is_dated(text->0@),
{
    let time = FixedOffset::east_opt(offset)?.timestamp_opt(secs, nanos).single()?;
    Some(time.format("%Y-%m-%d").to_string())
}

/// The directory of the local files.
pub const LOG_DIR: &'static str = "logs";

/// The name of the file for the logs of a day.
pub open spec fn file_name(day: Seq<char>) -> Seq<char> {
    LOG_DIR@ + "/local-"@ + day + ".log"@
}

/// The name of the file for the logs of a day.
pub fn log_file(day: &str) -> (name: String)
    ensures
        name@ == file_name(day@),
        name@ == "logs"@ + "/local-"@ + day@ + ".log"@,
{
    LOG_DIR.to_string().concat("/local-").concat(day).concat(".log")
}

/// The line that records a log: a JSON object with the body, given by its
/// compact text, the request path and the time of arrival, and a line feed.
pub open spec fn entry_line(timestamp: Seq<char>, path: Seq<char>, body: Seq<char>) -> Seq<char> {
    "{\"body\":"@ + body + ",\"path\":"@ + crate::json::string_text(path)
        + ",\"ts\":"@ + crate::json::string_text(timestamp) + "}\n"@
}

/// The line that records a log.
pub fn format_line(timestamp: &str, path: &str, body: &Value) -> (line: String)
    ensures
        line@ == entry_line(timestamp@, path@, crate::json::value_text(*body)),
        line@ == "{\"body\":"@ + crate::json::value_text(*body) + ",\"path\":"@
            + crate::json::string_text(path@) + ",\"ts\":"@ + crate::json::string_text(timestamp@)
            + "}\n"@,
        line@.last() == '\n',
        crate::json::one_line(line@.drop_last()),
{
    let body_text = print_value(body);
    let path_text = print_string(path);
    let time_text = print_string(timestamp);
    proof {
        reveal_strlit("{\"body\":");
        reveal_strlit(",\"path\":");
        reveal_strlit(",\"ts\":");
        reveal_strlit("}\n");
    }
    let line = "{\"body\":".to_string().concat(&body_text).concat(",\"path\":").concat(
        &path_text,
    );
    line.concat(",\"ts\":").concat(&time_text).concat("}\n")
}

/// What is appended to which file to record a log.
pub struct LocalEntry {
    pub file: String,
    pub line: String,
}

/// The request paths whose logs are recorded locally.
pub struct LocalLog {
    paths: StringHashSet,
}

impl View for LocalLog {
    type V = Set<Seq<char>>;

    closed spec fn view(&self) -> Set<Seq<char>> {
        self.paths@
    }
}

impl LocalLog {
    pub fn new(paths: Vec<String>) -> (local: Self)
        ensures
            local@ == crate::text::views(paths@).to_set(),
            forall|i: int| 0 <= i < paths@.len() ==> local@.contains((#[trigger] paths@[i])@),
            forall|path: Seq<char>| #[trigger]
                local@.contains(path) ==> exists|i: int|
                    0 <= i < paths@.len() && (#[trigger] paths@[i])@ == path,
    {
        let mut set = StringHashSet::new();
        assert(crate::text::views(paths@).take(0).to_set() =~= Set::empty());
        for path in it: paths
            invariant
                it.seq() == paths@,
                set@ == crate::text::views(paths@).take(it.index()).to_set(),
        {
            let ghost done = crate::text::views(paths@).take(it.index());
            let ghost more = crate::text::views(paths@).take(it.index() + 1);
            assert(more =~= done.push(path@));
            proof {
                lemma_push_to_set(done, path@);
            }
            set.insert(path);
        }
        assert(crate::text::views(paths@).take(paths@.len() as int) =~= crate::text::views(paths@));
        assert forall|i: int| 0 <= i < paths@.len() implies set@.contains(
            (#[trigger] paths@[i])@,
        ) by {
            assert(crate::text::views(paths@)[i] == paths@[i]@);
        }
        assert forall|path: Seq<char>| #[trigger] set@.contains(path) implies exists|i: int|
            0 <= i < paths@.len() && (#[trigger] paths@[i])@ == path by {
            let i = choose|i: int|
                0 <= i < paths@.len() && crate::text::views(paths@)[i] == path;
            assert(paths@[i]@ == path);
        }
        LocalLog { paths: set }
    }

    pub fn matches(&self, path: &str) -> (r: bool)
        ensures
            r == self@.contains(path@),
    {
        self.paths.contains(path)
    }

    /// The NDJSON line that records a log, and the file
    /// `logs/local-YYYY-MM-DD.log` that it is appended to; `None` for a time
    /// that has no date.
    pub fn record(&self, now: LocalTime, path: &str, body: &Value) -> (entry: Option<LocalEntry>)
        ensures
            (match (date(now.secs, now.nanos, now.offset), rfc3339(now.secs, now.nanos, now.offset)) {
                (Some(day), Some(timestamp)) => entry is Some && entry->0.file@ == file_name(day)
                    && entry->0.line@ == entry_line(
                        timestamp,
                        path@,
                        crate::json::value_text(*body),
                    ),
                _ => entry is None,
            }),
            entry matches Some(e) ==> e.line@.last() == '\n' && crate::json::one_line(
                e.line@.drop_last(),
            ),
            now.ordinary() ==> entry is Some,
            now.ordinary() ==> (exists|day: Seq<char>| #[trigger]
                is_dated(day) && entry->0.file@ == file_name(day)),
    {
        let day = print_date(now.secs, now.nanos, now.offset);
        let timestamp = print_timestamp(now.secs, now.nanos, now.offset);
        match (day, timestamp) {
            (Some(day), Some(timestamp)) => Some(
                LocalEntry { file: log_file(&day), line: format_line(&timestamp, path, body) },
            ),
            _ => None,
        }
    }
}

proof fn lemma_push_to_set(s: Seq<Seq<char>>, x: Seq<char>)
    ensures
        s.push(x).to_set() == s.to_set().insert(x),
{
    assert forall|y: Seq<char>| s.push(x).to_set().contains(y) == s.to_set().insert(x).contains(
        y,
    ) by {
        if s.contains(y) {
            let i = choose|i: int| 0 <= i < s.len() && s[i] == y;
            assert(s.push(x)[i] == y);
        }
        assert(s.push(x)[s.len() as int] == x);
    }
    assert(s.push(x).to_set() =~= s.to_set().insert(x));
}

// ---- what a record holds -------------------------------------------------

/// A recorded line is the JSON object with the members `body`, `path` and `ts`,
/// in this order, and a line feed: the compact text of the body stands in it
/// unchanged, whatever its length, then the whole path, then the whole time.
pub proof fn law_record_is_the_json_object(
    timestamp: Seq<char>,
    path: Seq<char>,
    body: Seq<char>,
)
    ensures
        ({
            let line = entry_line(timestamp, path, body);
            let behind = 8 + body.len() as int;
            let text = crate::json::string_text(path);
            &&& line.take(8) == seq!['{', '"', 'b', 'o', 'd', 'y', '"', ':']
            &&& line.subrange(8, behind) == body
            &&& line.skip(behind) == seq![',', '"', 'p', 'a', 't', 'h', '"', ':'] + text + seq![
                ',',
                '"',
                't',
                's',
                '"',
                ':',
            ] + crate::json::string_text(timestamp) + seq!['}', '\n']
        }),
{
    reveal_strlit("{\"body\":");
    reveal_strlit(",\"path\":");
    reveal_strlit(",\"ts\":");
    reveal_strlit("}\n");
    let line = entry_line(timestamp, path, body);
    let behind = 8 + body.len() as int;
    assert(line.take(8) =~= seq!['{', '"', 'b', 'o', 'd', 'y', '"', ':']);
    assert(line.subrange(8, behind) =~= body);
    assert(line.skip(behind) =~= seq![',', '"', 'p', 'a', 't', 'h', '"', ':']
        + crate::json::string_text(path) + seq![',', '"', 't', 's', '"', ':']
        + crate::json::string_text(timestamp) + seq!['}', '\n']);
}

/// A recorded line tells everything that was recorded: two records with the
/// same line have the same time, the same path and the same body.
pub proof fn law_line_determines_the_record(
    timestamp: Seq<char>,
    path: Seq<char>,
    body: Seq<char>,
    other_timestamp: Seq<char>,
    other_path: Seq<char>,
    other_body: Seq<char>,
)
    requires
        entry_line(timestamp, path, body) == entry_line(other_timestamp, other_path, other_body),
    ensures
        timestamp == other_timestamp,
        path == other_path,
        body == other_body,
{
    reveal_strlit("{\"body\":");
    reveal_strlit(",\"path\":");
    reveal_strlit(",\"ts\":");
    reveal_strlit("}\n");
    let line = entry_line(timestamp, path, body);
    let other = entry_line(other_timestamp, other_path, other_body);
    let a = "{\"body\":"@ + body + ",\"path\":"@;
    let b = "{\"body\":"@ + other_body + ",\"path\":"@;
    let c = a + crate::json::string_text(path) + ",\"ts\":"@;
    let d = b + crate::json::string_text(other_path) + ",\"ts\":"@;
    assert(c + crate::json::string_text(timestamp) =~= line.take(line.len() - 2));
    assert(d + crate::json::string_text(other_timestamp) =~= other.take(other.len() - 2));
    crate::json::law_last_string_is_read_back(c, d, timestamp, other_timestamp);
    assert(a + crate::json::string_text(path) =~= c.take(c.len() - 6));
    assert(b + crate::json::string_text(other_path) =~= d.take(d.len() - 6));
    crate::json::law_last_string_is_read_back(a, b, path, other_path);
    assert(body =~= a.subrange(8, a.len() - 8));
    assert(other_body =~= b.subrange(8, b.len() - 8));
}

/// The file of a day is `logs/local-`, the day and `.log`; two days never
/// share a file.
pub proof fn law_each_day_has_its_file(day: Seq<char>, other: Seq<char>)
    ensures
        file_name(day) == seq!['l', 'o', 'g', 's', '/', 'l', 'o', 'c', 'a', 'l', '-'] + day + seq![
            '.',
            'l',
            'o',
            'g',
        ],
        file_name(day) == file_name(other) ==> day == other,
{
    reveal_strlit("logs");
    reveal_strlit("/local-");
    reveal_strlit(".log");
    assert(file_name(day) =~= seq!['l', 'o', 'g', 's', '/', 'l', 'o', 'c', 'a', 'l', '-'] + day
        + seq!['.', 'l', 'o', 'g']);
    assert(day =~= file_name(day).subrange(11, file_name(day).len() - 4));
    assert(other =~= file_name(other).subrange(11, file_name(other).len() - 4));
}

}
