//! Capture from PostgreSQL's log in comma-separated values.

use crate::capture::entries::{build_workload, entry_views, log_workload, EntryView, LogEntry};
use crate::capture::error::{outcome, CaptureError, ErrorView};
use crate::capture::fraction::{fraction_value, parse_fraction};
use crate::capture::table::{
    csv_rows, field, field_or_empty, get_field, get_text, read_rows, row_view, row_views, RowModel,
};
use crate::capture::time::{
    either_datetime, formatted_datetime, offset_datetime, parse_with_format, parse_with_offset,
};
use crate::number::{parse_u64, parse_unsigned};
use crate::profile::{ProfileView, SourceDialect, Timestamp, WorkloadProfile};
use crate::sql::placeholder::{fill, filled, numbered_views};
use crate::text::{
    chars_end_with, chars_start_with, contains, copy_chars, ends_with, find_chars_from, find_from, from_chars,
    skip_chars, starts_with, str_contains, str_eq, to_chars, trim, trim_slice, trim_start, trim_start_slice,
    views,
};
use vstd::hash_map::StringHashMap;
use vstd::prelude::*;
use vstd::slice::slice_subrange;

verus! {

// ── Messages ────────────────────────────────────────────────────────

/// The SQL behind a keyword, a name and a colon.
pub open spec fn named_rest(content: Seq<char>, keyword: Seq<char>) -> Option<Seq<char>> {
    if starts_with(content, keyword) {
        let rest = trim_start(content.skip(keyword.len() as int));
        match find_from(rest, ": "@, 0) {
            Some(p) => Some(rest.skip(p + 2)),
            None => None,
        }
    } else {
        None
    }
}

/// The SQL of a `statement` or `execute` entry.
pub open spec fn statement_text(content: Seq<char>) -> Option<Seq<char>> {
    if starts_with(content, "statement: "@) {
        Some(content.skip(11))
    } else {
        named_rest(content, "execute"@)
    }
}

/// The duration in microseconds and the SQL of a log message.
pub open spec fn duration_statement(message: Seq<char>) -> Option<(u64, Seq<char>)> {
    let m = trim(message);
    let end = find_from(m, " ms"@, 0);
    if !starts_with(m, "duration:"@) || end is None || end->0 < 10 {
        None
    } else {
        let us = fraction_value(trim(m.subrange(10, end->0)), 3, true);
        let sql = statement_text(trim_start(m.skip(end->0 + 3)));
        if us is Some && sql is Some && sql->0.len() > 0 {
            Some((us->0, sql->0))
        } else {
            None
        }
    }
}

/// The model of a duration and a statement.
pub open spec fn timed_view(r: Option<(u64, String)>) -> Option<(u64, Seq<char>)> {
    match r {
        Some((us, sql)) => Some((us, sql@)),
        None => None,
    }
}

fn strip_named_prefix(content: &[char], keyword: &str) -> (r: Option<String>)
    ensures
        r is Some <==> named_rest(content@, keyword@) is Some,
        r matches Some(s) ==> named_rest(content@, keyword@) == Some(s@),
{
    let k = to_chars(keyword);
    if !chars_start_with(content, &k) {
        return None;
    }
    let rest = trim_start_slice(skip_chars(content, k.len()));
    let n: usize = rest.len();
    proof {
        reveal_strlit(": ");
    }
    match find_chars_from(rest, &to_chars(": "), 0) {
        Some(p) => {
            proof {
                assert(p + 2 <= n);
            }
            Some(from_chars(skip_chars(rest, p + 2)))
        },
        None => None,
    }
}

/// The duration in microseconds and the SQL of a log message: `duration: X ms`,
/// then `statement: SQL` or `execute NAME: SQL`. Entries of other kinds, among
/// them `bind` and `parse`, are left out: the statement that they prepare has
/// an `execute` entry of its own.
pub fn parse_duration_statement(message: &str) -> (r: Option<(u64, String)>)
    ensures
        timed_view(r) == duration_statement(message@),
{
    let all = to_chars(message);
    let m = trim_slice(&all);
    if !chars_start_with(m, &to_chars("duration:")) {
        return None;
    }
    proof {
        reveal_strlit(" ms");
        reveal_strlit("statement: ");
    }
    let end: usize = match find_chars_from(m, &to_chars(" ms"), 0) {
        Some(p) => p,
        None => return None,
    };
    let n: usize = m.len();
    proof {
        assert(end + 3 <= n);
    }
    if end < 10 {
        return None;
    }
    let us: u64 = match parse_fraction(trim_slice(slice_subrange(m, 10, end)), 3, true) {
        Some(us) => us,
        None => return None,
    };
    let content = trim_start_slice(skip_chars(m, end + 3));
    let sql = if chars_start_with(content, &to_chars("statement: ")) {
        from_chars(skip_chars(content, 11))
    } else {
        match strip_named_prefix(content, "execute") {
            Some(sql) => sql,
            None => return None,
        }
    };
    if to_chars(sql.as_str()).len() == 0 {
        return None;
    }
    Some((us, sql))
}

// ── Parameters ──────────────────────────────────────────────────────

/// Whether position `i` stands outside of quotes.
pub open spec fn outside_quotes(s: Seq<char>, i: int) -> bool
    decreases i,
{
    if i <= 0 {
        true
    } else {
        outside_quotes(s, i - 1) != (s[i - 1] == '\'')
    }
}

/// The parts of a text from `start` on between commas outside of quotes, each
/// without the space around it; no comma stands from `start` to `i`. A last
/// part of space alone is left out.
pub open spec fn comma_parts(s: Seq<char>, start: int, i: int) -> Seq<Seq<char>>
    decreases s.len() - i,
{
    if i >= s.len() {
        let part = trim(s.subrange(start, s.len() as int));
        if part.len() == 0 {
            Seq::empty()
        } else {
            seq![part]
        }
    } else if s[i] == ',' && outside_quotes(s, i) {
        seq![trim(s.subrange(start, i))] + comma_parts(s, i + 1, i + 1)
    } else {
        comma_parts(s, start, i + 1)
    }
}

/// The number and the value of one parameter: `$1 = 'value'`.
pub open spec fn parameter(part: Seq<char>) -> Option<(nat, Seq<char>)> {
    let p = if part.len() > 0 && part[0] == '$' {
        part.skip(1)
    } else {
        part
    };
    match find_from(p, " = "@, 0) {
        Some(eq) => match parse_unsigned(trim(p.take(eq)), usize::MAX as nat) {
            Some(n) => Some((n, trim(p.skip(eq + 3)))),
            None => None,
        },
        None => None,
    }
}

/// The parameters among the first `n` parts.
pub open spec fn parameters_of(parts: Seq<Seq<char>>, n: int) -> Seq<(nat, Seq<char>)>
    decreases n,
{
    if n <= 0 {
        Seq::empty()
    } else {
        match parameter(parts[n - 1]) {
            Some(p) => parameters_of(parts, n - 1).push(p),
            None => parameters_of(parts, n - 1),
        }
    }
}

/// The parameters of a log record's detail.
pub open spec fn detail_parameters(detail: Seq<char>) -> Option<Seq<(nat, Seq<char>)>> {
    let d = trim(detail);
    if starts_with(d, "Parameters:"@) {
        let parts = comma_parts(trim(d.skip(11)), 0, 0);
        Some(parameters_of(parts, parts.len() as int))
    } else {
        None
    }
}

/// The models of parameters.
pub open spec fn params_view(r: Option<Vec<(usize, String)>>) -> Option<Seq<(nat, Seq<char>)>> {
    match r {
        Some(v) => Some(numbered_views(v@)),
        None => None,
    }
}

fn split_commas(s: &[char]) -> (r: Vec<Vec<char>>)
    ensures
        r@.len() == comma_parts(s@, 0, 0).len(),
        forall|k: int| 0 <= k < r@.len() ==> (#[trigger] r@[k])@ == comma_parts(s@, 0, 0)[k],
{
    let ghost whole = comma_parts(s@, 0, 0);
    let mut out: Vec<Vec<char>> = Vec::new();
    let ghost mut done: Seq<Seq<char>> = Seq::empty();
    let mut start: usize = 0;
    let mut i: usize = 0;
    let mut outside: bool = true;
    proof {
        assert(done + comma_parts(s@, 0, 0) =~= whole);
    }
    while i < s.len()
        invariant
            start <= i <= s@.len(),
            outside == outside_quotes(s@, i as int),
            done + comma_parts(s@, start as int, i as int) == whole,
            out@.len() == done.len(),
            forall|k: int| 0 <= k < out@.len() ==> (#[trigger] out@[k])@ == done[k],
        decreases s@.len() - i,
    {
        let c = s[i];
        if c == ',' && outside {
            out.push(copy_chars(trim_slice(slice_subrange(s, start, i))));
            proof {
                let part = trim(s@.subrange(start as int, i as int));
                assert(done + (seq![part] + comma_parts(s@, i + 1, i + 1)) =~= done.push(part)
                    + comma_parts(s@, i + 1, i + 1));
                done = done.push(part);
            }
            start = i + 1;
        }
        if c == '\'' {
            outside = !outside;
        }
        i = i + 1;
    }
    let last = copy_chars(trim_slice(slice_subrange(s, start, s.len())));
    if last.len() > 0 {
        out.push(last);
    }
    out
}

fn parse_parameter(part: &[char]) -> (r: Option<(usize, String)>)
    ensures
        r is Some <==> parameter(part@) is Some,
        r matches Some(p) ==> parameter(part@) == Some((p.0 as nat, p.1@)),
{
    let dollar: usize = if part.len() > 0 && part[0] == '$' { 1 } else { 0 };
    let p = skip_chars(part, dollar);
    proof {
        assert(dollar == 0 ==> p@ =~= part@);
        reveal_strlit(" = ");
    }
    let eq: usize = match find_chars_from(p, &to_chars(" = "), 0) {
        Some(eq) => eq,
        None => return None,
    };
    let name = slice_subrange(p, 0, eq);
    proof {
        assert(name@ =~= p@.take(eq as int));
    }
    match parse_u64(trim_slice(name), usize::MAX as u64) {
        Some(n) => Some((n as usize, from_chars(trim_slice(skip_chars(p, eq + 3))))),
        None => None,
    }
}

/// The parameters of a log record's detail, `Parameters: $1 = 'value', $2 = 42`:
/// their numbers and their values as written.
pub fn parse_parameters(detail: &str) -> (r: Option<Vec<(usize, String)>>)
    ensures
        params_view(r) == detail_parameters(detail@),
{
    let all = to_chars(detail);
    let d = trim_slice(&all);
    proof {
        reveal_strlit("Parameters:");
    }
    if !chars_start_with(d, &to_chars("Parameters:")) {
        return None;
    }
    let rest = trim_slice(skip_chars(d, 11));
    let parts = split_commas(rest);
    let ghost ps = comma_parts(rest@, 0, 0);
    let mut out: Vec<(usize, String)> = Vec::new();
    proof {
        assert(numbered_views(out@) =~= parameters_of(ps, 0));
    }
    for i in 0..parts.len()
        invariant
            parts@.len() == ps.len(),
            forall|k: int| 0 <= k < parts@.len() ==> (#[trigger] parts@[k])@ == ps[k],
            numbered_views(out@) == parameters_of(ps, i as int),
    {
        let ghost before = numbered_views(out@);
        if let Some(p) = parse_parameter(&parts[i]) {
            out.push(p);
            proof {
                assert(numbered_views(out@) =~= before.push((p.0 as nat, p.1@)));
            }
        }
    }
    Some(out)
}

/// A statement with the placeholders `$1`, `$2`, … replaced by values. What a
/// value holds is not searched for placeholders.
pub fn inline_parameters(sql: &str, params: &[(usize, String)]) -> (r: String)
    ensures
        r@ == filled(sql@, numbered_views(params@)),
{
    fill(sql, params)
}

// ── Records ─────────────────────────────────────────────────────────

/// A text without any ` UTC` at its end.
pub open spec fn without_utc(s: Seq<char>) -> Seq<char>
    decreases s.len(),
{
    if s.len() >= 4 && ends_with(s, " UTC"@) {
        without_utc(s.take(s.len() - 4))
    } else {
        s
    }
}

/// The time of a record: with an offset or in UTC, else the time `now`.
pub open spec fn record_time(s: Seq<char>, now: Timestamp) -> Timestamp {
    match either_datetime(
        offset_datetime(s),
        formatted_datetime(without_utc(trim(s)), "%Y-%m-%d %H:%M:%S%.f"@),
    ) {
        Some(t) => t,
        None => now,
    }
}

/// The statement of a record with its parameters put in place.
pub open spec fn bound_statement(record: Seq<Seq<char>>, sql: Seq<char>) -> Seq<char> {
    let detail = field(record, Some(14int));
    if contains(sql, "$"@) && detail is Some && detail_parameters(detail->0) is Some {
        filled(sql, detail_parameters(detail->0)->0)
    } else {
        sql
    }
}

/// A record as an entry of a session, if it holds an executed statement.
pub open spec fn record_entry(record: Seq<Seq<char>>, time: Timestamp, session: u64) -> Option<EntryView> {
    let message = field(record, Some(13int));
    if field_or_empty(record, Some(11int)) == "LOG"@ && message is Some && duration_statement(
        message->0,
    ) is Some {
        let (us, sql) = duration_statement(message->0)->0;
        Some(
            EntryView {
                session,
                time: Some(time),
                user: field_or_empty(record, Some(1int)),
                database: field_or_empty(record, Some(2int)),
                duration_us: us,
                sql: bound_statement(record, sql),
                keep: true,
            },
        )
    } else {
        None
    }
}

/// The number of a session: the one that it has, else the next.
pub open spec fn session_number(known: Map<Seq<char>, u64>, count: nat, name: Seq<char>) -> u64 {
    if known.contains_key(name) {
        known[name]
    } else {
        (count + 1) as u64
    }
}

/// The numbers of the sessions of the first `n` records by name, how many there
/// are, and the entries. Sessions are numbered from one in the order in which
/// they appear.
pub open spec fn record_entries(rows: Seq<RowModel>, now: Timestamp, n: int) -> (
    Map<Seq<char>, u64>,
    nat,
    Seq<EntryView>,
)
    decreases n,
{
    if n <= 0 {
        (Map::empty(), 0, Seq::empty())
    } else {
        let (known, count, entries) = record_entries(rows, now, n - 1);
        let record = rows[n - 1]->0;
        let name = field_or_empty(record, Some(5int));
        let number = session_number(known, count, name);
        match record_entry(record, record_time(field_or_empty(record, Some(0int)), now), number) {
            Some(e) => (
                known.insert(name, number),
                if known.contains_key(name) {
                    count
                } else {
                    count + 1
                },
                entries.push(e),
            ),
            None => (known, count, entries),
        }
    }
}

/// The sessions of a log are numbered from one on, and no two of them have the
/// same number.
pub proof fn law_session_numbers_distinct(rows: Seq<RowModel>, now: Timestamp, n: int)
    requires
        0 <= n <= rows.len() <= u64::MAX,
    ensures
        ({
            let (known, count, _) = record_entries(rows, now, n);
            &&& count <= n
            &&& forall|name: Seq<char>| #[trigger]
                known.contains_key(name) ==> 1 <= known[name] <= count
            &&& forall|a: Seq<char>, b: Seq<char>| #[trigger]
                known.contains_key(a) && #[trigger] known.contains_key(b) && a != b ==> known[a] != known[b]
        }),
    decreases n,
{
    if n > 0 {
        law_session_numbers_distinct(rows, now, n - 1);
    }
}

/// Whether every record can be read.
pub open spec fn records_readable(rows: Seq<RowModel>) -> bool {
    forall|k: int| 0 <= k < rows.len() ==> (#[trigger] rows[k]) is Some
}

/// The workload of a log's records.
pub open spec fn csv_workload(
    rows: Seq<RowModel>,
    source_host: Seq<char>,
    pg_version: Seq<char>,
    now: Timestamp,
) -> Result<ProfileView, ErrorView> {
    if !records_readable(rows) {
        Err(ErrorView::BadRecord)
    } else {
        log_workload(
            record_entries(rows, now, rows.len() as int).2,
            false,
            source_host,
            pg_version,
            "csv_log"@,
            SourceDialect::Postgres,
            now,
        )
    }
}

fn strip_utc(s: &[char]) -> (r: &[char])
    ensures
        r@ == without_utc(s@),
{
    let suffix = to_chars(" UTC");
    proof {
        reveal_strlit(" UTC");
    }
    let mut n: usize = s.len();
    let mut cur = s;
    proof {
        assert(cur@ =~= s@.take(n as int));
    }
    while n >= 4 && chars_end_with(cur, &suffix)
        invariant
            n <= s@.len(),
            suffix@ == " UTC"@,
            cur@ == s@.take(n as int),
            without_utc(cur@) == without_utc(s@),
        decreases n,
    {
        n = n - 4;
        proof {
            assert(cur@.take(n as int) =~= s@.take(n as int));
        }
        cur = slice_subrange(s, 0, n);
        proof {
            assert(cur@ =~= s@.take(n as int));
        }
    }
    cur
}

fn read_time(s: &str, now: Timestamp) -> (r: Timestamp)
    ensures
        r == record_time(s@, now),
{
    if let Some(t) = parse_with_offset(s) {
        return t;
    }
    let all = to_chars(s);
    let text = from_chars(strip_utc(trim_slice(&all)));
    match parse_with_format(text.as_str(), "%Y-%m-%d %H:%M:%S%.f") {
        Some(t) => t,
        None => now,
    }
}

/// A record as an entry of a session.
pub fn entry_from_record(record: &Vec<String>, time: Timestamp, session: u64) -> (r: Option<LogEntry>)
    ensures
        r is Some <==> record_entry(views(record@), time, session) is Some,
        r matches Some(e) ==> record_entry(views(record@), time, session) == Some(e@),
{
    if !str_eq(get_text(record, Some(11)).as_str(), "LOG") {
        return None;
    }
    let (duration_us, mut sql) = match get_field(record, Some(13)) {
        Some(message) => match parse_duration_statement(message) {
            Some((us, sql)) => (us, sql),
            None => return None,
        },
        None => return None,
    };
    if str_contains(sql.as_str(), "$") {
        if let Some(detail) = get_field(record, Some(14)) {
            if let Some(params) = parse_parameters(detail) {
                sql = inline_parameters(sql.as_str(), params.as_slice());
            }
        }
    }
    Some(
        LogEntry {
            session,
            time: Some(time),
            user: get_text(record, Some(1)),
            database: get_text(record, Some(2)),
            duration_us,
            sql,
            keep: true,
        },
    )
}

/// PostgreSQL's log in comma-separated values.
#[derive(Debug)]
pub struct CsvLogCapture;

impl CsvLogCapture {
    /// The workload of a log's records. A time that cannot be read is taken to
    /// be `now`.
    pub fn capture_from_rows(
        &self,
        rows: &Vec<Option<Vec<String>>>,
        source_host: &str,
        pg_version: &str,
        now: Timestamp,
    ) -> (r: Result<WorkloadProfile, CaptureError>)
        ensures
            outcome(r) == csv_workload(row_views(rows@), source_host@, pg_version@, now),
    {
        let ghost all = row_views(rows@);
        let total: usize = rows.len();
        let mut known: StringHashMap<u64> = StringHashMap::new();
        let mut count: u64 = 0;
        let mut entries: Vec<LogEntry> = Vec::new();
        proof {
            assert(known@ =~= Map::empty());
            assert(entry_views(entries@) =~= Seq::empty());
        }
        for i in 0..total
            invariant
                all == row_views(rows@),
                total == all.len(),
                forall|k: int| 0 <= k < i ==> (#[trigger] all[k]) is Some,
                count <= i,
                (known@, count as nat, entry_views(entries@)) == record_entries(all, now, i as int),
        {
            proof {
                assert(all[i as int] == row_view(rows@[i as int]));
            }
            let record = match &rows[i] {
                Some(record) => record,
                None => {
                    proof {
                        assert(!records_readable(all));
                    }
                    return Err(CaptureError::BadRecord);
                },
            };
            let name = get_text(record, Some(5));
            let (number, is_new): (u64, bool) = match known.get(name.as_str()) {
                Some(number) => (*number, false),
                None => (count + 1, true),
            };
            let time = read_time(get_text(record, Some(0)).as_str(), now);
            if let Some(e) = entry_from_record(record, time, number) {
                let ghost before = entry_views(entries@);
                let ghost ev = e@;
                entries.push(e);
                proof {
                    assert(entry_views(entries@) =~= before.push(ev));
                }
                known.insert(name, number);
                if is_new {
                    count = count + 1;
                }
            }
        }
        build_workload(
            entries,
            false,
            source_host,
            pg_version,
            "csv_log",
            SourceDialect::Postgres,
            now,
        )
    }

    /// The workload of a log's bytes.
    pub fn capture_from_bytes(
        &self,
        data: &[u8],
        source_host: &str,
        pg_version: &str,
        now: Timestamp,
    ) -> (r: Result<WorkloadProfile, CaptureError>)
        ensures
            outcome(r) == csv_workload(csv_rows(data@, false), source_host@, pg_version@, now),
    {
        self.capture_from_rows(&read_rows(data, false), source_host, pg_version, now)
    }
}

} // verus!
