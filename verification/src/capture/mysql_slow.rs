//! Capture from MySQL's slow query log.

use crate::capture::entries::{
    build_sessions, entry_views, law_no_more_queries_than_entries, law_transactions_keep_count, log_profile,
    log_sessions, log_span, make_profile, EntryView, LogEntry,
};
use crate::capture::error::{outcome, CaptureError, ErrorView};
use crate::capture::fraction::{fraction_value, parse_fraction};
use crate::capture::time::{
    either_datetime, epoch_datetime, formatted_datetime, from_epoch, offset_datetime, parse_with_format,
    parse_with_offset, timestamp_of,
};
use crate::number::{parse_u64, parse_unsigned};
use crate::profile::{
    assign_all_transactions, query_count, query_views, session_views, with_all_txns, ProfileView, Session, SessionView,
    SourceDialect, Timestamp, WorkloadProfile,
};
use crate::text::{
    char_is_space, chars_start_with, copy_string, find_chars_from, find_from, from_chars, is_space, join,
    join_strings, lines, rfind_below, rfind_chars_below, skip_chars, split_lines, starts_with, take_chars,
    to_chars, trim, trim_slice, views,
};
use vstd::prelude::*;

verus! {

// ── Header lines ────────────────────────────────────────────────────

/// The point in time of a `# Time:` line.
pub open spec fn mysql_timestamp(s: Seq<char>) -> Option<Timestamp> {
    either_datetime(offset_datetime(trim(s)), formatted_datetime(trim(s), "%Y-%m-%dT%H:%M:%S%.f"@))
}

/// The point in time of a `# Time:` line.
pub fn parse_mysql_timestamp(s: &str) -> (r: Option<Timestamp>)
    ensures
        r == mysql_timestamp(s@),
{
    let all = to_chars(s);
    let text = from_chars(trim_slice(&all));
    if let Some(t) = parse_with_offset(text.as_str()) {
        return Some(t);
    }
    parse_with_format(text.as_str(), "%Y-%m-%dT%H:%M:%S%.f")
}

/// The user and the thread of a `# User@Host:` line.
pub open spec fn user_host(line: Seq<char>) -> Option<(Seq<char>, u64)> {
    let rest = trim(line.skip(12));
    let bracket = find_from(rest, "["@, 0);
    let id = rfind_below(rest, "Id:"@, rest.len() as int);
    if starts_with(line, "# User@Host:"@) && bracket is Some && id is Some {
        match parse_unsigned(trim(rest.skip(id->0 + 3)), u64::MAX as nat) {
            Some(n) => Some((trim(rest.take(bracket->0)), n as u64)),
            None => None,
        }
    } else {
        None
    }
}

/// The query time of a `# Query_time:` line in microseconds.
pub open spec fn query_time(line: Seq<char>) -> Option<u64> {
    let rest = trim(line.skip(13));
    match first_space(rest, 0) {
        Some(end) => if starts_with(line, "# Query_time:"@) {
            fraction_value(rest.take(end), 6, true)
        } else {
            None
        },
        None => None,
    }
}

/// The first place from `i` on that holds white space.
pub open spec fn first_space(s: Seq<char>, i: int) -> Option<int>
    decreases s.len() - i,
{
    if i < 0 || i >= s.len() {
        None
    } else if is_space(s[i]) {
        Some(i)
    } else {
        first_space(s, i + 1)
    }
}

/// A text without any semicolons at its end.
pub open spec fn without_semicolons(s: Seq<char>) -> Seq<char>
    decreases s.len(),
{
    if s.len() > 0 && s.last() == ';' {
        without_semicolons(s.drop_last())
    } else {
        s
    }
}

/// A whole number that may have a sign.
pub open spec fn signed_number(s: Seq<char>) -> Option<i64> {
    if s.len() > 0 && s[0] == '-' {
        if s.len() > 1 && s[1] == '+' {
            None
        } else {
            match parse_unsigned(s.skip(1), 9223372036854775808) {
                Some(n) => Some((-(n as int)) as i64),
                None => None,
            }
        }
    } else {
        match parse_unsigned(s, i64::MAX as nat) {
            Some(n) => Some(n as i64),
            None => None,
        }
    }
}

/// The seconds since 1970 of a `SET timestamp=` line.
pub open spec fn set_timestamp_secs(line: Seq<char>) -> Option<i64> {
    if starts_with(line, "SET timestamp="@) {
        signed_number(trim(without_semicolons(line.skip(14))))
    } else {
        None
    }
}

/// The point in time of a `SET timestamp=` line.
pub open spec fn set_timestamp(line: Seq<char>) -> Option<Timestamp> {
    match set_timestamp_secs(line) {
        Some(secs) => timestamp_of(epoch_datetime(secs)),
        None => None,
    }
}

/// The model of a user and a thread.
pub open spec fn user_view(r: Option<(String, u64)>) -> Option<(Seq<char>, u64)> {
    match r {
        Some((user, id)) => Some((user@, id)),
        None => None,
    }
}

/// The user and the thread of a `# User@Host:` line.
pub fn parse_user_host(line: &str) -> (r: Option<(String, u64)>)
    ensures
        user_view(r) == user_host(line@),
{
    let s = to_chars(line);
    proof {
        reveal_strlit("# User@Host:");
        reveal_strlit("[");
        reveal_strlit("Id:");
    }
    if !chars_start_with(&s, &to_chars("# User@Host:")) {
        return None;
    }
    let rest = trim_slice(skip_chars(&s, 12));
    let n: usize = rest.len();
    let bracket: usize = match find_chars_from(rest, &to_chars("["), 0) {
        Some(p) => p,
        None => return None,
    };
    let id: usize = match rfind_chars_below(rest, &to_chars("Id:"), n) {
        Some(p) => p,
        None => return None,
    };
    proof {
        assert(id + 3 <= n);
    }
    match parse_u64(trim_slice(skip_chars(rest, id + 3)), u64::MAX) {
        Some(thread) => Some((from_chars(trim_slice(take_chars(rest, bracket))), thread)),
        None => None,
    }
}

/// The query time of a `# Query_time:` line in microseconds.
pub fn parse_query_time(line: &str) -> (r: Option<u64>)
    ensures
        r == query_time(line@),
{
    let s = to_chars(line);
    proof {
        reveal_strlit("# Query_time:");
    }
    if !chars_start_with(&s, &to_chars("# Query_time:")) {
        return None;
    }
    let rest = trim_slice(skip_chars(&s, 13));
    let mut end: usize = 0;
    while end < rest.len() && !char_is_space(rest[end])
        invariant
            end <= rest@.len(),
            first_space(rest@, 0) == first_space(rest@, end as int),
        decreases rest@.len() - end,
    {
        end = end + 1;
    }
    if end == rest.len() {
        return None;
    }
    parse_fraction(take_chars(rest, end), 6, true)
}

fn parse_signed(s: &[char]) -> (r: Option<i64>)
    ensures
        r == signed_number(s@),
{
    let n: usize = s.len();
    if n > 0 && s[0] == '-' {
        if n > 1 && s[1] == '+' {
            return None;
        }
        match parse_u64(skip_chars(s, 1), 9223372036854775808) {
            Some(m) => if m == 9223372036854775808 {
                Some(i64::MIN)
            } else {
                Some(-(m as i64))
            },
            None => None,
        }
    } else {
        match parse_u64(s, 9223372036854775807) {
            Some(m) => Some(m as i64),
            None => None,
        }
    }
}

/// The seconds since 1970 of a `SET timestamp=` line.
pub fn parse_set_timestamp_secs(line: &str) -> (r: Option<i64>)
    ensures
        r == set_timestamp_secs(line@),
{
    let s = to_chars(line);
    proof {
        reveal_strlit("SET timestamp=");
    }
    if !chars_start_with(&s, &to_chars("SET timestamp=")) {
        return None;
    }
    let rest = skip_chars(&s, 14);
    let mut n: usize = rest.len();
    proof {
        assert(rest@.take(n as int) =~= rest@);
    }
    while n > 0 && rest[n - 1] == ';'
        invariant
            n <= rest@.len(),
            without_semicolons(rest@) == without_semicolons(rest@.take(n as int)),
        decreases n,
    {
        proof {
            assert(rest@.take(n as int).drop_last() =~= rest@.take(n - 1));
        }
        n = n - 1;
    }
    parse_signed(trim_slice(take_chars(rest, n)))
}

/// The point in time of a `SET timestamp=` line.
pub fn parse_set_timestamp(line: &str) -> (r: Option<Timestamp>)
    ensures
        r == set_timestamp(line@),
{
    match parse_set_timestamp_secs(line) {
        Some(secs) => from_epoch(secs),
        None => None,
    }
}

// ── The log ─────────────────────────────────────────────────────────

/// How far a log has been read.
pub ghost struct SlowModel {
    pub time: Option<Timestamp>,
    pub user: Seq<char>,
    pub thread: u64,
    pub query_time_us: u64,
    pub sql_lines: Seq<Seq<char>>,
    pub in_query: bool,
    pub entries: Seq<EntryView>,
}

/// Nothing read yet.
pub open spec fn slow_start() -> SlowModel {
    SlowModel {
        time: None,
        user: Seq::empty(),
        thread: 0,
        query_time_us: 0,
        sql_lines: Seq::empty(),
        in_query: false,
        entries: Seq::empty(),
    }
}

/// The statement read so far becomes an entry. Without a time it happened `now`.
pub open spec fn flushed(m: SlowModel, now: Timestamp) -> SlowModel {
    let sql = trim(join(m.sql_lines, "\n"@));
    if m.in_query && m.sql_lines.len() > 0 {
        SlowModel {
            sql_lines: Seq::empty(),
            in_query: false,
            entries: if sql.len() == 0 {
                m.entries
            } else {
                m.entries.push(
                    EntryView {
                        session: m.thread,
                        time: Some(
                            match m.time {
                                Some(t) => t,
                                None => now,
                            },
                        ),
                        user: m.user,
                        database: Seq::empty(),
                        duration_us: m.query_time_us,
                        sql,
                        keep: true,
                    },
                )
            },
            ..m
        }
    } else {
        m
    }
}

/// Whether a line belongs to the header that the server writes when it starts.
pub open spec fn is_server_header(line: Seq<char>) -> bool {
    line.len() == 0 || starts_with(line, "/usr/"@) || starts_with(line, "Tcp port:"@) || starts_with(
        line,
        "Time "@,
    )
}

/// One line more, without the space around it.
pub open spec fn slow_step(m: SlowModel, line: Seq<char>, now: Timestamp) -> SlowModel {
    if is_server_header(line) {
        flushed(m, now)
    } else if starts_with(line, "# Time: "@) {
        SlowModel { time: mysql_timestamp(line.skip(8)), ..flushed(m, now) }
    } else if starts_with(line, "# User@Host:"@) {
        match user_host(line) {
            Some((user, thread)) => SlowModel { user, thread, ..m },
            None => m,
        }
    } else if starts_with(line, "# Query_time:"@) {
        match query_time(line) {
            Some(us) => SlowModel { query_time_us: us, ..m },
            None => m,
        }
    } else if starts_with(line, "SET timestamp="@) {
        SlowModel {
            time: if m.time is None {
                set_timestamp(line)
            } else {
                m.time
            },
            in_query: true,
            ..m
        }
    } else if m.in_query || !starts_with(line, "#"@) {
        SlowModel { in_query: true, sql_lines: m.sql_lines.push(line), ..m }
    } else {
        m
    }
}

/// The first `n` lines read.
pub open spec fn slow_lines(ls: Seq<Seq<char>>, now: Timestamp, n: int) -> SlowModel
    decreases n,
{
    if n <= 0 {
        slow_start()
    } else {
        slow_step(slow_lines(ls, now, n - 1), trim(ls[n - 1]), now)
    }
}

/// The entries of a log.
pub open spec fn slow_entries(text: Seq<char>, now: Timestamp) -> Seq<EntryView> {
    let ls = lines(text);
    flushed(slow_lines(ls, now, ls.len() as int), now).entries
}

struct SlowState {
    time: Option<Timestamp>,
    user: String,
    thread: u64,
    query_time_us: u64,
    sql_lines: Vec<String>,
    in_query: bool,
    entries: Vec<LogEntry>,
}

impl View for SlowState {
    type V = SlowModel;

    closed spec fn view(&self) -> SlowModel {
        SlowModel {
            time: self.time,
            user: self.user@,
            thread: self.thread,
            query_time_us: self.query_time_us,
            sql_lines: views(self.sql_lines@),
            in_query: self.in_query,
            entries: entry_views(self.entries@),
        }
    }
}

impl SlowState {
    fn new() -> (r: Self)
        ensures
            r@ == slow_start(),
    {
        let r = SlowState {
            time: None,
            user: String::new(),
            thread: 0,
            query_time_us: 0,
            sql_lines: Vec::new(),
            in_query: false,
            entries: Vec::new(),
        };
        proof {
            assert(views(r.sql_lines@) =~= Seq::empty());
            assert(entry_views(r.entries@) =~= Seq::empty());
            assert(r.user@ =~= Seq::empty());
        }
        r
    }

    fn flush(&mut self, now: Timestamp)
        ensures
            final(self)@ == flushed(old(self)@, now),
    {
        if self.in_query && self.sql_lines.len() > 0 {
            let all = to_chars(join_strings(self.sql_lines.as_slice(), "\n").as_str());
            let sql = trim_slice(&all);
            if sql.len() > 0 {
                let ghost before = entry_views(self.entries@);
                let e = LogEntry {
                    session: self.thread,
                    time: Some(
                        match self.time {
                            Some(t) => t,
                            None => now,
                        },
                    ),
                    user: copy_string(self.user.as_str()),
                    database: String::new(),
                    duration_us: self.query_time_us,
                    sql: from_chars(sql),
                    keep: true,
                };
                let ghost ev = e@;
                self.entries.push(e);
                proof {
                    assert(entry_views(self.entries@) =~= before.push(ev));
                    assert(ev.database =~= Seq::empty());
                }
            }
            self.sql_lines = Vec::new();
            self.in_query = false;
            proof {
                assert(views(self.sql_lines@) =~= Seq::empty());
            }
        }
    }

    fn step(&mut self, line: &str, now: Timestamp)
        ensures
            final(self)@ == slow_step(old(self)@, line@, now),
    {
        let s = to_chars(line);
        if s.len() == 0 || chars_start_with(&s, &to_chars("/usr/")) || chars_start_with(
            &s,
            &to_chars("Tcp port:"),
        ) || chars_start_with(&s, &to_chars("Time ")) {
            self.flush(now);
        } else if chars_start_with(&s, &to_chars("# Time: ")) {
            proof {
                reveal_strlit("# Time: ");
            }
            self.flush(now);
            self.time = parse_mysql_timestamp(from_chars(skip_chars(&s, 8)).as_str());
        } else if chars_start_with(&s, &to_chars("# User@Host:")) {
            if let Some((user, thread)) = parse_user_host(line) {
                self.user = user;
                self.thread = thread;
            }
        } else if chars_start_with(&s, &to_chars("# Query_time:")) {
            if let Some(us) = parse_query_time(line) {
                self.query_time_us = us;
            }
        } else if chars_start_with(&s, &to_chars("SET timestamp=")) {
            if self.time.is_none() {
                self.time = parse_set_timestamp(line);
            }
            self.in_query = true;
        } else if self.in_query || !chars_start_with(&s, &to_chars("#")) {
            let ghost before = views(self.sql_lines@);
            self.in_query = true;
            self.sql_lines.push(copy_string(line));
            proof {
                assert(views(self.sql_lines@) =~= before.push(line@));
            }
        }
    }
}

/// Reads the entries of a log. A statement for which the log gives no time
/// happened `now`.
pub fn parse_slow_log(text: &str, now: Timestamp) -> (r: Vec<LogEntry>)
    ensures
        entry_views(r@) == slow_entries(text@, now),
{
    let ls = split_lines(text);
    let ghost all = lines(text@);
    let mut state = SlowState::new();
    for i in 0..ls.len()
        invariant
            views(ls@) == all,
            state@ == slow_lines(all, now, i as int),
    {
        let chars = to_chars(ls[i].as_str());
        proof {
            assert(all[i as int] == ls@[i as int]@);
        }
        state.step(from_chars(trim_slice(&chars)).as_str(), now);
    }
    proof {
        assert(ls@.len() == all.len());
    }
    state.flush(now);
    state.entries
}

// ── The workload ────────────────────────────────────────────────────

/// What the translation of a statement came to.
#[derive(Debug)]
pub enum SqlChange {
    Transformed(String),
    Unchanged,
    Skipped,
}

/// The model of a translation.
pub ghost enum ChangeModel {
    Transformed(Seq<char>),
    Unchanged,
    Skipped,
}

impl View for SqlChange {
    type V = ChangeModel;

    open spec fn view(&self) -> ChangeModel {
        match *self {
            SqlChange::Transformed(sql) => ChangeModel::Transformed(sql@),
            SqlChange::Unchanged => ChangeModel::Unchanged,
            SqlChange::Skipped => ChangeModel::Skipped,
        }
    }
}

pub open spec fn change_views(v: Seq<SqlChange>) -> Seq<ChangeModel> {
    Seq::new(v.len(), |i: int| v[i]@)
}

/// An entry after the translation of its statement. A skipped one still counts
/// for the times of its session.
pub open spec fn changed(e: EntryView, c: ChangeModel) -> EntryView {
    match c {
        ChangeModel::Transformed(sql) => EntryView { sql, ..e },
        ChangeModel::Unchanged => e,
        ChangeModel::Skipped => EntryView { keep: false, ..e },
    }
}

/// The entries after their translation.
pub open spec fn all_changed(es: Seq<EntryView>, cs: Seq<ChangeModel>) -> Seq<EntryView> {
    Seq::new(es.len(), |i: int| changed(es[i], cs[i]))
}

/// The time of a session's first query.
pub open spec fn first_offset(s: SessionView) -> u64 {
    if s.queries.len() == 0 {
        0
    } else {
        s.queries[0].start_offset_us
    }
}

/// The sessions with one more, behind all whose first query is not later.
pub open spec fn insert_by_offset(s: Seq<SessionView>, x: SessionView) -> Seq<SessionView>
    decreases s.len(),
{
    if s.len() == 0 || first_offset(s.last()) <= first_offset(x) {
        s.push(x)
    } else {
        insert_by_offset(s.drop_last(), x).push(s.last())
    }
}

/// The sessions ordered by the time of their first query, those of the same time
/// in the order in which they came.
pub open spec fn sorted_by_offset(s: Seq<SessionView>) -> Seq<SessionView>
    decreases s.len(),
{
    if s.len() == 0 {
        s
    } else {
        insert_by_offset(sorted_by_offset(s.drop_last()), s.last())
    }
}

/// The workload of a log's entries.
pub open spec fn slow_workload(es: Seq<EntryView>, source_host: Seq<char>, captured_at: Timestamp) -> Result<
    ProfileView,
    ErrorView,
> {
    if es.len() >= u64::MAX {
        Err(ErrorView::TooLong)
    } else {
        Ok(
            log_profile(
                sorted_by_offset(with_all_txns(log_sessions(es))),
                log_span(es),
                source_host,
                "unknown"@,
                "mysql_slow_log"@,
                SourceDialect::MySql,
                captured_at,
            ),
        )
    }
}

proof fn lemma_insert_count(s: Seq<SessionView>, x: SessionView)
    ensures
        query_count(insert_by_offset(s, x)) == query_count(s) + x.queries.len(),
    decreases s.len(),
{
    let r = insert_by_offset(s, x);
    if s.len() == 0 || first_offset(s.last()) <= first_offset(x) {
        assert(r.drop_last() =~= s);
    } else {
        lemma_insert_count(s.drop_last(), x);
        assert(r.drop_last() =~= insert_by_offset(s.drop_last(), x));
    }
}

/// Ordering by the first query adds no query and drops none.
pub proof fn law_ordering_keeps_count(s: Seq<SessionView>)
    ensures
        query_count(sorted_by_offset(s)) == query_count(s),
    decreases s.len(),
{
    if s.len() > 0 {
        law_ordering_keeps_count(s.drop_last());
        lemma_insert_count(sorted_by_offset(s.drop_last()), s.last());
    }
}

fn offset_of(s: &Session) -> (r: u64)
    ensures
        r == first_offset(s@),
{
    if s.queries.len() == 0 {
        0
    } else {
        proof {
            assert(query_views(s.queries@)[0] == s.queries@[0]@);
        }
        s.queries[0].start_offset_us
    }
}

fn insert_session(out: &mut Vec<Session>, x: Session)
    ensures
        session_views(final(out)@) == insert_by_offset(session_views(old(out)@), x@),
{
    let ghost before = session_views(out@);
    let ghost xv = x@;
    let at = offset_of(&x);
    let mut i: usize = out.len();
    proof {
        assert(before.take(i as int) =~= before);
        assert(insert_by_offset(before, xv) =~= insert_by_offset(before.take(i as int), xv) + before.skip(
            i as int,
        ));
    }
    while i > 0 && at < offset_of(&out[i - 1])
        invariant
            i <= out@.len(),
            before == session_views(out@),
            before == session_views(old(out)@),
            xv == x@,
            at == first_offset(xv),
            insert_by_offset(before, xv) == insert_by_offset(before.take(i as int), xv) + before.skip(i as int),
        decreases i,
    {
        proof {
            let t = before.take(i as int);
            assert(t.last() == out@[i - 1]@);
            assert(t.drop_last() =~= before.take(i - 1));
            assert(insert_by_offset(before.take(i - 1), xv).push(t.last()) + before.skip(i as int)
                =~= insert_by_offset(before.take(i - 1), xv) + before.skip(i - 1));
        }
        i = i - 1;
    }
    proof {
        let t = before.take(i as int);
        assert(t.len() > 0 ==> t.last() == out@[i - 1]@);
    }
    out.insert(i, x);
    proof {
        assert(session_views(out@) =~= before.take(i as int).push(xv) + before.skip(i as int));
    }
}

fn sort_by_offset(sessions: Vec<Session>) -> (r: Vec<Session>)
    ensures
        session_views(r@) == sorted_by_offset(session_views(sessions@)),
{
    let ghost s = session_views(sessions@);
    let mut out: Vec<Session> = Vec::new();
    proof {
        assert(session_views(out@) =~= sorted_by_offset(s.take(0)));
    }
    for x in it: sessions
        invariant
            s == session_views(it.seq()),
            session_views(out@) == sorted_by_offset(s.take(it.index() as int)),
    {
        proof {
            let i = it.index() as int;
            assert(s.take(i + 1).drop_last() =~= s.take(i));
            assert(s.take(i + 1).last() == x@);
        }
        insert_session(&mut out, x);
    }
    proof {
        assert(s.take(s.len() as int) =~= s);
    }
    out
}

/// The entries after their translation.
pub fn apply_changes(entries: Vec<LogEntry>, changes: Vec<SqlChange>) -> (r: Vec<LogEntry>)
    requires
        changes@.len() == entries@.len(),
    ensures
        entry_views(r@) == all_changed(entry_views(entries@), change_views(changes@)),
{
    let ghost es = entry_views(entries@);
    let ghost cs = change_views(changes@);
    let mut out = entries;
    let total: usize = out.len();
    let mut i: usize = 0;
    for c in it: changes
        invariant
            total == es.len(),
            cs == change_views(it.seq()),
            i == it.index(),
            es.len() == cs.len(),
            out@.len() == es.len(),
            forall|k: int| i <= k < es.len() ==> (#[trigger] out@[k])@ == es[k],
            forall|k: int| 0 <= k < i ==> (#[trigger] out@[k])@ == changed(es[k], cs[k]),
    {
        proof {
            assert(c@ == cs[i as int]);
            assert(out@[i as int]@ == es[i as int]);
        }
        match c {
            SqlChange::Transformed(sql) => {
                out[i].sql = sql;
            },
            SqlChange::Unchanged => {},
            SqlChange::Skipped => {
                out[i].keep = false;
            },
        }
        i = i + 1;
    }
    proof {
        assert(entry_views(out@) =~= all_changed(es, cs));
    }
    out
}

/// MySQL's slow query log.
#[derive(Debug)]
pub struct MysqlSlowLogCapture;

impl MysqlSlowLogCapture {
    /// The workload of a log's entries.
    pub fn build_profile(&self, entries: Vec<LogEntry>, source_host: &str, captured_at: Timestamp) -> (r: Result<
        WorkloadProfile,
        CaptureError,
    >)
        ensures
            outcome(r) == slow_workload(entry_views(entries@), source_host@, captured_at),
    {
        let ghost es = entry_views(entries@);
        if entries.len() as u64 == u64::MAX {
            return Err(CaptureError::TooLong);
        }
        let (mut sessions, span) = build_sessions(entries);
        proof {
            law_no_more_queries_than_entries(es);
            law_transactions_keep_count(log_sessions(es));
            law_ordering_keeps_count(with_all_txns(log_sessions(es)));
        }
        assign_all_transactions(&mut sessions);
        let sessions = sort_by_offset(sessions);
        Ok(
            make_profile(
                sessions,
                span,
                source_host,
                "unknown",
                "mysql_slow_log",
                SourceDialect::MySql,
                captured_at,
            ),
        )
    }

    /// The workload of a log's text, with the statements as they are.
    pub fn capture_from_text(&self, text: &str, source_host: &str, now: Timestamp) -> (r: Result<
        WorkloadProfile,
        CaptureError,
    >)
        ensures
            outcome(r) == slow_workload(slow_entries(text@, now), source_host@, now),
    {
        self.build_profile(parse_slow_log(text, now), source_host, now)
    }
}

} // verus!
