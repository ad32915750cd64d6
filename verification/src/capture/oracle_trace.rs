//! Capture from Oracle's SQL trace (event 10046): top-level statements of one
//! session, with their bind values put in place.

use crate::capture::error::{outcome, CaptureError, ErrorView};
use crate::capture::summary::summary_sessions;
use crate::number::{parse_u64, parse_unsigned};
use crate::profile::{
    assign_transaction_ids, kind_of, lemma_txn_count_bound, plain_metadata, query_views, session_views,
    with_txns, Metadata, ProfileView, Query, QueryKind, QueryView, Session, SourceDialect, Timestamp,
    WorkloadProfile,
};
use crate::text::{
    chars_start_with, copy_string, from_chars, join, join_strings, lines, replace, replace_chars, skip_chars,
    split_lines, starts_with, str_starts_with, to_chars, trim, trim_slice, trim_start, trim_start_slice, views,
};
use vstd::hash_map::StringHashMap;
use vstd::prelude::*;
use vstd::slice::slice_subrange;

verus! {

// ── Patterns ────────────────────────────────────────────────────────

/// The patterns that are looked for in trace lines; each has one group.
pub open spec fn is_line_pattern(p: Seq<char>) -> bool {
    p == r"^PARSING IN CURSOR #(\d+) "@ || p == r"^EXEC #(\d+):"@ || p == r"^BINDS #(\d+):"@ || p
        == r"\bdep=(\d+)"@ || p == r"\be=(\d+)"@ || p == r"\btim=(\d+)"@
}

/// What the first group of a pattern holds at its first match in a text, by
/// `regex::Regex::captures`.
pub uninterp spec fn first_group(pattern: Seq<char>, text: Seq<char>) -> Option<Seq<char>>;

/// The matches of a pattern in a text, by `regex::Regex::find_iter`.
pub uninterp spec fn pattern_matches(pattern: Seq<char>, text: Seq<char>) -> Seq<Seq<char>>;

/// The texts between the matches of a pattern, by `regex::Regex::split`.
pub uninterp spec fn pattern_gaps(pattern: Seq<char>, text: Seq<char>) -> Seq<Seq<char>>;

pub open spec fn text_view(r: Option<String>) -> Option<Seq<char>> {
    match r {
        Some(s) => Some(s@),
        None => None,
    }
}

/// `Regex::new` and `Regex::captures`: the text of the first group at the first
/// match of a pattern.
#[verifier::external_body]
fn regex_group(pattern: &str, text: &str) -> (r: Option<String>)
    requires
        is_line_pattern(pattern@),
    ensures
        text_view(r) == first_group(pattern@, text@),
{
    regex::Regex::new(pattern).unwrap().captures(text).map(|groups| groups[1].to_string())
}

/// `Regex::new` and `Regex::find_iter`: the texts that a pattern matches, in
/// order and without overlap.
#[verifier::external_body]
fn regex_matches(pattern: &str, text: &str) -> (r: Vec<String>)
    requires
        pattern@ == r":\w+"@,
    ensures
        views(r@) == pattern_matches(pattern@, text@),
{
    regex::Regex::new(pattern).unwrap().find_iter(text).map(|m| m.as_str().to_string()).collect()
}

/// Whether gaps and matches in turn make up a text.
pub open spec fn interleave(gaps: Seq<Seq<char>>, matches: Seq<Seq<char>>, text: Seq<char>) -> bool {
    fill(gaps, matches, Seq::empty(), gaps.len() as int) == text
}

/// `Regex::new` and `Regex::split`: the texts before, between and behind the
/// matches of a pattern, which make up the text with them.
#[verifier::external_body]
fn regex_split(pattern: &str, text: &str) -> (r: Vec<String>)
    requires
        pattern@ == r":\w+"@,
    ensures
        views(r@) == pattern_gaps(pattern@, text@),
        interleave(views(r@), pattern_matches(pattern@, text@), text@),
{
    regex::Regex::new(pattern).unwrap().split(text).map(|s| s.to_string()).collect()
}

// ── Bind values ─────────────────────────────────────────────────────

/// A bind value as an SQL literal: text in double quotes becomes a string, any
/// other value stays as it is.
pub open spec fn bind_literal(v: Seq<char>) -> Seq<char> {
    let t = trim(v);
    if t.len() >= 2 && t[0] == '"' && t.last() == '"' {
        seq!['\''] + replace(t.subrange(1, t.len() - 1), seq!['\''], seq!['\'', '\'']) + seq!['\'']
    } else {
        t
    }
}

/// A bind value as an SQL literal.
pub fn format_bind(v: &str) -> (r: String)
    ensures
        r@ == bind_literal(v@),
{
    let all = to_chars(v);
    let t = trim_slice(&all);
    let n: usize = t.len();
    if n >= 2 && t[0] == '"' && t[n - 1] == '"' {
        let mut quote: Vec<char> = Vec::new();
        quote.push('\'');
        let mut doubled: Vec<char> = Vec::new();
        doubled.push('\'');
        doubled.push('\'');
        proof {
            assert(quote@ =~= seq!['\'']);
            assert(doubled@ =~= seq!['\'', '\'']);
        }
        let inner = replace_chars(slice_subrange(t, 1, n - 1), &quote, &doubled);
        let mut out = String::new();
        out.push('\'');
        crate::text::push_chars(&mut out, &inner);
        out.push('\'');
        proof {
            assert(out@ =~= bind_literal(v@));
        }
        out
    } else {
        from_chars(t)
    }
}

/// The text for the `i`th placeholder: its value as a literal, or the placeholder
/// itself if there is none.
pub open spec fn filled(placeholders: Seq<Seq<char>>, vals: Seq<Seq<char>>, i: int) -> Seq<char> {
    if i >= placeholders.len() {
        Seq::empty()
    } else if i < vals.len() {
        bind_literal(vals[i])
    } else {
        placeholders[i]
    }
}

/// The first `n` gaps, each with what stands for the placeholder behind it.
pub open spec fn fill(
    gaps: Seq<Seq<char>>,
    placeholders: Seq<Seq<char>>,
    vals: Seq<Seq<char>>,
    n: int,
) -> Seq<char>
    decreases n,
{
    if n <= 0 {
        Seq::empty()
    } else {
        fill(gaps, placeholders, vals, n - 1) + gaps[n - 1] + filled(placeholders, vals, n - 1)
    }
}

/// A statement with values put in place of its placeholders, in order.
pub open spec fn with_binds(sql: Seq<char>, vals: Seq<Seq<char>>) -> Seq<char> {
    let gaps = pattern_gaps(r":\w+"@, sql);
    fill(gaps, pattern_matches(r":\w+"@, sql), vals, gaps.len() as int)
}

/// Puts values in place of placeholders, given the texts around them.
pub fn fill_placeholders(gaps: &[String], placeholders: &[String], vals: &[String]) -> (r: String)
    ensures
        r@ == fill(views(gaps@), views(placeholders@), views(vals@), gaps@.len() as int),
{
    let mut out = String::new();
    proof {
        assert(out@ =~= Seq::empty());
    }
    for i in 0..gaps.len()
        invariant
            out@ == fill(views(gaps@), views(placeholders@), views(vals@), i as int),
    {
        let ghost before = out@;
        out.push_str(gaps[i].as_str());
        if i < placeholders.len() {
            if i < vals.len() {
                out.push_str(format_bind(vals[i].as_str()).as_str());
            } else {
                out.push_str(placeholders[i].as_str());
            }
        }
        proof {
            assert(out@ =~= before + views(gaps@)[i as int] + filled(
                views(placeholders@),
                views(vals@),
                i as int,
            ));
        }
    }
    out
}

/// A statement with values put in place of its placeholders, in order. Where
/// there are no values it stays as it is.
pub fn substitute_binds(sql: &str, vals: &[String]) -> (r: String)
    ensures
        r@ == with_binds(sql@, views(vals@)),
        vals@.len() == 0 ==> r@ == sql@,
{
    let gaps = regex_split(r":\w+", sql);
    let placeholders = regex_matches(r":\w+", sql);
    proof {
        assert(views(gaps@).len() == gaps@.len());
        if vals@.len() == 0 {
            assert(views(vals@) =~= Seq::empty());
        }
    }
    fill_placeholders(gaps.as_slice(), placeholders.as_slice(), vals)
}

// ── The trace ───────────────────────────────────────────────────────

/// Whether a line begins an event.
pub open spec fn begins_event(line: Seq<char>) -> bool {
    starts_with(line, "EXEC "@) || starts_with(line, "PARSE "@) || starts_with(line, "FETCH "@) || starts_with(
        line,
        "CLOSE "@,
    ) || starts_with(line, "STAT "@) || starts_with(line, "WAIT "@) || starts_with(line, "BINDS "@)
        || starts_with(line, "PARSING IN CURSOR"@) || starts_with(line, "==="@) || starts_with(line, "***"@)
        || starts_with(line, "XCTEND"@)
}

/// Whether a line begins an event; such a line ends a `BINDS` section.
pub fn is_trace_event(line: &str) -> (r: bool)
    ensures
        r == begins_event(line@),
{
    str_starts_with(line, "EXEC ") || str_starts_with(line, "PARSE ") || str_starts_with(line, "FETCH ")
        || str_starts_with(line, "CLOSE ") || str_starts_with(line, "STAT ") || str_starts_with(line, "WAIT ")
        || str_starts_with(line, "BINDS ") || str_starts_with(line, "PARSING IN CURSOR") || str_starts_with(
        line,
        "===",
    ) || str_starts_with(line, "***") || str_starts_with(line, "XCTEND")
}

/// How far a trace has been read: the statement and the depth of each cursor,
/// its last bind values, the queries, and the time of the first.
pub ghost struct TraceModel {
    pub cursors: Map<Seq<char>, (Seq<char>, u64)>,
    pub binds: Map<Seq<char>, Seq<Seq<char>>>,
    pub queries: Seq<QueryView>,
    pub first_tim: Option<u64>,
}

/// Nothing read yet.
pub open spec fn trace_start() -> TraceModel {
    TraceModel { cursors: Map::empty(), binds: Map::empty(), queries: Seq::empty(), first_tim: None }
}

/// A cursor was parsed.
pub open spec fn parsed(m: TraceModel, cursor: Seq<char>, sql: Seq<char>, dep: u64) -> TraceModel {
    TraceModel { cursors: m.cursors.insert(cursor, (sql, dep)), ..m }
}

/// A cursor was given bind values.
pub open spec fn bound(m: TraceModel, cursor: Seq<char>, vals: Seq<Seq<char>>) -> TraceModel {
    TraceModel { binds: m.binds.insert(cursor, vals), ..m }
}

/// The statement of a cursor with its bind values put in place.
pub open spec fn bound_sql(m: TraceModel, cursor: Seq<char>) -> Seq<char> {
    if m.binds.contains_key(cursor) && m.binds[cursor].len() > 0 {
        with_binds(m.cursors[cursor].0, m.binds[cursor])
    } else {
        m.cursors[cursor].0
    }
}

/// The difference, zero if it would be negative.
pub open spec fn saturating_difference(a: u64, b: u64) -> u64 {
    if a >= b {
        (a - b) as u64
    } else {
        0
    }
}

/// A cursor was executed: a top-level statement becomes a query.
pub open spec fn executed(m: TraceModel, cursor: Seq<char>, elapsed: u64, tim: u64) -> TraceModel {
    if m.cursors.contains_key(cursor) && m.cursors[cursor].1 == 0 && m.cursors[cursor].0.len() > 0 {
        let sql = bound_sql(m, cursor);
        let first = match m.first_tim {
            Some(t) => t,
            None => tim,
        };
        TraceModel {
            queries: m.queries.push(
                QueryView {
                    sql,
                    start_offset_us: saturating_difference(tim, first),
                    duration_us: elapsed,
                    kind: kind_of(sql),
                    transaction_id: None,
                    response_values: None,
                    original_sql: None,
                },
            ),
            first_tim: Some(first),
            ..m
        }
    } else {
        m
    }
}

/// The cursor of an event line that begins with a prefix.
pub open spec fn event_cursor(line: Seq<char>, prefix: Seq<char>, pattern: Seq<char>) -> Option<Seq<char>> {
    if starts_with(line, prefix) {
        first_group(pattern, line)
    } else {
        None
    }
}

/// A number in a line, zero if there is none of at most `max`.
pub open spec fn line_number(line: Seq<char>, pattern: Seq<char>, max: u64) -> u64 {
    match first_group(pattern, line) {
        Some(s) => match parse_unsigned(s, max as nat) {
            Some(n) => n as u64,
            None => 0,
        },
        None => 0,
    }
}

/// The first line from `i` on that ends a statement.
pub open spec fn statement_end(ls: Seq<Seq<char>>, i: int) -> int
    decreases ls.len() - i,
{
    if i < 0 || i >= ls.len() || starts_with(ls[i], "END OF STMT"@) {
        i
    } else {
        statement_end(ls, i + 1)
    }
}

/// The first line from `i` on that begins an event.
pub open spec fn section_end(ls: Seq<Seq<char>>, i: int) -> int
    decreases ls.len() - i,
{
    if i < 0 || i >= ls.len() || begins_event(ls[i]) {
        i
    } else {
        section_end(ls, i + 1)
    }
}

/// The value of a line of a `BINDS` section.
pub open spec fn bind_value(line: Seq<char>) -> Option<Seq<char>> {
    let t = trim_start(line);
    if starts_with(t, "value="@) {
        Some(trim(t.skip(6)))
    } else {
        None
    }
}

/// The values of the lines from `start` to `end`.
pub open spec fn bind_values(ls: Seq<Seq<char>>, start: int, end: int) -> Seq<Seq<char>>
    decreases end - start,
{
    if end <= start {
        Seq::empty()
    } else {
        let rest = bind_values(ls, start, end - 1);
        match bind_value(ls[end - 1]) {
            Some(v) => rest.push(v),
            None => rest,
        }
    }
}

pub open spec fn parsing_cursor(line: Seq<char>) -> Option<Seq<char>> {
    event_cursor(line, "PARSING IN CURSOR #"@, r"^PARSING IN CURSOR #(\d+) "@)
}

pub open spec fn binds_cursor(line: Seq<char>) -> Option<Seq<char>> {
    event_cursor(line, "BINDS #"@, r"^BINDS #(\d+):"@)
}

pub open spec fn exec_cursor(line: Seq<char>) -> Option<Seq<char>> {
    event_cursor(line, "EXEC #"@, r"^EXEC #(\d+):"@)
}

/// The line to read after what begins at line `i`.
pub open spec fn next_line(ls: Seq<Seq<char>>, i: int) -> int {
    if parsing_cursor(ls[i]) is Some {
        let end = statement_end(ls, i + 1);
        if end < ls.len() {
            end + 1
        } else {
            end
        }
    } else if binds_cursor(ls[i]) is Some {
        section_end(ls, i + 1)
    } else {
        i + 1
    }
}

/// What begins at line `i` read.
pub open spec fn trace_step(ls: Seq<Seq<char>>, i: int, m: TraceModel) -> TraceModel {
    let line = ls[i];
    if parsing_cursor(line) is Some {
        parsed(
            m,
            parsing_cursor(line)->0,
            trim(join(ls.subrange(i + 1, statement_end(ls, i + 1)), " "@)),
            line_number(line, r"\bdep=(\d+)"@, u32::MAX as u64),
        )
    } else if binds_cursor(line) is Some {
        bound(m, binds_cursor(line)->0, bind_values(ls, i + 1, section_end(ls, i + 1)))
    } else if exec_cursor(line) is Some {
        executed(
            m,
            exec_cursor(line)->0,
            line_number(line, r"\be=(\d+)"@, u64::MAX),
            line_number(line, r"\btim=(\d+)"@, u64::MAX),
        )
    } else {
        m
    }
}

/// The lines from `i` on read.
pub open spec fn trace_from(ls: Seq<Seq<char>>, i: int, m: TraceModel) -> TraceModel
    decreases ls.len() - i,
    via trace_from_ends
{
    if i < 0 || i >= ls.len() {
        m
    } else {
        trace_from(ls, next_line(ls, i), trace_step(ls, i, m))
    }
}

#[via_fn]
proof fn trace_from_ends(ls: Seq<Seq<char>>, i: int, m: TraceModel) {
    if 0 <= i < ls.len() {
        lemma_statement_end(ls, i + 1);
        lemma_section_end(ls, i + 1);
    }
}

proof fn lemma_statement_end(ls: Seq<Seq<char>>, i: int)
    ensures
        i <= statement_end(ls, i),
        0 <= i <= ls.len() ==> statement_end(ls, i) <= ls.len(),
    decreases ls.len() - i,
{
    if 0 <= i < ls.len() && !starts_with(ls[i], "END OF STMT"@) {
        lemma_statement_end(ls, i + 1);
    }
}

proof fn lemma_section_end(ls: Seq<Seq<char>>, i: int)
    ensures
        i <= section_end(ls, i),
        0 <= i <= ls.len() ==> section_end(ls, i) <= ls.len(),
    decreases ls.len() - i,
{
    if 0 <= i < ls.len() && !begins_event(ls[i]) {
        lemma_section_end(ls, i + 1);
    }
}

/// The statement of a cursor and its recursion depth.
#[derive(Debug)]
pub struct CursorSql {
    pub sql: String,
    pub dep: u64,
}

pub open spec fn cursor_view(c: CursorSql) -> (Seq<char>, u64) {
    (c.sql@, c.dep)
}

pub open spec fn values_view(v: Vec<String>) -> Seq<Seq<char>> {
    views(v@)
}

/// How far a trace has been read.
pub struct TraceState {
    cursors: StringHashMap<CursorSql>,
    binds: StringHashMap<Vec<String>>,
    queries: Vec<Query>,
    first_tim: Option<u64>,
}

impl View for TraceState {
    type V = TraceModel;

    closed spec fn view(&self) -> TraceModel {
        TraceModel {
            cursors: self.cursors@.map_values(|c: CursorSql| cursor_view(c)),
            binds: self.binds@.map_values(|v: Vec<String>| values_view(v)),
            queries: query_views(self.queries@),
            first_tim: self.first_tim,
        }
    }
}

impl TraceState {
    pub fn new() -> (r: Self)
        ensures
            r@ == trace_start(),
    {
        let r = TraceState {
            cursors: StringHashMap::new(),
            binds: StringHashMap::new(),
            queries: Vec::new(),
            first_tim: None,
        };
        proof {
            assert(r@.cursors =~= Map::empty());
            assert(r@.binds =~= Map::empty());
            assert(r@.queries =~= Seq::empty());
        }
        r
    }

    /// A cursor was parsed.
    pub fn on_parsed(&mut self, cursor: String, sql: String, dep: u64)
        ensures
            final(self)@ == parsed(old(self)@, cursor@, sql@, dep),
    {
        let ghost before = self@;
        let ghost name = cursor@;
        self.cursors.insert(cursor, CursorSql { sql, dep });
        proof {
            assert(self@.cursors =~= before.cursors.insert(name, (sql@, dep)));
        }
    }

    /// A cursor was given bind values.
    pub fn on_bound(&mut self, cursor: String, vals: Vec<String>)
        ensures
            final(self)@ == bound(old(self)@, cursor@, views(vals@)),
    {
        let ghost before = self@;
        let ghost name = cursor@;
        self.binds.insert(cursor, vals);
        proof {
            assert(self@.binds =~= before.binds.insert(name, views(vals@)));
        }
    }

    /// A cursor was executed.
    pub fn on_executed(&mut self, cursor: &str, elapsed: u64, tim: u64)
        ensures
            final(self)@ == executed(old(self)@, cursor@, elapsed, tim),
    {
        let ghost before = self@;
        let sql = match self.cursors.get(cursor) {
            Some(c) => {
                proof {
                    assert(before.cursors[cursor@] == cursor_view(*c));
                }
                if c.dep != 0 || to_chars(c.sql.as_str()).len() == 0 {
                    return;
                }
                match self.binds.get(cursor) {
                    Some(v) => {
                        proof {
                            assert(before.binds[cursor@] == values_view(*v));
                        }
                        if v.len() > 0 {
                            substitute_binds(c.sql.as_str(), v.as_slice())
                        } else {
                            copy_string(c.sql.as_str())
                        }
                    },
                    None => copy_string(c.sql.as_str()),
                }
            },
            None => return,
        };
        let first: u64 = match self.first_tim {
            Some(t) => t,
            None => tim,
        };
        let kind = QueryKind::from_sql(sql.as_str());
        let q = Query {
            sql,
            start_offset_us: if tim >= first {
                tim - first
            } else {
                0
            },
            duration_us: elapsed,
            kind,
            transaction_id: None,
            response_values: None,
            original_sql: None,
        };
        let ghost qv = q@;
        self.first_tim = Some(first);
        self.queries.push(q);
        proof {
            assert(self@.queries =~= before.queries.push(qv));
        }
    }
}

fn find_cursor(line: &str, prefix: &str, pattern: &str) -> (r: Option<String>)
    requires
        is_line_pattern(pattern@),
    ensures
        text_view(r) == event_cursor(line@, prefix@, pattern@),
{
    if str_starts_with(line, prefix) {
        regex_group(pattern, line)
    } else {
        None
    }
}

fn find_number(line: &str, pattern: &str, max: u64) -> (r: u64)
    requires
        is_line_pattern(pattern@),
    ensures
        r == line_number(line@, pattern@, max),
{
    match regex_group(pattern, line) {
        Some(s) => match parse_u64(&to_chars(s.as_str()), max) {
            Some(n) => n,
            None => 0,
        },
        None => 0,
    }
}

fn find_statement_end(ls: &Vec<String>, from: usize) -> (r: usize)
    requires
        from <= ls@.len(),
    ensures
        r == statement_end(views(ls@), from as int),
        from <= r <= ls@.len(),
{
    let ghost all = views(ls@);
    let mut i: usize = from;
    while i < ls.len() && !str_starts_with(ls[i].as_str(), "END OF STMT")
        invariant
            from <= i <= ls@.len(),
            all == views(ls@),
            statement_end(all, from as int) == statement_end(all, i as int),
        decreases ls@.len() - i,
    {
        i = i + 1;
    }
    i
}

fn read_binds(ls: &Vec<String>, from: usize) -> (r: (Vec<String>, usize))
    requires
        from <= ls@.len(),
    ensures
        r.1 == section_end(views(ls@), from as int),
        from <= r.1 <= ls@.len(),
        views(r.0@) == bind_values(views(ls@), from as int, r.1 as int),
{
    let ghost all = views(ls@);
    let mut vals: Vec<String> = Vec::new();
    let mut i: usize = from;
    proof {
        assert(views(vals@) =~= bind_values(all, from as int, from as int));
    }
    while i < ls.len() && !is_trace_event(ls[i].as_str())
        invariant
            from <= i <= ls@.len(),
            all == views(ls@),
            section_end(all, from as int) == section_end(all, i as int),
            views(vals@) == bind_values(all, from as int, i as int),
        decreases ls@.len() - i,
    {
        proof {
            reveal_strlit("value=");
            assert(all[i as int] == ls@[i as int]@);
        }
        let chars = to_chars(ls[i].as_str());
        let t = trim_start_slice(&chars);
        if chars_start_with(t, &to_chars("value=")) {
            let ghost before = views(vals@);
            let v = from_chars(trim_slice(skip_chars(t, 6)));
            let ghost vv = v@;
            vals.push(v);
            proof {
                assert(views(vals@) =~= before.push(vv));
            }
        }
        i = i + 1;
    }
    (vals, i)
}

fn read_statement(ls: &Vec<String>, from: usize, end: usize) -> (r: String)
    requires
        from <= end <= ls@.len(),
    ensures
        r@ == trim(join(views(ls@).subrange(from as int, end as int), " "@)),
{
    let part = slice_subrange(ls.as_slice(), from, end);
    proof {
        assert(views(part@) =~= views(ls@).subrange(from as int, end as int));
    }
    let all = to_chars(join_strings(part, " ").as_str());
    from_chars(trim_slice(&all))
}

/// Reads the lines of a trace.
pub fn read_trace(ls: &Vec<String>) -> (r: TraceState)
    ensures
        r@ == trace_from(views(ls@), 0, trace_start()),
{
    let ghost all = views(ls@);
    let mut state = TraceState::new();
    let mut i: usize = 0;
    while i < ls.len()
        invariant
            all == views(ls@),
            trace_from(all, i as int, state@) == trace_from(all, 0, trace_start()),
        decreases ls@.len() - i,
    {
        let n: usize = ls.len();
        let ghost m = state@;
        proof {
            assert(all[i as int] == ls@[i as int]@);
            assert(trace_from(all, i as int, m) == trace_from(
                all,
                next_line(all, i as int),
                trace_step(all, i as int, m),
            ));
        }
        let line = ls[i].as_str();
        if let Some(cursor) = find_cursor(line, "PARSING IN CURSOR #", r"^PARSING IN CURSOR #(\d+) ") {
            let dep = find_number(line, r"\bdep=(\d+)", u32::MAX as u64);
            let end = find_statement_end(ls, i + 1);
            let sql = read_statement(ls, i + 1, end);
            state.on_parsed(cursor, sql, dep);
            i = if end < n { end + 1 } else { end };
        } else if let Some(cursor) = find_cursor(line, "BINDS #", r"^BINDS #(\d+):") {
            let (vals, end) = read_binds(ls, i + 1);
            state.on_bound(cursor, vals);
            i = end;
        } else {
            if let Some(cursor) = find_cursor(line, "EXEC #", r"^EXEC #(\d+):") {
                let elapsed = find_number(line, r"\be=(\d+)", u64::MAX);
                let tim = find_number(line, r"\btim=(\d+)", u64::MAX);
                state.on_executed(cursor.as_str(), elapsed, tim);
            }
            i = i + 1;
        }
    }
    state
}

// ── The workload ────────────────────────────────────────────────────

/// The end of the last query.
pub open spec fn queries_end(qs: Seq<QueryView>) -> nat {
    if qs.len() == 0 {
        0
    } else {
        (qs.last().start_offset_us + qs.last().duration_us) as nat
    }
}

/// The workload of a trace's queries.
pub open spec fn oracle_workload(qs: Seq<QueryView>, source_host: Seq<char>, captured_at: Timestamp) -> Result<
    ProfileView,
    ErrorView,
> {
    if qs.len() >= u64::MAX || queries_end(qs) > u64::MAX {
        Err(ErrorView::TooLong)
    } else {
        let sessions = summary_sessions(with_txns(qs, 1), source_host);
        Ok(
            ProfileView {
                version: 2,
                captured_at,
                source_host,
                pg_version: "unknown"@,
                capture_method: "oracle_trace"@,
                source_dialect: SourceDialect::Oracle,
                sessions,
                metadata: plain_metadata(qs.len(), sessions.len(), queries_end(qs)),
            },
        )
    }
}

/// An Oracle SQL trace.
#[derive(Debug)]
pub struct OracleTraceCapture;

impl OracleTraceCapture {
    /// The workload of a trace that has been read.
    pub fn build_profile(&self, state: TraceState, source_host: &str, captured_at: Timestamp) -> (r: Result<
        WorkloadProfile,
        CaptureError,
    >)
        ensures
            outcome(r) == oracle_workload(state@.queries, source_host@, captured_at),
    {
        let mut queries = state.queries;
        let ghost qs = query_views(queries@);
        let n: usize = queries.len();
        if n as u64 == u64::MAX {
            return Err(CaptureError::TooLong);
        }
        let end: u64 = if n == 0 {
            0
        } else {
            proof {
                assert(qs.last() == queries@[n - 1]@);
            }
            let start: u64 = queries[n - 1].start_offset_us;
            let duration: u64 = queries[n - 1].duration_us;
            if start > u64::MAX - duration {
                return Err(CaptureError::TooLong);
            }
            start + duration
        };
        let mut next: u64 = 1;
        proof {
            lemma_txn_count_bound(qs);
        }
        assign_transaction_ids(&mut queries, &mut next);
        let ghost with = query_views(queries@);
        let mut sessions: Vec<Session> = Vec::new();
        if n > 0 {
            sessions.push(
                Session { id: 1, user: copy_string(source_host), database: String::new(), queries },
            );
        }
        proof {
            assert(session_views(sessions@) =~= summary_sessions(with, source_host@));
        }
        let total_sessions = sessions.len() as u64;
        Ok(
            WorkloadProfile {
                version: 2,
                captured_at,
                source_host: copy_string(source_host),
                pg_version: copy_string("unknown"),
                capture_method: copy_string("oracle_trace"),
                source_dialect: SourceDialect::Oracle,
                sessions,
                metadata: Metadata {
                    total_queries: n as u64,
                    total_sessions,
                    capture_duration_us: end,
                    sequence_snapshot: None,
                    pk_map: None,
                },
            },
        )
    }

    /// The workload of a trace's text.
    pub fn capture_from_reader(&self, text: &str, source_host: &str, captured_at: Timestamp) -> (r: Result<
        WorkloadProfile,
        CaptureError,
    >)
        ensures
            outcome(r) == oracle_workload(
                trace_from(lines(text@), 0, trace_start()).queries,
                source_host@,
                captured_at,
            ),
    {
        let ls = split_lines(text);
        let state = read_trace(&ls);
        self.build_profile(state, source_host, captured_at)
    }
}

} // verus!
