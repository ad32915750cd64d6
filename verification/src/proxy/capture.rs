//! The capture collector: events of relayed sessions become queries, and
//! queries become a workload profile.

use crate::capture::error::CaptureError;
use crate::capture::masking::{mask_sql_literals, masked};
use crate::correlate::capture::{row_views, ResponseRow, RowView};
use crate::correlate::sequence::SequenceState;
use crate::profile::{
    lemma_query_count_take,
    assign_all_transactions, count_queries, ends_fit, find_workload_end, kind_of, last_end, plain_metadata,
    query_count, query_views, sequence_views, session_views, sort_sessions, sorted_by_id, with_all_txns,
    workload_end, Metadata, MetadataView, ProfileView, Query, QueryKind, QueryView, Session, SessionView, SourceDialect, Timestamp,
    WorkloadProfile,
};
use crate::proxy::protocol::{opt_view, opt_views};
use crate::text::{copy_string, views};
use std::collections::HashMap;
use vstd::prelude::*;

verus! {

broadcast use vstd::std_specs::hash::group_hash_axioms;

// ── Events ──────────────────────────────────────────────────────────

/// Events sent from relay tasks to the capture collector. Timestamps count
/// nanoseconds from a fixed point in time.
#[derive(Debug, Clone)]
pub enum CaptureEvent {
    SessionStart { session_id: u64, user: String, database: String, timestamp: u64 },
    QueryStart { session_id: u64, sql: String, timestamp: u64 },
    QueryComplete { session_id: u64, timestamp: u64 },
    QueryError { session_id: u64, message: String, timestamp: u64 },
    /// The rows that a RETURNING clause gave; they belong to the query that
    /// was completed last.
    QueryReturning { session_id: u64, columns: Vec<String>, rows: Vec<Vec<Option<String>>>, timestamp: u64 },
    SessionEnd { session_id: u64 },
}

/// The model of an event.
pub enum EventView {
    SessionStart { session_id: u64, user: Seq<char>, database: Seq<char>, timestamp: u64 },
    QueryStart { session_id: u64, sql: Seq<char>, timestamp: u64 },
    QueryComplete { session_id: u64, timestamp: u64 },
    QueryError { session_id: u64, message: Seq<char>, timestamp: u64 },
    QueryReturning {
        session_id: u64,
        columns: Seq<Seq<char>>,
        rows: Seq<Seq<Option<Seq<char>>>>,
        timestamp: u64,
    },
    SessionEnd { session_id: u64 },
}

/// The models of rows of values.
pub open spec fn value_rows(v: Seq<Vec<Option<String>>>) -> Seq<Seq<Option<Seq<char>>>> {
    Seq::new(v.len(), |i: int| opt_views(v[i]@))
}

impl View for CaptureEvent {
    type V = EventView;

    open spec fn view(&self) -> EventView {
        match self {
            CaptureEvent::SessionStart { session_id, user, database, timestamp } => EventView::SessionStart {
                session_id: *session_id,
                user: user@,
                database: database@,
                timestamp: *timestamp,
            },
            CaptureEvent::QueryStart { session_id, sql, timestamp } => EventView::QueryStart {
                session_id: *session_id,
                sql: sql@,
                timestamp: *timestamp,
            },
            CaptureEvent::QueryComplete { session_id, timestamp } => EventView::QueryComplete {
                session_id: *session_id,
                timestamp: *timestamp,
            },
            CaptureEvent::QueryError { session_id, message, timestamp } => EventView::QueryError {
                session_id: *session_id,
                message: message@,
                timestamp: *timestamp,
            },
            CaptureEvent::QueryReturning { session_id, columns, rows, timestamp } => EventView::QueryReturning {
                session_id: *session_id,
                columns: views(columns@),
                rows: value_rows(rows@),
                timestamp: *timestamp,
            },
            CaptureEvent::SessionEnd { session_id } => EventView::SessionEnd { session_id: *session_id },
        }
    }
}

/// Whole microseconds from one point in time to another, zero if it is earlier.
pub open spec fn micros_between(from: u64, to: u64) -> u64 {
    if to >= from {
        ((to - from) / 1000) as u64
    } else {
        0
    }
}

pub(crate) fn elapsed_micros(from: u64, to: u64) -> (r: u64)
    ensures
        r == micros_between(from, to),
{
    if to >= from {
        (to - from) / 1000
    } else {
        0
    }
}

/// The first `n` values of a row with the names of their columns, values that
/// are NULL left out.
pub open spec fn named_values(columns: Seq<Seq<char>>, values: Seq<Option<Seq<char>>>, n: int) -> RowView
    decreases n,
{
    if n <= 0 {
        Seq::empty()
    } else {
        let rest = named_values(columns, values, n - 1);
        match values[n - 1] {
            Some(v) => rest.push((columns[n - 1], v)),
            None => rest,
        }
    }
}

/// The rows of a RETURNING clause as names and values.
pub open spec fn response_rows(columns: Seq<Seq<char>>, rows: Seq<Seq<Option<Seq<char>>>>) -> Seq<RowView> {
    Seq::new(
        rows.len(),
        |i: int|
            named_values(
                columns,
                rows[i],
                if columns.len() < rows[i].len() { columns.len() as int } else { rows[i].len() as int },
            ),
    )
}

fn make_response_row(columns: &Vec<String>, values: &Vec<Option<String>>) -> (r: ResponseRow)
    ensures
        r@ == named_values(
            views(columns@),
            opt_views(values@),
            if columns@.len() < values@.len() { columns@.len() as int } else { values@.len() as int },
        ),
{
    let n: usize = if columns.len() < values.len() { columns.len() } else { values.len() };
    let mut out: Vec<(String, String)> = Vec::new();
    let ghost cv = views(columns@);
    let ghost vv = opt_views(values@);
    let mut r = ResponseRow { columns: out };
    proof {
        assert(r@ =~= named_values(cv, vv, 0));
    }
    for i in 0..n
        invariant
            n <= columns@.len(),
            n <= values@.len(),
            cv == views(columns@),
            vv == opt_views(values@),
            r@ == named_values(cv, vv, i as int),
    {
        let ghost before = r@;
        match &values[i] {
            Some(v) => {
                r.columns.push((copy_string(columns[i].as_str()), copy_string(v.as_str())));
                proof {
                    assert(r@ =~= before.push((cv[i as int], v@)));
                }
            },
            None => {},
        }
        proof {
            assert(vv[i as int] == opt_view(values@[i as int]));
        }
    }
    r
}

pub(crate) fn make_response_rows(columns: &Vec<String>, rows: &Vec<Vec<Option<String>>>) -> (r: Vec<ResponseRow>)
    ensures
        row_views(r@) == response_rows(views(columns@), value_rows(rows@)),
{
    let mut out: Vec<ResponseRow> = Vec::new();
    for i in 0..rows.len()
        invariant
            out@.len() == i,
            forall|k: int|
                0 <= k < i ==> (#[trigger] out@[k])@ == response_rows(views(columns@), value_rows(rows@))[k],
    {
        out.push(make_response_row(columns, &rows[i]));
    }
    proof {
        assert(row_views(out@) =~= response_rows(views(columns@), value_rows(rows@)));
    }
    out
}

// ── The collector ───────────────────────────────────────────────────

/// A query that was completed.
#[derive(Debug, Clone)]
pub struct CapturedQuery {
    pub sql: String,
    pub start_offset_us: u64,
    pub duration_us: u64,
    pub is_error: bool,
    pub error_message: Option<String>,
    pub response_values: Option<Vec<ResponseRow>>,
}

/// The model of a completed query.
pub struct CapturedView {
    pub sql: Seq<char>,
    pub start_offset_us: u64,
    pub duration_us: u64,
    pub is_error: bool,
    pub error_message: Option<Seq<char>>,
    pub response_values: Option<Seq<RowView>>,
}

/// The model of optional response rows.
pub open spec fn opt_rows(v: Option<Vec<ResponseRow>>) -> Option<Seq<RowView>> {
    match v {
        Some(r) => Some(row_views(r@)),
        None => None,
    }
}

impl View for CapturedQuery {
    type V = CapturedView;

    open spec fn view(&self) -> CapturedView {
        CapturedView {
            sql: self.sql@,
            start_offset_us: self.start_offset_us,
            duration_us: self.duration_us,
            is_error: self.is_error,
            error_message: opt_view(self.error_message),
            response_values: opt_rows(self.response_values),
        }
    }
}

/// The models of completed queries.
pub open spec fn captured_views(v: Seq<CapturedQuery>) -> Seq<CapturedView> {
    Seq::new(v.len(), |i: int| v[i]@)
}

/// Per-session state tracked by the collector.
#[derive(Debug)]
pub struct SessionState {
    pub id: u64,
    pub user: String,
    pub database: String,
    pub session_start: u64,
    pub queries: Vec<CapturedQuery>,
    pub pending_sql: Option<(String, u64)>,
}

/// The model of a session's state.
pub struct SessionStateView {
    pub id: u64,
    pub user: Seq<char>,
    pub database: Seq<char>,
    pub session_start: u64,
    pub queries: Seq<CapturedView>,
    pub pending: Option<(Seq<char>, u64)>,
}

/// The model of a pending query.
pub open spec fn pending_view(p: Option<(String, u64)>) -> Option<(Seq<char>, u64)> {
    match p {
        Some((s, t)) => Some((s@, t)),
        None => None,
    }
}

impl View for SessionState {
    type V = SessionStateView;

    open spec fn view(&self) -> SessionStateView {
        SessionStateView {
            id: self.id,
            user: self.user@,
            database: self.database@,
            session_start: self.session_start,
            queries: captured_views(self.queries@),
            pending: pending_view(self.pending_sql),
        }
    }
}

/// Collects the queries of all sessions.
pub struct Collector {
    /// The sessions in the order in which they first started.
    sessions: Vec<SessionState>,
    /// The place of each session, by its number.
    places: HashMap<u64, usize>,
}

impl View for Collector {
    type V = Seq<SessionStateView>;

    closed spec fn view(&self) -> Seq<SessionStateView> {
        Seq::new(self.sessions@.len(), |i: int| self.sessions@[i]@)
    }
}

/// The place of a session.
pub open spec fn session_index(s: Seq<SessionStateView>, id: u64) -> Option<int>
    decreases s.len(),
{
    if s.len() == 0 {
        None
    } else {
        match session_index(s.drop_last(), id) {
            Some(i) => Some(i),
            None => if s.last().id == id { Some(s.len() - 1) } else { None },
        }
    }
}

/// A session whose pending query ended at `now`.
pub open spec fn query_ended(s: SessionStateView, now: u64, error: Option<Seq<char>>) -> SessionStateView {
    match s.pending {
        Some((sql, start)) => SessionStateView {
            queries: s.queries.push(
                CapturedView {
                    sql,
                    start_offset_us: micros_between(s.session_start, start),
                    duration_us: micros_between(start, now),
                    is_error: error is Some,
                    error_message: error,
                    response_values: None,
                },
            ),
            pending: None,
            ..s
        },
        None => s,
    }
}

/// A session whose last query returned rows.
pub open spec fn query_returned(s: SessionStateView, rows: Seq<RowView>) -> SessionStateView {
    if s.queries.len() == 0 {
        s
    } else {
        let last = CapturedView { response_values: Some(rows), ..s.queries.last() };
        SessionStateView { queries: s.queries.drop_last().push(last), ..s }
    }
}

/// A session that starts.
pub open spec fn started(id: u64, user: Seq<char>, database: Seq<char>, now: u64) -> SessionStateView {
    SessionStateView { id, user, database, session_start: now, queries: Seq::empty(), pending: None }
}

/// What an event does to the session that it speaks of.
pub open spec fn session_after(s: SessionStateView, e: EventView) -> SessionStateView {
    match e {
        EventView::SessionStart { session_id, user, database, timestamp } => started(
            session_id,
            user,
            database,
            timestamp,
        ),
        EventView::QueryStart { session_id, sql, timestamp } => SessionStateView {
            pending: Some((sql, timestamp)),
            ..s
        },
        EventView::QueryComplete { session_id, timestamp } => query_ended(s, timestamp, None),
        EventView::QueryError { session_id, message, timestamp } => query_ended(s, timestamp, Some(message)),
        EventView::QueryReturning { session_id, columns, rows, timestamp } => query_returned(
            s,
            response_rows(columns, rows),
        ),
        EventView::SessionEnd { session_id } => s,
    }
}

/// The session that an event speaks of.
pub open spec fn event_session(e: EventView) -> u64 {
    match e {
        EventView::SessionStart { session_id, .. } => session_id,
        EventView::QueryStart { session_id, .. } => session_id,
        EventView::QueryComplete { session_id, .. } => session_id,
        EventView::QueryError { session_id, .. } => session_id,
        EventView::QueryReturning { session_id, .. } => session_id,
        EventView::SessionEnd { session_id } => session_id,
    }
}

/// The sessions behind an event. A session start replaces an earlier session
/// of the same number; other events of unknown sessions are ignored.
pub open spec fn collected(s: Seq<SessionStateView>, e: EventView) -> Seq<SessionStateView> {
    match session_index(s, event_session(e)) {
        Some(i) => s.update(i, session_after(s[i], e)),
        None => match e {
            EventView::SessionStart { session_id, user, database, timestamp } => s.push(
                started(session_id, user, database, timestamp),
            ),
            _ => s,
        },
    }
}

/// The sessions behind a sequence of events.
pub open spec fn collected_all(events: Seq<EventView>) -> Seq<SessionStateView>
    decreases events.len(),
{
    if events.len() == 0 {
        Seq::empty()
    } else {
        collected(collected_all(events.drop_last()), events.last())
    }
}

proof fn lemma_session_index(s: Seq<SessionStateView>, id: u64)
    ensures
        session_index(s, id) matches Some(i) ==> 0 <= i < s.len() && s[i].id == id && forall|k: int|
            0 <= k < i ==> s[k].id != id,
        session_index(s, id) is None ==> forall|k: int| 0 <= k < s.len() ==> s[k].id != id,
    decreases s.len(),
{
    if s.len() > 0 {
        lemma_session_index(s.drop_last(), id);
        if session_index(s.drop_last(), id) is None {
            assert forall|k: int| 0 <= k < s.len() - 1 implies s[k].id != id by {
                assert(s.drop_last()[k] == s[k]);
            }
        } else {
            let i = session_index(s.drop_last(), id)->0;
            assert forall|k: int| 0 <= k < i implies s[k].id != id by {
                assert(s.drop_last()[k] == s[k]);
            }
        }
    }
}

proof fn lemma_index_by_ids(s: Seq<SessionStateView>, t: Seq<SessionStateView>, id: u64)
    requires
        s.len() == t.len(),
        forall|k: int| 0 <= k < s.len() ==> s[k].id == t[k].id,
    ensures
        session_index(s, id) == session_index(t, id),
    decreases s.len(),
{
    if s.len() > 0 {
        assert forall|k: int| 0 <= k < s.len() - 1 implies s.drop_last()[k].id == t.drop_last()[k].id by {
            assert(s[k].id == t[k].id);
        }
        lemma_index_by_ids(s.drop_last(), t.drop_last(), id);
    }
}

/// Whether no two sessions have the same number.
pub open spec fn ids_distinct(s: Seq<SessionStateView>) -> bool {
    forall|i: int, j: int| 0 <= i < j < s.len() ==> s[i].id != s[j].id
}

/// An event keeps the session numbers distinct.
pub proof fn law_collect_keeps_ids_distinct(s: Seq<SessionStateView>, e: EventView)
    requires
        ids_distinct(s),
    ensures
        ids_distinct(collected(s, e)),
{
    lemma_session_index(s, event_session(e));
}

/// An event changes no session but the one that it speaks of.
pub proof fn law_collect_is_local(s: Seq<SessionStateView>, e: EventView, i: int)
    requires
        0 <= i < s.len(),
        s[i].id != event_session(e),
    ensures
        collected(s, e)[i] == s[i],
{
    lemma_session_index(s, event_session(e));
}

/// A query that starts and completes becomes one captured query, with the time
/// from the session's start and from its own start.
pub proof fn law_query_is_captured(s: SessionStateView, sql: Seq<char>, start: u64, end: u64)
    ensures
        ({
            let started = session_after(s, EventView::QueryStart { session_id: s.id, sql, timestamp: start });
            let done = session_after(started, EventView::QueryComplete { session_id: s.id, timestamp: end });
            &&& done.queries.len() == s.queries.len() + 1
            &&& done.queries.last().sql == sql
            &&& done.queries.last().start_offset_us == micros_between(s.session_start, start)
            &&& done.queries.last().duration_us == micros_between(start, end)
            &&& !done.queries.last().is_error
            &&& done.pending is None
            &&& done.queries.drop_last() == s.queries
        }),
{
    let started = session_after(s, EventView::QueryStart { session_id: s.id, sql, timestamp: start });
    let done = session_after(started, EventView::QueryComplete { session_id: s.id, timestamp: end });
    assert(done.queries.drop_last() =~= s.queries);
}

impl Collector {
    /// Whether every session is found at its place.
    pub closed spec fn wf(&self) -> bool {
        forall|id: u64| #[trigger] session_index(self@, id) == (if self.places@.contains_key(id) {
            Some(self.places@[id] as int)
        } else {
            None
        })
    }

    pub fn new() -> (r: Self)
        ensures
            r.wf(),
            r@ == Seq::<SessionStateView>::empty(),
    {
        let r = Collector { sessions: Vec::new(), places: HashMap::new() };
        proof {
            assert(r@ =~= Seq::<SessionStateView>::empty());
        }
        r
    }

    fn find(&self, id: u64) -> (r: Option<usize>)
        requires
            self.wf(),
        ensures
            r is Some <==> session_index(self@, id) is Some,
            r matches Some(i) ==> session_index(self@, id) == Some(i as int) && i < self@.len(),
    {
        proof {
            lemma_session_index(self@, id);
        }
        match self.places.get(&id) {
            Some(i) => Some(*i),
            None => None,
        }
    }

    fn end_query(&mut self, id: u64, now: u64, error: Option<String>)
        requires
            old(self).wf(),
        ensures
            final(self).wf(),
            final(self)@ == match session_index(old(self)@, id) {
                Some(i) => old(self)@.update(i, query_ended(old(self)@[i], now, opt_view(error))),
                None => old(self)@,
            },
    {
        if let Some(i) = self.find(id) {
            let ghost before = self@;
            let pending = self.sessions[i].pending_sql.take();
            if let Some((sql, start)) = pending {
                let start_offset_us = elapsed_micros(self.sessions[i].session_start, start);
                let is_error = error.is_some();
                let q = CapturedQuery {
                    sql,
                    start_offset_us,
                    duration_us: elapsed_micros(start, now),
                    is_error,
                    error_message: error,
                    response_values: None,
                };
                let ghost qs = captured_views(self.sessions@[i as int].queries@);
                let ghost qv = q@;
                self.sessions[i].queries.push(q);
                proof {
                    assert(captured_views(self.sessions@[i as int].queries@) =~= qs.push(qv));
                }
            }
            proof {
                assert(self@ =~= before.update(i as int, query_ended(before[i as int], now, opt_view(error))));
                lemma_session_index(before, id);
                assert forall|n: u64| #[trigger] session_index(self@, n) == session_index(before, n) by {
                    lemma_index_by_ids(self@, before, n);
                }
            }
        }
    }

    /// Takes in an event.
    pub fn on_event(&mut self, event: CaptureEvent)
        requires
            old(self).wf(),
        ensures
            final(self).wf(),
            final(self)@ == collected(old(self)@, event@),
    {
        let ghost before = self@;
        let ghost ev = event@;
        proof {
            lemma_session_index(before, event_session(ev));
        }
        match event {
            CaptureEvent::SessionStart { session_id, user, database, timestamp } => {
                let fresh = SessionState {
                    id: session_id,
                    user,
                    database,
                    session_start: timestamp,
                    queries: Vec::new(),
                    pending_sql: None,
                };
                proof {
                    assert(fresh@.queries =~= Seq::<CapturedView>::empty());
                }
                let ghost fv = fresh@;
                match self.find(session_id) {
                    Some(i) => {
                        self.sessions[i] = fresh;
                        proof {
                            assert(self@ =~= before.update(i as int, fv));
                            assert forall|n: u64| #[trigger] session_index(self@, n) == session_index(before, n) by {
                                lemma_index_by_ids(self@, before, n);
                            }
                        }
                    },
                    None => {
                        let place: usize = self.sessions.len();
                        self.sessions.push(fresh);
                        self.places.insert(session_id, place);
                        proof {
                            assert(self@ =~= before.push(fv));
                            assert(self@.drop_last() =~= before);
                            assert forall|n: u64| #[trigger] session_index(self@, n) == (if n == session_id {
                                Some(place as int)
                            } else {
                                session_index(before, n)
                            }) by {
                                lemma_session_index(before, n);
                            }
                        }
                    },
                }
            },
            CaptureEvent::QueryStart { session_id, sql, timestamp } => {
                if let Some(i) = self.find(session_id) {
                    self.sessions[i].pending_sql = Some((sql, timestamp));
                    proof {
                        assert(self@ =~= before.update(i as int, session_after(before[i as int], ev)));
                        assert forall|n: u64| #[trigger] session_index(self@, n) == session_index(before, n) by {
                            lemma_index_by_ids(self@, before, n);
                        }
                    }
                }
            },
            CaptureEvent::QueryComplete { session_id, timestamp } => {
                self.end_query(session_id, timestamp, None);
            },
            CaptureEvent::QueryError { session_id, message, timestamp } => {
                self.end_query(session_id, timestamp, Some(message));
            },
            CaptureEvent::QueryReturning { session_id, columns, rows, timestamp } => {
                if let Some(i) = self.find(session_id) {
                    let n = self.sessions[i].queries.len();
                    if n > 0 {
                        let values = make_response_rows(&columns, &rows);
                        let ghost qs = captured_views(self.sessions@[i as int].queries@);
                        self.sessions[i].queries[n - 1].response_values = Some(values);
                        proof {
                            let last = CapturedView {
                                response_values: Some(response_rows(views(columns@), value_rows(rows@))),
                                ..qs.last()
                            };
                            assert(captured_views(self.sessions@[i as int].queries@) =~= qs.drop_last().push(last));
                        }
                    }
                    proof {
                        assert(self@ =~= before.update(i as int, session_after(before[i as int], ev)));
                        assert forall|n: u64| #[trigger] session_index(self@, n) == session_index(before, n) by {
                            lemma_index_by_ids(self@, before, n);
                        }
                    }
                }
            },
            CaptureEvent::SessionEnd { session_id } => {
                proof {
                    if let Some(i) = session_index(before, session_id) {
                        assert(self@ =~= before.update(i, before[i]));
                    }
                }
            },
        }
    }

    /// The captured sessions: number, user, database and queries.
    pub fn finish(self) -> (r: Vec<(u64, String, String, Vec<CapturedQuery>)>)
        ensures
            r@.len() == self@.len(),
            forall|i: int| 0 <= i < r@.len() ==> captured_session(#[trigger] r@[i]) == finished(self@[i]),
    {
        let ghost all = self@;
        let mut out: Vec<(u64, String, String, Vec<CapturedQuery>)> = Vec::new();
        for s in it: self.sessions
            invariant
                it.seq().len() == all.len(),
                forall|k: int| 0 <= k < all.len() ==> (#[trigger] it.seq()[k])@ == all[k],
                out@.len() == it.index(),
                forall|k: int| 0 <= k < it.index() ==> captured_session(#[trigger] out@[k]) == finished(all[k]),
        {
            proof {
                assert(it.seq()[it.index() as int]@ == all[it.index() as int]);
            }
            out.push((s.id, s.user, s.database, s.queries));
        }
        out
    }
}

/// The model of a captured session.
pub struct CapturedSession {
    pub id: u64,
    pub user: Seq<char>,
    pub database: Seq<char>,
    pub queries: Seq<CapturedView>,
}

pub open spec fn captured_session(s: (u64, String, String, Vec<CapturedQuery>)) -> CapturedSession {
    CapturedSession { id: s.0, user: s.1@, database: s.2@, queries: captured_views(s.3@) }
}

/// What is kept of a session's state at the end.
pub open spec fn finished(s: SessionStateView) -> CapturedSession {
    CapturedSession { id: s.id, user: s.user, database: s.database, queries: s.queries }
}

// ── Profiles ────────────────────────────────────────────────────────

/// The text of a captured query, masked if values are to be hidden.
pub open spec fn kept_sql(sql: Seq<char>, mask: bool) -> Seq<char> {
    if mask {
        masked(sql)
    } else {
        sql
    }
}

/// A query without a transaction, its kind taken from the kept text.
pub open spec fn plain_query(
    sql: Seq<char>,
    start: u64,
    duration: u64,
    rows: Option<Seq<RowView>>,
    mask: bool,
) -> QueryView {
    QueryView {
        sql: kept_sql(sql, mask),
        start_offset_us: start,
        duration_us: duration,
        kind: kind_of(kept_sql(sql, mask)),
        transaction_id: None,
        response_values: rows,
        original_sql: None,
    }
}

/// A captured query as a query of a profile.
pub open spec fn profile_query(q: CapturedView, mask: bool) -> QueryView {
    plain_query(q.sql, q.start_offset_us, q.duration_us, q.response_values, mask)
}

/// A captured session as a session of a profile, before transactions.
pub open spec fn profile_session(s: CapturedSession, mask: bool) -> SessionView {
    SessionView {
        id: s.id,
        user: s.user,
        database: s.database,
        queries: Seq::new(s.queries.len(), |i: int| profile_query(s.queries[i], mask)),
    }
}

/// The sessions of a profile, before transactions.
pub open spec fn profile_sessions(s: Seq<CapturedSession>, mask: bool) -> Seq<SessionView> {
    Seq::new(s.len(), |i: int| profile_session(s[i], mask))
}

/// A profile that the proxy captured: the given sessions, the counts and the
/// latest end of `parts`, which are the sessions before transactions.
pub open spec fn proxy_profile(
    sessions: Seq<SessionView>,
    parts: Seq<SessionView>,
    source_host: Seq<char>,
    captured_at: Timestamp,
) -> ProfileView {
    ProfileView {
        version: 2,
        captured_at,
        source_host,
        pg_version: "unknown"@,
        capture_method: "proxy"@,
        source_dialect: SourceDialect::Postgres,
        sessions,
        metadata: plain_metadata(query_count(parts), parts.len(), workload_end(parts)),
    }
}

/// The captured sessions as a workload: transactions numbered session by
/// session in the order given, then the sessions ordered by number.
pub open spec fn built_profile(
    captured: Seq<CapturedSession>,
    source_host: Seq<char>,
    mask: bool,
    captured_at: Timestamp,
) -> ProfileView {
    let parts = profile_sessions(captured, mask);
    proxy_profile(sorted_by_id(with_all_txns(parts)), parts, source_host, captured_at)
}

/// The models of captured sessions.
pub open spec fn captured_sessions(v: Seq<(u64, String, String, Vec<CapturedQuery>)>) -> Seq<CapturedSession> {
    Seq::new(v.len(), |i: int| captured_session(v[i]))
}

/// Whether the counts and the end of a workload fit their types.
pub open spec fn workload_fits(parts: Seq<SessionView>) -> bool {
    query_count(parts) < u64::MAX && ends_fit(parts)
}

pub(crate) fn make_query(
    sql: String,
    start_offset_us: u64,
    duration_us: u64,
    response_values: Option<Vec<ResponseRow>>,
    mask: bool,
) -> (r: Query)
    ensures
        r@ == plain_query(sql@, start_offset_us, duration_us, opt_rows(response_values), mask),
{
    let text = if mask { mask_sql_literals(sql.as_str()) } else { sql };
    let kind = QueryKind::from_sql(text.as_str());
    Query {
        sql: text,
        start_offset_us,
        duration_us,
        kind,
        transaction_id: None,
        response_values,
        original_sql: None,
    }
}

fn make_queries(raw: Vec<CapturedQuery>, mask: bool) -> (r: Vec<Query>)
    ensures
        query_views(r@) == Seq::new(
            raw@.len(),
            |i: int| profile_query(captured_views(raw@)[i], mask),
        ),
{
    let ghost all = captured_views(raw@);
    let ghost want = Seq::new(all.len(), |i: int| profile_query(all[i], mask));
    let mut out: Vec<Query> = Vec::new();
    for q in it: raw
        invariant
            all == captured_views(it.seq()),
            want == Seq::new(all.len(), |i: int| profile_query(all[i], mask)),
            out@.len() == it.index(),
            forall|k: int| 0 <= k < it.index() ==> (#[trigger] out@[k])@ == want[k],
    {
        proof {
            assert(q@ == all[it.index() as int]);
        }
        out.push(make_query(q.sql, q.start_offset_us, q.duration_us, q.response_values, mask));
    }
    proof {
        assert(query_views(out@) =~= want);
    }
    out
}

pub(crate) proof fn lemma_with_txns_keeps(parts: Seq<SessionView>)
    ensures
        query_count(with_all_txns(parts)) == query_count(parts),
        workload_end(with_all_txns(parts)) == workload_end(parts),
        ends_fit(parts) ==> ends_fit(with_all_txns(parts)),
        with_all_txns(parts).len() == parts.len(),
{
    let w = with_all_txns(parts);
    lemma_same_shape(w, parts);
    assert(ends_fit(parts) ==> ends_fit(w)) by {
        if ends_fit(parts) {
            assert forall|i: int| 0 <= i < w.len() implies last_end(#[trigger] w[i]) <= u64::MAX by {
                assert(last_end(parts[i]) <= u64::MAX);
                assert(last_end(w[i]) == last_end(parts[i]));
            }
        }
    }
}

/// Whether sessions have as many queries, which end at the same time.
pub open spec fn same_shape(s: Seq<SessionView>, t: Seq<SessionView>) -> bool {
    s.len() == t.len() && forall|i: int|
        0 <= i < s.len() ==> (#[trigger] s[i]).queries.len() == t[i].queries.len() && last_end(s[i]) == last_end(t[i])
}

proof fn lemma_same_shape(s: Seq<SessionView>, t: Seq<SessionView>)
    requires
        same_shape(s, t),
    ensures
        query_count(s) == query_count(t),
        workload_end(s) == workload_end(t),
    decreases s.len(),
{
    if s.len() > 0 {
        assert(s[s.len() - 1].queries.len() == t[t.len() - 1].queries.len());
        assert forall|i: int| 0 <= i < s.drop_last().len() implies (#[trigger] s.drop_last()[i]).queries.len()
            == t.drop_last()[i].queries.len() && last_end(s.drop_last()[i]) == last_end(t.drop_last()[i]) by {
            assert(s.drop_last()[i] == s[i]);
        }
        lemma_same_shape(s.drop_last(), t.drop_last());
    }
}

/// The captured sessions as sessions of a profile, before transactions.
fn make_sessions(captured: Vec<(u64, String, String, Vec<CapturedQuery>)>, mask: bool) -> (r: Vec<Session>)
    ensures
        session_views(r@) == profile_sessions(captured_sessions(captured@), mask),
{
    let ghost all = captured_sessions(captured@);
    let ghost parts = profile_sessions(all, mask);
    let mut sessions: Vec<Session> = Vec::new();
    for c in it: captured
        invariant
            all == captured_sessions(it.seq()),
            parts == profile_sessions(all, mask),
            sessions@.len() == it.index(),
            forall|k: int| 0 <= k < it.index() ==> (#[trigger] sessions@[k])@ == parts[k],
    {
        proof {
            assert(captured_session(c) == all[it.index() as int]);
        }
        let queries = make_queries(c.3, mask);
        let session = Session { id: c.0, user: c.1, database: c.2, queries };
        proof {
            assert(session@.queries =~= parts[it.index() as int].queries);
        }
        sessions.push(session);
    }
    proof {
        assert(session_views(sessions@) =~= parts);
    }
    sessions
}

/// Whether the counts and the end of a workload fit their types.
pub fn sessions_fit(sessions: &Vec<Session>) -> (r: bool)
    ensures
        r == workload_fits(session_views(sessions@)),
{
    let ghost s = session_views(sessions@);
    let mut n: u64 = 0;
    for i in 0..sessions.len()
        invariant
            s == session_views(sessions@),
            n == query_count(s.take(i as int)),
            n < u64::MAX,
            forall|k: int| 0 <= k < i ==> last_end(#[trigger] s[k]) <= u64::MAX,
    {
        let q = &sessions[i].queries;
        let len: u64 = q.len() as u64;
        proof {
            assert(s.take(i + 1).drop_last() =~= s.take(i as int));
            assert(s.take(i + 1).last() == sessions@[i as int]@);
            lemma_query_count_take(s, i + 1);
            assert(s[i as int] == sessions@[i as int]@);
        }
        if len >= u64::MAX - n {
            return false;
        }
        n = n + len;
        if len > 0 {
            let last = &q[q.len() - 1];
            if last.start_offset_us > u64::MAX - last.duration_us {
                proof {
                    assert(last_end(s[i as int]) > u64::MAX);
                }
                return false;
            }
        }
    }
    proof {
        assert(s.take(s.len() as int) =~= s);
    }
    true
}

/// A profile that the proxy captured, of sessions before transactions.
pub(crate) fn make_proxy_profile(sessions: Vec<Session>, source_host: &str, captured_at: Timestamp) -> (r:
    WorkloadProfile)
    requires
        workload_fits(session_views(sessions@)),
    ensures
        r@ == ({
            let parts = session_views(sessions@);
            proxy_profile(with_all_txns(parts), parts, source_host@, captured_at)
        }),
{
    let mut sessions = sessions;
    proof {
        lemma_with_txns_keeps(session_views(sessions@));
    }
    assign_all_transactions(&mut sessions);
    let total_queries = count_queries(&sessions);
    let capture_duration_us = find_workload_end(&sessions);
    let total_sessions = sessions.len() as u64;
    WorkloadProfile {
        version: 2,
        captured_at,
        source_host: copy_string(source_host),
        pg_version: copy_string("unknown"),
        capture_method: copy_string("proxy"),
        source_dialect: SourceDialect::Postgres,
        sessions,
        metadata: Metadata {
            total_queries,
            total_sessions,
            capture_duration_us,
            sequence_snapshot: None,
            pk_map: None,
        },
    }
}

/// Build a WorkloadProfile from captured session data.
pub fn build_profile(
    captured: Vec<(u64, String, String, Vec<CapturedQuery>)>,
    source_host: &str,
    mask_values: bool,
    captured_at: Timestamp,
) -> (r: WorkloadProfile)
    requires
        workload_fits(profile_sessions(captured_sessions(captured@), mask_values)),
    ensures
        r@ == built_profile(captured_sessions(captured@), source_host@, mask_values, captured_at),
{
    let sessions = make_sessions(captured, mask_values);
    let mut profile = make_proxy_profile(sessions, source_host, captured_at);
    profile.sessions = sort_sessions(profile.sessions);
    profile
}

/// The workload of a proxy that has stopped, with the state of the sequences at
/// its start. Nothing if capture was disabled; an error if its counts do not fit
/// their types.
pub fn finish_capture(
    captured: Vec<(u64, String, String, Vec<CapturedQuery>)>,
    source_host: &str,
    mask_values: bool,
    no_capture: bool,
    sequence_snapshot: Option<Vec<SequenceState>>,
    captured_at: Timestamp,
) -> (r: Result<Option<WorkloadProfile>, CaptureError>)
    ensures
        r is Err <==> !no_capture && !workload_fits(
            profile_sessions(captured_sessions(captured@), mask_values),
        ),
        r matches Err(e) ==> e is TooLong,
        r matches Ok(o) ==> (o is None <==> no_capture),
        r matches Ok(Some(p)) ==> p@ == ({
            let built = built_profile(captured_sessions(captured@), source_host@, mask_values, captured_at);
            ProfileView {
                metadata: MetadataView {
                    sequence_snapshot: match sequence_snapshot {
                        Some(v) => Some(sequence_views(v@)),
                        None => None,
                    },
                    ..built.metadata
                },
                ..built
            }
        }),
{
    if no_capture {
        return Ok(None);
    }
    let sessions = make_sessions(captured, mask_values);
    if !sessions_fit(&sessions) {
        return Err(CaptureError::TooLong);
    }
    let mut profile = make_proxy_profile(sessions, source_host, captured_at);
    profile.sessions = sort_sessions(profile.sessions);
    if sequence_snapshot.is_some() {
        profile.metadata.sequence_snapshot = sequence_snapshot;
    }
    Ok(Some(profile))
}

} // verus!
