//! Staging of captured queries: rows that are written in batches, and the
//! workload that is built from them.

use crate::correlate::capture::{ResponseRow, RowView};
use crate::profile::{
    kind_name, kind_of, query_views, session_views, with_all_txns, ProfileView, Query, QueryKind, QueryView,
    Session, SessionView, Timestamp, WorkloadProfile,
};
use crate::capture::error::CaptureError;
use crate::proxy::capture::{
    make_proxy_profile, sessions_fit, elapsed_micros, make_query, make_response_rows, micros_between,
    opt_rows, plain_query, proxy_profile, response_rows, workload_fits, CaptureEvent, EventView,
};
use crate::proxy::ordered::ordered_keys;
use crate::proxy::protocol::opt_view;
use crate::text::copy_string;
use std::collections::{BTreeMap, HashMap};
use vstd::laws_cmp::group_laws_cmp;
use vstd::prelude::*;
use vstd::std_specs::btree::group_btree_axioms;
use vstd::std_specs::hash::group_hash_axioms;

verus! {

broadcast use {group_hash_axioms, group_btree_axioms, group_laws_cmp};

// ── Rows ────────────────────────────────────────────────────────────

/// One row in the `capture_staging` table.
#[derive(Debug, Clone)]
pub struct StagingRow {
    pub capture_id: String,
    pub session_id: i64,
    pub user_name: Option<String>,
    pub database_name: Option<String>,
    pub sql: String,
    pub kind: Option<String>,
    pub start_offset_us: i64,
    pub duration_us: i64,
    pub is_error: bool,
    pub error_message: Option<String>,
    pub timestamp_us: i64,
    /// Rows from RETURNING clause capture.
    pub response_values: Option<Vec<ResponseRow>>,
}

/// The model of a row.
pub struct StagingView {
    pub capture_id: Seq<char>,
    pub session_id: i64,
    pub user_name: Option<Seq<char>>,
    pub database_name: Option<Seq<char>>,
    pub sql: Seq<char>,
    pub kind: Option<Seq<char>>,
    pub start_offset_us: i64,
    pub duration_us: i64,
    pub is_error: bool,
    pub error_message: Option<Seq<char>>,
    pub timestamp_us: i64,
    pub response_values: Option<Seq<RowView>>,
}

impl View for StagingRow {
    type V = StagingView;

    open spec fn view(&self) -> StagingView {
        StagingView {
            capture_id: self.capture_id@,
            session_id: self.session_id,
            user_name: opt_view(self.user_name),
            database_name: opt_view(self.database_name),
            sql: self.sql@,
            kind: opt_view(self.kind),
            start_offset_us: self.start_offset_us,
            duration_us: self.duration_us,
            is_error: self.is_error,
            error_message: opt_view(self.error_message),
            timestamp_us: self.timestamp_us,
            response_values: opt_rows(self.response_values),
        }
    }
}

/// The models of rows.
pub open spec fn staging_views(v: Seq<StagingRow>) -> Seq<StagingView> {
    Seq::new(v.len(), |i: int| v[i]@)
}

/// The unsigned number with the same 64 bits.
pub open spec fn as_unsigned(n: i64) -> u64 {
    if n >= 0 {
        n as u64
    } else {
        (n + 18446744073709551616) as u64
    }
}

/// The signed number with the same 64 bits.
pub open spec fn as_signed(n: u64) -> i64 {
    if n <= i64::MAX {
        n as i64
    } else {
        (n - 18446744073709551616) as i64
    }
}

/// Storing a session number as signed and reading it back keeps it.
pub proof fn law_session_id_round_trip(n: u64)
    ensures
        as_unsigned(as_signed(n)) == n,
{
}

fn to_unsigned(n: i64) -> (r: u64)
    ensures
        r == as_unsigned(n),
{
    if n >= 0 {
        n as u64
    } else {
        ((n + i64::MAX + 1) as u64) + 9223372036854775808
    }
}

fn to_signed(n: u64) -> (r: i64)
    ensures
        r == as_signed(n),
{
    if n <= 9223372036854775807 {
        n as i64
    } else {
        ((n - 9223372036854775808) as i64) + i64::MIN
    }
}

// ── The staging collector ───────────────────────────────────────────

/// How many rows are written at once.
pub const BATCH_SIZE: usize = 100;

/// User, database and start of a session.
#[derive(Debug)]
pub struct SessionMeta {
    pub user: String,
    pub database: String,
    pub start: u64,
}

/// A query that has started.
#[derive(Debug)]
pub struct PendingQuery {
    pub sql: String,
    pub start: u64,
}

/// The model of a session's metadata.
pub struct MetaView {
    pub user: Seq<char>,
    pub database: Seq<char>,
    pub start: u64,
}

/// The model of a started query.
pub struct PendingView {
    pub sql: Seq<char>,
    pub start: u64,
}

impl View for SessionMeta {
    type V = MetaView;

    open spec fn view(&self) -> MetaView {
        MetaView { user: self.user@, database: self.database@, start: self.start }
    }
}

impl View for PendingQuery {
    type V = PendingView;

    open spec fn view(&self) -> PendingView {
        PendingView { sql: self.sql@, start: self.start }
    }
}

/// Collects rows for the staging table in batches.
pub struct StagingCollector {
    capture_id: String,
    session_meta: HashMap<u64, SessionMeta>,
    pending: HashMap<u64, PendingQuery>,
    batch: Vec<StagingRow>,
}

/// The model of the staging collector.
pub struct StagingState {
    pub capture_id: Seq<char>,
    pub meta: Map<u64, MetaView>,
    pub pending: Map<u64, PendingView>,
    pub batch: Seq<StagingView>,
}

impl View for StagingCollector {
    type V = StagingState;

    closed spec fn view(&self) -> StagingState {
        StagingState {
            capture_id: self.capture_id@,
            meta: self.session_meta@.map_values(|m: SessionMeta| m@),
            pending: self.pending@.map_values(|q: PendingQuery| q@),
            batch: staging_views(self.batch@),
        }
    }
}

/// The row of a query that ended at `now`.
pub open spec fn staged_query(
    capture_id: Seq<char>,
    id: u64,
    meta: MetaView,
    query: PendingView,
    now: u64,
    error: Option<Seq<char>>,
) -> StagingView {
    StagingView {
        capture_id,
        session_id: as_signed(id),
        user_name: Some(meta.user),
        database_name: Some(meta.database),
        sql: query.sql,
        kind: Some(kind_name(kind_of(query.sql))),
        start_offset_us: micros_between(meta.start, query.start) as i64,
        duration_us: micros_between(query.start, now) as i64,
        is_error: error is Some,
        error_message: error,
        timestamp_us: micros_between(meta.start, query.start) as i64,
        response_values: None,
    }
}

impl StagingState {
    /// The state when the pending query of a session has ended. The query is
    /// pending no longer; it becomes a row if the session is known.
    pub open spec fn ended(self, id: u64, now: u64, error: Option<Seq<char>>) -> StagingState {
        if !self.pending.dom().contains(id) {
            self
        } else {
            let rest = StagingState { pending: self.pending.remove(id), ..self };
            if self.meta.dom().contains(id) {
                StagingState {
                    batch: self.batch.push(
                        staged_query(self.capture_id, id, self.meta[id], self.pending[id], now, error),
                    ),
                    ..rest
                }
            } else {
                rest
            }
        }
    }

    /// The state behind an event.
    pub open spec fn after(self, e: EventView) -> StagingState {
        match e {
            EventView::SessionStart { session_id, user, database, timestamp } => StagingState {
                meta: self.meta.insert(session_id, MetaView { user, database, start: timestamp }),
                ..self
            },
            EventView::QueryStart { session_id, sql, timestamp } => StagingState {
                pending: self.pending.insert(session_id, PendingView { sql, start: timestamp }),
                ..self
            },
            EventView::QueryComplete { session_id, timestamp } => self.ended(session_id, timestamp, None),
            EventView::QueryError { session_id, message, timestamp } => self.ended(
                session_id,
                timestamp,
                Some(message),
            ),
            EventView::QueryReturning { session_id, columns, rows, timestamp } => if self.batch.len() > 0
                && self.batch.last().session_id == as_signed(session_id) {
                let last = StagingView { response_values: Some(response_rows(columns, rows)), ..self.batch.last() };
                StagingState { batch: self.batch.drop_last().push(last), ..self }
            } else {
                self
            },
            EventView::SessionEnd { session_id } => self,
        }
    }

    /// The state without its batch.
    pub open spec fn flushed(self) -> StagingState {
        StagingState { batch: Seq::empty(), ..self }
    }
}

/// The model of an optional batch.
pub open spec fn batch_view(b: Option<Vec<StagingRow>>) -> Option<Seq<StagingView>> {
    match b {
        Some(v) => Some(staging_views(v@)),
        None => None,
    }
}

/// What is handed out to be written of a state, and the state that is kept: a
/// full batch, and then none.
pub open spec fn handed_out(s: StagingState) -> (Seq<StagingView>, StagingState) {
    if s.batch.len() >= BATCH_SIZE {
        (s.batch, s.flushed())
    } else {
        (Seq::empty(), s)
    }
}

/// The rows that are handed out while events come, and the state that is kept.
pub open spec fn staged_run(s: StagingState, events: Seq<EventView>) -> (Seq<StagingView>, StagingState)
    decreases events.len(),
{
    if events.len() == 0 {
        (Seq::empty(), s)
    } else {
        let (written, kept) = staged_run(s, events.drop_last());
        let (more, left) = handed_out(kept.after(events.last()));
        (written + more, left)
    }
}

/// The state behind events if nothing is handed out.
pub open spec fn after_all(s: StagingState, events: Seq<EventView>) -> StagingState
    decreases events.len(),
{
    if events.len() == 0 {
        s
    } else {
        after_all(s, events.drop_last()).after(events.last())
    }
}

/// No query is lost and none is written twice: the rows that are handed out in
/// batches and those that are kept are, in order, the rows that the events make
/// up. Returned rows are left out: they are added to a row only while that is
/// kept.
pub proof fn law_flush_loses_nothing(s: StagingState, events: Seq<EventView>)
    requires
        forall|i: int| 0 <= i < events.len() ==> !((#[trigger] events[i]) is QueryReturning),
    ensures
        ({
            let (written, kept) = staged_run(s, events);
            let all = after_all(s, events);
            &&& written + kept.batch == all.batch
            &&& kept.meta == all.meta
            &&& kept.pending == all.pending
            &&& kept.capture_id == all.capture_id
        }),
    decreases events.len(),
{
    if events.len() == 0 {
        assert(staged_run(s, events).0 + s.batch =~= s.batch);
    } else {
        let before = events.drop_last();
        let e = events.last();
        assert forall|i: int| 0 <= i < before.len() implies !((#[trigger] before[i]) is QueryReturning) by {
            assert(before[i] == events[i]);
        }
        assert(!(events[events.len() - 1] is QueryReturning));
        law_flush_loses_nothing(s, before);
        let (written, kept) = staged_run(s, before);
        let all = after_all(s, before);
        let after = kept.after(e);
        assert(written + after.batch =~= all.after(e).batch);
        let (more, left) = handed_out(after);
        assert(written + more + left.batch =~= written + after.batch);
    }
}

/// A query that starts and ends in a known session becomes one row.
pub proof fn law_query_is_staged(s: StagingState, id: u64, sql: Seq<char>, start: u64, end: u64)
    requires
        s.meta.dom().contains(id),
    ensures
        ({
            let t = s.after(EventView::QueryStart { session_id: id, sql, timestamp: start }).after(
                EventView::QueryComplete { session_id: id, timestamp: end },
            );
            &&& t.batch == s.batch.push(
                staged_query(s.capture_id, id, s.meta[id], PendingView { sql, start }, end, None),
            )
            &&& !t.pending.dom().contains(id)
        }),
{
}

impl StagingCollector {
    pub fn new(capture_id: String) -> (r: Self)
        ensures
            r@.capture_id == capture_id@,
            r@.meta == Map::<u64, MetaView>::empty(),
            r@.pending == Map::<u64, PendingView>::empty(),
            r@.batch == Seq::<StagingView>::empty(),
    {
        let r = StagingCollector {
            capture_id,
            session_meta: HashMap::new(),
            pending: HashMap::new(),
            batch: Vec::new(),
        };
        proof {
            assert(r@.meta =~= Map::<u64, MetaView>::empty());
            assert(r@.pending =~= Map::<u64, PendingView>::empty());
            assert(r@.batch =~= Seq::<StagingView>::empty());
        }
        r
    }

    fn take_batch(&mut self) -> (r: Option<Vec<StagingRow>>)
        ensures
            final(self)@ == old(self)@.flushed(),
            batch_view(r) == (if old(self)@.batch.len() == 0 { None } else { Some(old(self)@.batch) }),
    {
        if self.batch.len() == 0 {
            proof {
                assert(self@.batch =~= Seq::<StagingView>::empty());
            }
            return None;
        }
        let mut out: Vec<StagingRow> = Vec::new();
        out.append(&mut self.batch);
        proof {
            assert(staging_views(out@) =~= old(self)@.batch);
            assert(self@.batch =~= Seq::<StagingView>::empty());
        }
        Some(out)
    }

    fn end_query(&mut self, id: u64, now: u64, error: Option<String>)
        ensures
            final(self)@ == old(self)@.ended(id, now, opt_view(error)),
    {
        let ghost before = self@;
        let removed = self.pending.remove(&id);
        proof {
            assert(self@.pending =~= before.pending.remove(id));
        }
        if let Some(q) = removed {
            let ghost qv = q@;
            assert(before.pending[id] == qv);
            if let Some(m) = self.session_meta.get(&id) {
                assert(before.meta[id] == m@);
                let offset = elapsed_micros(m.start, q.start);
                let kind = QueryKind::from_sql(q.sql.as_str());
                let is_error = error.is_some();
                let row = StagingRow {
                    capture_id: copy_string(self.capture_id.as_str()),
                    session_id: to_signed(id),
                    user_name: Some(copy_string(m.user.as_str())),
                    database_name: Some(copy_string(m.database.as_str())),
                    sql: q.sql,
                    kind: Some(copy_string(kind.name())),
                    start_offset_us: offset as i64,
                    duration_us: elapsed_micros(q.start, now) as i64,
                    is_error,
                    error_message: error,
                    timestamp_us: offset as i64,
                    response_values: None,
                };
                let ghost rv = row@;
                self.batch.push(row);
                proof {
                    assert(self@.batch =~= before.batch.push(rv));
                }
            }
        } else {
            proof {
                assert(self@.pending =~= before.pending);
            }
        }
    }

    /// Takes in an event. A full batch is handed out to be written.
    pub fn on_event(&mut self, event: CaptureEvent) -> (r: Option<Vec<StagingRow>>)
        ensures
            ({
                let (rows, kept) = handed_out(old(self)@.after(event@));
                final(self)@ == kept && batch_view(r) == (if rows.len() == 0 { None } else { Some(rows) })
            }),
    {
        let ghost before = self@;
        let ghost ev = event@;
        match event {
            CaptureEvent::SessionStart { session_id, user, database, timestamp } => {
                self.session_meta.insert(session_id, SessionMeta { user, database, start: timestamp });
                proof {
                    assert(self@.meta =~= before.after(ev).meta);
                }
            },
            CaptureEvent::QueryStart { session_id, sql, timestamp } => {
                self.pending.insert(session_id, PendingQuery { sql, start: timestamp });
                proof {
                    assert(self@.pending =~= before.after(ev).pending);
                }
            },
            CaptureEvent::QueryComplete { session_id, timestamp } => {
                self.end_query(session_id, timestamp, None);
            },
            CaptureEvent::QueryError { session_id, message, timestamp } => {
                self.end_query(session_id, timestamp, Some(message));
            },
            CaptureEvent::QueryReturning { session_id, columns, rows, timestamp } => {
                let n = self.batch.len();
                if n > 0 && self.batch[n - 1].session_id == to_signed(session_id) {
                    let values = make_response_rows(&columns, &rows);
                    self.batch[n - 1].response_values = Some(values);
                    proof {
                        assert(self@.batch =~= before.after(ev).batch);
                    }
                }
            },
            CaptureEvent::SessionEnd { session_id } => {},
        }
        if self.batch.len() >= BATCH_SIZE {
            self.take_batch()
        } else {
            None
        }
    }

    /// Half a second passed without an event: what there is is handed out.
    pub fn on_timeout(&mut self) -> (r: Option<Vec<StagingRow>>)
        ensures
            final(self)@ == old(self)@.flushed(),
            batch_view(r) == (if old(self)@.batch.len() == 0 { None } else { Some(old(self)@.batch) }),
    {
        self.take_batch()
    }

    /// No more events will come: what is left is handed out.
    pub fn on_close(self) -> (r: Option<Vec<StagingRow>>)
        ensures
            batch_view(r) == (if self@.batch.len() == 0 { None } else { Some(self@.batch) }),
    {
        if self.batch.len() == 0 {
            None
        } else {
            Some(self.batch)
        }
    }
}

// ── Profiles from staged rows ───────────────────────────────────────

/// A session that rows of the staging table make up.
pub struct StagedSession {
    pub id: i64,
    pub user: Seq<char>,
    pub database: Seq<char>,
    pub queries: Seq<QueryView>,
}

/// A row as a query.
pub open spec fn staged_row_query(r: StagingView, mask: bool) -> QueryView {
    plain_query(
        r.sql,
        as_unsigned(r.start_offset_us),
        as_unsigned(r.duration_us),
        r.response_values,
        mask,
    )
}

/// A text that may be missing.
pub open spec fn text_or_empty(s: Option<Seq<char>>) -> Seq<char> {
    match s {
        Some(t) => t,
        None => Seq::empty(),
    }
}

/// The session that a row begins.
pub open spec fn new_staged(r: StagingView, mask: bool) -> StagedSession {
    StagedSession {
        id: r.session_id,
        user: text_or_empty(r.user_name),
        database: text_or_empty(r.database_name),
        queries: seq![staged_row_query(r, mask)],
    }
}

/// The sessions, ordered by number, with one more row.
pub open spec fn add_staged(s: Seq<StagedSession>, r: StagingView, mask: bool) -> Seq<StagedSession>
    decreases s.len(),
{
    if s.len() == 0 {
        seq![new_staged(r, mask)]
    } else if s[0].id == r.session_id {
        seq![StagedSession { queries: s[0].queries.push(staged_row_query(r, mask)), ..s[0] }] + s.skip(1)
    } else if r.session_id < s[0].id {
        seq![new_staged(r, mask)] + s
    } else {
        seq![s[0]] + add_staged(s.skip(1), r, mask)
    }
}

/// The sessions that rows make up, ordered by number, each with its rows in
/// order.
pub open spec fn staged_sessions(rows: Seq<StagingView>, mask: bool) -> Seq<StagedSession>
    decreases rows.len(),
{
    if rows.len() == 0 {
        Seq::empty()
    } else {
        add_staged(staged_sessions(rows.drop_last(), mask), rows.last(), mask)
    }
}

/// A staged session as a session of a profile.
pub open spec fn staged_profile_session(s: StagedSession) -> SessionView {
    SessionView { id: as_unsigned(s.id), user: s.user, database: s.database, queries: s.queries }
}

/// The sessions of the profile that rows make up, before transactions.
pub open spec fn staged_parts(rows: Seq<StagingView>, mask: bool) -> Seq<SessionView> {
    let s = staged_sessions(rows, mask);
    Seq::new(s.len(), |i: int| staged_profile_session(s[i]))
}

/// The workload that rows make up.
pub open spec fn staged_profile(
    rows: Seq<StagingView>,
    source_host: Seq<char>,
    mask: bool,
    captured_at: Timestamp,
) -> ProfileView {
    let parts = staged_parts(rows, mask);
    proxy_profile(with_all_txns(parts), parts, source_host, captured_at)
}

/// Whether sessions are ordered by number, each number once.
pub open spec fn staged_ascend(s: Seq<StagedSession>) -> bool {
    forall|i: int, j: int| 0 <= i < j < s.len() ==> (#[trigger] s[i]).id < (#[trigger] s[j]).id
}

/// The session with a number.
pub(crate) open spec fn staged_at(s: Seq<StagedSession>, id: i64) -> Option<StagedSession>
    decreases s.len(),
{
    if s.len() == 0 {
        None
    } else if s[0].id == id {
        Some(s[0])
    } else {
        staged_at(s.skip(1), id)
    }
}

proof fn lemma_staged_below(s: Seq<StagedSession>, id: i64)
    requires
        forall|i: int| 0 <= i < s.len() ==> id < (#[trigger] s[i]).id,
    ensures
        staged_at(s, id) is None,
    decreases s.len(),
{
    if s.len() > 0 {
        assert(id < s[0].id);
        assert forall|i: int| 0 <= i < s.skip(1).len() implies id < (#[trigger] s.skip(1)[i]).id by {
            assert(s.skip(1)[i] == s[i + 1]);
        }
        lemma_staged_below(s.skip(1), id);
    }
}

proof fn lemma_tail_ascends(s: Seq<StagedSession>)
    requires
        s.len() > 0,
        staged_ascend(s),
    ensures
        staged_ascend(s.skip(1)),
        forall|i: int| 0 <= i < s.skip(1).len() ==> s[0].id < (#[trigger] s.skip(1)[i]).id,
{
    let t = s.skip(1);
    assert forall|i: int| 0 <= i < t.len() implies s[0].id < (#[trigger] t[i]).id by {
        assert(t[i] == s[i + 1]);
    }
    assert forall|i: int, j: int| 0 <= i < j < t.len() implies (#[trigger] t[i]).id < (#[trigger] t[j]).id by {
        assert(t[i] == s[i + 1] && t[j] == s[j + 1]);
    }
}

pub(crate) proof fn lemma_add_staged(s: Seq<StagedSession>, r: StagingView, mask: bool, id: i64)
    requires
        staged_ascend(s),
    ensures
        staged_ascend(add_staged(s, r, mask)),
        add_staged(s, r, mask).len() > 0,
        forall|i: int|
            0 <= i < add_staged(s, r, mask).len() ==> (#[trigger] add_staged(s, r, mask)[i]).id >= r.session_id || (
            s.len() > 0 && add_staged(s, r, mask)[i].id >= s[0].id),
        staged_at(add_staged(s, r, mask), id) == (if id == r.session_id {
            Some(
                match staged_at(s, id) {
                    Some(x) => StagedSession { queries: x.queries.push(staged_row_query(r, mask)), ..x },
                    None => new_staged(r, mask),
                },
            )
        } else {
            staged_at(s, id)
        }),
    decreases s.len(),
{
    let t = add_staged(s, r, mask);
    if s.len() == 0 {
        assert(t.skip(1) =~= s);
    } else {
        lemma_tail_ascends(s);
        let rest = s.skip(1);
        assert forall|i: int| 0 <= i < s.len() implies s[0].id <= (#[trigger] s[i]).id by {
            if i > 0 {
                assert(rest[i - 1] == s[i]);
            }
        }
        if s[0].id == r.session_id {
            assert(t.skip(1) =~= rest);
            assert forall|i: int| 0 <= i < t.len() implies (#[trigger] t[i]).id == s[i].id by {
            }
        } else if r.session_id < s[0].id {
            assert(t.skip(1) =~= s);
            lemma_staged_below(s, r.session_id);
            assert forall|i: int, j: int| 0 <= i < j < t.len() implies (#[trigger] t[i]).id < (#[trigger] t[j]).id by {
                assert(t[j] == s[j - 1]);
                if i > 0 {
                    assert(t[i] == s[i - 1]);
                }
            }
        } else {
            lemma_add_staged(rest, r, mask, id);
            let u = add_staged(rest, r, mask);
            assert(t.skip(1) =~= u);
            assert forall|i: int| 0 <= i < u.len() implies s[0].id < (#[trigger] u[i]).id by {
                if rest.len() > 0 {
                    assert(s[0].id < rest[0].id);
                }
            }
            assert forall|i: int, j: int| 0 <= i < j < t.len() implies (#[trigger] t[i]).id < (#[trigger] t[j]).id by {
                assert(t[j] == u[j - 1]);
                if i > 0 {
                    assert(t[i] == u[i - 1]);
                }
            }
            assert forall|i: int| 0 <= i < t.len() implies (#[trigger] t[i]).id >= s[0].id by {
                if i > 0 {
                    assert(t[i] == u[i - 1]);
                }
            }
        }
    }
}

/// The sessions that rows make up are ordered by number, each number once.
pub proof fn law_staged_sessions_ascend(rows: Seq<StagingView>, mask: bool)
    ensures
        staged_ascend(staged_sessions(rows, mask)),
    decreases rows.len(),
{
    if rows.len() > 0 {
        law_staged_sessions_ascend(rows.drop_last(), mask);
        lemma_add_staged(staged_sessions(rows.drop_last(), mask), rows.last(), mask, 0);
    }
}

pub(crate) proof fn lemma_staged_at(s: Seq<StagedSession>, i: int)
    requires
        staged_ascend(s),
        0 <= i < s.len(),
    ensures
        staged_at(s, s[i].id) == Some(s[i]),
    decreases s.len(),
{
    if i > 0 {
        assert(s[0].id < s[i].id);
        lemma_tail_ascends(s);
        assert(s.skip(1)[i - 1] == s[i]);
        lemma_staged_at(s.skip(1), i - 1);
    }
}

pub(crate) proof fn lemma_staged_member(s: Seq<StagedSession>, id: i64) -> (i: int)
    requires
        staged_at(s, id) is Some,
    ensures
        0 <= i < s.len() && s[i].id == id,
    decreases s.len(),
{
    if s[0].id == id {
        0
    } else {
        let j = lemma_staged_member(s.skip(1), id);
        assert(s.skip(1)[j] == s[j + 1]);
        j + 1
    }
}

proof fn lemma_same_ids(keys: Seq<i64>, s: Seq<StagedSession>)
    requires
        staged_ascend(s),
        forall|i: int, j: int| 0 <= i < j < keys.len() ==> keys[i] < keys[j],
        forall|k: i64| keys.contains(k) <==> staged_at(s, k) is Some,
    ensures
        keys.len() == s.len(),
        forall|i: int| 0 <= i < s.len() ==> keys[i] == (#[trigger] s[i]).id,
    decreases s.len(),
{
    if s.len() == 0 {
        if keys.len() > 0 {
            assert(keys.contains(keys[0]));
        }
    } else {
        lemma_staged_at(s, 0);
        assert(keys.contains(s[0].id));
        let first = keys.index_of(s[0].id);
        assert(keys.contains(keys[0]));
        let at = lemma_staged_member(s, keys[0]);
        assert(keys[0] == s[0].id);
        lemma_tail_ascends(s);
        let rest = s.skip(1);
        let tail = keys.skip(1);
        lemma_staged_below(rest, s[0].id);
        assert forall|k: i64| tail.contains(k) <==> staged_at(rest, k) is Some by {
            if tail.contains(k) {
                let i = tail.index_of(k);
                assert(keys[i + 1] == k);
                assert(keys.contains(k));
                assert(k != s[0].id);
            }
            if staged_at(rest, k) is Some {
                assert(k != s[0].id);
                assert(keys.contains(k));
                let i = keys.index_of(k);
                assert(tail[i - 1] == k);
            }
        }
        lemma_same_ids(tail, rest);
        assert forall|i: int| 0 <= i < s.len() implies keys[i] == (#[trigger] s[i]).id by {
            if i > 0 {
                assert(rest[i - 1] == s[i]);
                assert(tail[i - 1] == keys[i]);
            }
        }
    }
}

/// The staged session that a session under its signed number is.
spec fn group_view(id: i64, session: Session) -> StagedSession {
    StagedSession {
        id,
        user: session.user@,
        database: session.database@,
        queries: query_views(session.queries@),
    }
}

/// Whether sessions by their signed number are the given ones.
spec fn groups_match(m: Map<i64, Session>, s: Seq<StagedSession>) -> bool {
    &&& forall|id: i64| #[trigger]
        staged_at(s, id) == (if m.contains_key(id) {
            Some(group_view(id, m[id]))
        } else {
            None
        })
    &&& forall|id: i64| #[trigger] m.contains_key(id) ==> m[id].id == as_unsigned(id)
}

fn text_or_default(s: Option<String>) -> (r: String)
    ensures
        r@ == text_or_empty(opt_view(s)),
{
    match s {
        Some(t) => t,
        None => String::new(),
    }
}

fn row_query(sql: String, start: i64, duration: i64, values: Option<Vec<ResponseRow>>, mask: bool) -> (r: Query)
    ensures
        r@ == plain_query(sql@, as_unsigned(start), as_unsigned(duration), opt_rows(values), mask),
{
    make_query(sql, to_unsigned(start), to_unsigned(duration), values, mask)
}

fn insert_row(groups: &mut BTreeMap<i64, Session>, row: StagingRow, mask: bool, Ghost(s): Ghost<Seq<StagedSession>>)
    requires
        staged_ascend(s),
        groups_match(old(groups)@, s),
    ensures
        groups_match(final(groups)@, add_staged(s, row@, mask)),
{
    let ghost before = groups@;
    let ghost rv = row@;
    let id: i64 = row.session_id;
    let q = row_query(row.sql, row.start_offset_us, row.duration_us, row.response_values, mask);
    let ghost qv = q@;
    let session = match groups.remove(&id) {
        Some(mut session) => {
            let ghost qs = query_views(session.queries@);
            session.queries.push(q);
            proof {
                assert(query_views(session.queries@) =~= qs.push(qv));
            }
            session
        },
        None => {
            let mut queries: Vec<Query> = Vec::new();
            queries.push(q);
            proof {
                assert(query_views(queries@) =~= seq![qv]);
            }
            Session {
                id: to_unsigned(id),
                user: text_or_default(row.user_name),
                database: text_or_default(row.database_name),
                queries,
            }
        },
    };
    let ghost added = session;
    groups.insert(id, session);
    proof {
        let t = add_staged(s, rv, mask);
        assert(groups@ =~= before.insert(id, added));
        assert forall|k: i64| #[trigger] staged_at(t, k) == (if groups@.contains_key(k) {
            Some(group_view(k, groups@[k]))
        } else {
            None
        }) by {
            lemma_add_staged(s, rv, mask, k);
            assert(staged_at(s, k) == (if before.contains_key(k) {
                Some(group_view(k, before[k]))
            } else {
                None
            }));
        }
        assert forall|k: i64| #[trigger] groups@.contains_key(k) implies groups@[k].id == as_unsigned(k) by {
            assert(k != id ==> before.contains_key(k));
        }
    }
}

/// The sessions that rows make up, before transactions.
fn make_staged_sessions(rows: Vec<StagingRow>, mask: bool) -> (r: Vec<Session>)
    ensures
        session_views(r@) == staged_parts(staging_views(rows@), mask),
{
    let ghost all = staging_views(rows@);
    let mut groups: BTreeMap<i64, Session> = BTreeMap::new();
    proof {
        assert(staged_sessions(all.take(0), mask) =~= Seq::<StagedSession>::empty());
    }
    for row in it: rows
        invariant
            all == staging_views(it.seq()),
            groups_match(groups@, staged_sessions(all.take(it.index() as int), mask)),
    {
        proof {
            let i = it.index() as int;
            assert(row@ == all[i]);
            assert(all.take(i + 1).drop_last() =~= all.take(i));
            assert(all.take(i + 1).last() == row@);
            law_staged_sessions_ascend(all.take(i), mask);
        }
        insert_row(&mut groups, row, mask, Ghost(staged_sessions(all.take(it.index() as int), mask)));
    }
    let ghost parts = staged_parts(all, mask);
    let ghost s = staged_sessions(all, mask);
    let ghost full = groups@;
    let keys = ordered_keys(&groups);
    proof {
        assert(all.take(all.len() as int) =~= all);
        law_staged_sessions_ascend(all, mask);
        assert forall|k: i64| keys@.contains(k) <==> staged_at(s, k) is Some by {
            assert(full.contains_key(k) <==> staged_at(s, k) is Some);
        }
        lemma_same_ids(keys@, s);
        assert forall|k: int| 0 <= k < s.len() implies full.contains_key((#[trigger] s[k]).id) by {
            lemma_staged_at(s, k);
        }
    }
    let mut sessions: Vec<Session> = Vec::new();
    for i in 0..keys.len()
        invariant
            staged_ascend(s),
            parts == staged_parts(all, mask),
            s == staged_sessions(all, mask),
            keys@.len() == s.len(),
            groups_match(full, s),
            forall|k: int| 0 <= k < s.len() ==> keys@[k] == (#[trigger] s[k]).id,
            forall|k: int|
                i <= k < s.len() ==> groups@.contains_key((#[trigger] s[k]).id) && groups@[s[k].id] == full[s[k].id],
            sessions@.len() == i,
            forall|k: int| 0 <= k < i ==> (#[trigger] sessions@[k])@ == parts[k],
    {
        let id: i64 = keys[i];
        proof {
            assert(s[i as int].id == id);
            lemma_staged_at(s, i as int);
            assert(full.contains_key(id));
            assert(full[id]@ == parts[i as int]);
        }
        if let Some(session) = groups.remove(&id) {
            sessions.push(session);
        }
        proof {
            assert forall|k: int| i + 1 <= k < s.len() implies groups@.contains_key((#[trigger] s[k]).id)
                && groups@[s[k].id] == full[s[k].id] by {
                assert(s[i as int].id < s[k].id);
            }
        }
    }
    proof {
        assert(session_views(sessions@) =~= parts);
    }
    sessions
}

/// Build a WorkloadProfile from staging rows.
///
/// Follows the same logic as building from captured sessions, but the rows
/// are grouped by session first.
pub fn build_profile_from_staging(
    rows: Vec<StagingRow>,
    source_host: &str,
    mask_values: bool,
    captured_at: Timestamp,
) -> (r: WorkloadProfile)
    requires
        workload_fits(staged_parts(staging_views(rows@), mask_values)),
    ensures
        r@ == staged_profile(staging_views(rows@), source_host@, mask_values, captured_at),
{
    let sessions = make_staged_sessions(rows, mask_values);
    make_proxy_profile(sessions, source_host, captured_at)
}

/// The workload that rows make up, or an error if its counts do not fit their
/// types.
pub fn recover_profile(
    rows: Vec<StagingRow>,
    source_host: &str,
    mask_values: bool,
    captured_at: Timestamp,
) -> (r: Result<WorkloadProfile, CaptureError>)
    ensures
        r is Ok <==> workload_fits(staged_parts(staging_views(rows@), mask_values)),
        r matches Ok(p) ==> p@ == staged_profile(staging_views(rows@), source_host@, mask_values, captured_at),
        r matches Err(e) ==> e is TooLong,
{
    let sessions = make_staged_sessions(rows, mask_values);
    if !sessions_fit(&sessions) {
        return Err(CaptureError::TooLong);
    }
    Ok(make_proxy_profile(sessions, source_host, captured_at))
}

} // verus!
