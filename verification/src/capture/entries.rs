//! Log entries grouped into sessions.

use crate::capture::error::{outcome, CaptureError, ErrorView};
use crate::capture::time::{earlier, is_before, is_earlier, is_earlier_opt, micros_from, span_micros};
use crate::profile::{
    assign_all_transactions, count_queries, insert_by_id, kind_of, plain_metadata, query_count, query_views, session_views,
    sort_sessions, sorted_by_id, with_all_txns, Metadata, ProfileView, Query, QueryKind, QueryView, Session, SessionView, SourceDialect,
    Timestamp, WorkloadProfile,
};
use crate::text::copy_string;
use std::collections::HashMap;
use vstd::prelude::*;

verus! {

broadcast use vstd::std_specs::hash::group_hash_axioms;

/// One executed statement of a log.
#[derive(Debug)]
pub struct LogEntry {
    /// The session it belongs to.
    pub session: u64,
    pub time: Option<Timestamp>,
    pub user: String,
    pub database: String,
    pub duration_us: u64,
    pub sql: String,
    /// Whether it becomes a query of the workload.
    pub keep: bool,
}

/// The model of an entry.
pub struct EntryView {
    pub session: u64,
    pub time: Option<Timestamp>,
    pub user: Seq<char>,
    pub database: Seq<char>,
    pub duration_us: u64,
    pub sql: Seq<char>,
    pub keep: bool,
}

impl View for LogEntry {
    type V = EntryView;

    open spec fn view(&self) -> EntryView {
        EntryView {
            session: self.session,
            time: self.time,
            user: self.user@,
            database: self.database@,
            duration_us: self.duration_us,
            sql: self.sql@,
            keep: self.keep,
        }
    }
}

/// The models of entries.
pub open spec fn entry_views(v: Seq<LogEntry>) -> Seq<EntryView> {
    Seq::new(v.len(), |i: int| v[i]@)
}

// ── Groups ──────────────────────────────────────────────────────────

/// The entries with one more, behind all that are not later.
pub open spec fn insert_by_time(g: Seq<EntryView>, e: EntryView) -> Seq<EntryView>
    decreases g.len(),
{
    if g.len() == 0 || !earlier(e.time, g.last().time) {
        g.push(e)
    } else {
        insert_by_time(g.drop_last(), e).push(g.last())
    }
}

/// The groups with one more entry: in the group of its session, else in a new
/// one behind the others.
pub open spec fn add_to_groups(gs: Seq<Seq<EntryView>>, e: EntryView) -> Seq<Seq<EntryView>>
    decreases gs.len(),
{
    if gs.len() == 0 {
        seq![seq![e]]
    } else if gs[0].len() > 0 && gs[0][0].session == e.session {
        seq![insert_by_time(gs[0], e)] + gs.skip(1)
    } else {
        seq![gs[0]] + add_to_groups(gs.skip(1), e)
    }
}

/// The entries grouped by session in the order in which the sessions appear,
/// each group ordered by time, entries of the same time in the order in which
/// they came.
pub open spec fn grouped(es: Seq<EntryView>) -> Seq<Seq<EntryView>>
    decreases es.len(),
{
    if es.len() == 0 {
        Seq::empty()
    } else {
        add_to_groups(grouped(es.drop_last()), es.last())
    }
}

/// The time of an entry from the first of its group, in microseconds.
pub open spec fn offset_in(first: Option<Timestamp>, t: Option<Timestamp>) -> u64 {
    match (first, t) {
        (Some(a), Some(b)) => span_micros(a, b),
        _ => 0,
    }
}

/// An entry as a query.
pub open spec fn entry_query(first: Option<Timestamp>, e: EntryView) -> QueryView {
    QueryView {
        sql: e.sql,
        start_offset_us: offset_in(first, e.time),
        duration_us: e.duration_us,
        kind: kind_of(e.sql),
        transaction_id: None,
        response_values: None,
        original_sql: None,
    }
}

/// The queries of the first `n` entries of a group, those left out that are
/// not kept.
pub open spec fn group_queries(g: Seq<EntryView>, n: int) -> Seq<QueryView>
    decreases n,
{
    if n <= 0 {
        Seq::empty()
    } else {
        let rest = group_queries(g, n - 1);
        if g[n - 1].keep {
            rest.push(entry_query(g[0].time, g[n - 1]))
        } else {
            rest
        }
    }
}

/// The session of a group: user and database are those of its first entry.
pub open spec fn group_session(g: Seq<EntryView>) -> SessionView {
    SessionView {
        id: g[0].session,
        user: g[0].user,
        database: g[0].database,
        queries: group_queries(g, g.len() as int),
    }
}

/// The sessions of the first `n` groups, those without queries left out.
pub open spec fn group_sessions(gs: Seq<Seq<EntryView>>, n: int) -> Seq<SessionView>
    decreases n,
{
    if n <= 0 {
        Seq::empty()
    } else {
        let rest = group_sessions(gs, n - 1);
        let s = group_session(gs[n - 1]);
        if s.queries.len() > 0 {
            rest.push(s)
        } else {
            rest
        }
    }
}

/// The sessions of a log, before transactions.
pub open spec fn log_sessions(es: Seq<EntryView>) -> Seq<SessionView> {
    group_sessions(grouped(es), grouped(es).len() as int)
}

// ── The span of a log ───────────────────────────────────────────────

/// The earlier of two points in time, of which one may be missing.
pub open spec fn min_time(m: Option<Timestamp>, t: Option<Timestamp>) -> Option<Timestamp> {
    match (m, t) {
        (Some(a), Some(b)) => if is_before(b, a) { Some(b) } else { Some(a) },
        (None, Some(b)) => Some(b),
        _ => m,
    }
}

/// The later of two points in time, of which one may be missing.
pub open spec fn max_time(m: Option<Timestamp>, t: Option<Timestamp>) -> Option<Timestamp> {
    match (m, t) {
        (Some(a), Some(b)) => if is_before(a, b) { Some(b) } else { Some(a) },
        (None, Some(b)) => Some(b),
        _ => m,
    }
}

/// The earliest and the latest point in time of the first `n` entries.
pub open spec fn time_range(es: Seq<EntryView>, n: int) -> (Option<Timestamp>, Option<Timestamp>)
    decreases n,
{
    if n <= 0 {
        (None, None)
    } else {
        let (a, b) = time_range(es, n - 1);
        (min_time(a, es[n - 1].time), max_time(b, es[n - 1].time))
    }
}

/// The time from the earliest to the latest entry, in microseconds.
pub open spec fn log_span(es: Seq<EntryView>) -> u64 {
    let (a, b) = time_range(es, es.len() as int);
    offset_in(a, b)
}

/// A workload made of a log.
pub open spec fn log_profile(
    sessions: Seq<SessionView>,
    span: u64,
    source_host: Seq<char>,
    pg_version: Seq<char>,
    method: Seq<char>,
    dialect: SourceDialect,
    captured_at: Timestamp,
) -> ProfileView {
    ProfileView {
        version: 2,
        captured_at,
        source_host,
        pg_version,
        capture_method: method,
        source_dialect: dialect,
        sessions,
        metadata: plain_metadata(query_count(sessions), sessions.len(), span as nat),
    }
}

/// The workload of a log: its sessions with transactions, by number if asked.
pub open spec fn log_workload(
    es: Seq<EntryView>,
    by_id: bool,
    source_host: Seq<char>,
    pg_version: Seq<char>,
    method: Seq<char>,
    dialect: SourceDialect,
    captured_at: Timestamp,
) -> Result<ProfileView, ErrorView> {
    let parts = with_all_txns(log_sessions(es));
    if es.len() >= u64::MAX {
        Err(ErrorView::TooLong)
    } else {
        Ok(
            log_profile(
                if by_id { sorted_by_id(parts) } else { parts },
                log_span(es),
                source_host,
                pg_version,
                method,
                dialect,
                captured_at,
            ),
        )
    }
}

// ── Laws ────────────────────────────────────────────────────────────

/// The number of entries in groups.
pub open spec fn group_total(gs: Seq<Seq<EntryView>>) -> nat
    decreases gs.len(),
{
    if gs.len() == 0 {
        0
    } else {
        gs[0].len() + group_total(gs.skip(1))
    }
}

proof fn lemma_insert_len(g: Seq<EntryView>, e: EntryView)
    ensures
        insert_by_time(g, e).len() == g.len() + 1,
    decreases g.len(),
{
    if g.len() > 0 && earlier(e.time, g.last().time) {
        lemma_insert_len(g.drop_last(), e);
    }
}

proof fn lemma_add_total(gs: Seq<Seq<EntryView>>, e: EntryView)
    ensures
        group_total(add_to_groups(gs, e)) == group_total(gs) + 1,
    decreases gs.len(),
{
    let r = add_to_groups(gs, e);
    if gs.len() == 0 {
        assert(r.skip(1) =~= Seq::<Seq<EntryView>>::empty());
        assert(group_total(r.skip(1)) == 0);
    } else if gs[0].len() > 0 && gs[0][0].session == e.session {
        lemma_insert_len(gs[0], e);
        assert(r.skip(1) =~= gs.skip(1));
    } else {
        lemma_add_total(gs.skip(1), e);
        assert(r.skip(1) =~= add_to_groups(gs.skip(1), e));
    }
}

/// Grouping loses no entry and adds none.
pub proof fn law_grouping_keeps_count(es: Seq<EntryView>)
    ensures
        group_total(grouped(es)) == es.len(),
    decreases es.len(),
{
    if es.len() > 0 {
        law_grouping_keeps_count(es.drop_last());
        lemma_add_total(grouped(es.drop_last()), es.last());
    }
}

proof fn lemma_group_queries_len(g: Seq<EntryView>, n: int)
    requires
        0 <= n <= g.len(),
    ensures
        group_queries(g, n).len() <= n,
    decreases n,
{
    if n > 0 {
        lemma_group_queries_len(g, n - 1);
    }
}

/// The number of entries in the first `n` groups.
spec fn total_before(gs: Seq<Seq<EntryView>>, n: int) -> nat
    decreases n,
{
    if n <= 0 {
        0
    } else {
        total_before(gs, n - 1) + gs[n - 1].len()
    }
}

proof fn lemma_total_before(gs: Seq<Seq<EntryView>>, n: int)
    requires
        0 <= n <= gs.len(),
    ensures
        total_before(gs, n) + group_total(gs.skip(n)) == group_total(gs),
    decreases n,
{
    if n == 0 {
        assert(gs.skip(0) =~= gs);
    } else {
        lemma_total_before(gs, n - 1);
        assert(gs.skip(n - 1).skip(1) =~= gs.skip(n));
        assert(gs.skip(n - 1)[0] == gs[n - 1]);
    }
}

proof fn lemma_sessions_bounded(gs: Seq<Seq<EntryView>>, n: int)
    requires
        0 <= n <= gs.len(),
    ensures
        query_count(group_sessions(gs, n)) <= total_before(gs, n),
    decreases n,
{
    if n > 0 {
        lemma_sessions_bounded(gs, n - 1);
        let g = gs[n - 1];
        lemma_group_queries_len(g, g.len() as int);
        let rest = group_sessions(gs, n - 1);
        let s = group_session(g);
        if s.queries.len() > 0 {
            assert(rest.push(s).drop_last() =~= rest);
        }
    }
}

/// A workload has no more queries than the log has entries.
pub proof fn law_no_more_queries_than_entries(es: Seq<EntryView>)
    ensures
        query_count(log_sessions(es)) <= es.len(),
{
    let gs = grouped(es);
    law_grouping_keeps_count(es);
    lemma_sessions_bounded(gs, gs.len() as int);
    lemma_total_before(gs, gs.len() as int);
    assert(gs.skip(gs.len() as int) =~= Seq::<Seq<EntryView>>::empty());
}

/// Whether entries are ordered by time.
pub open spec fn times_ascend(g: Seq<EntryView>) -> bool {
    forall|i: int, j: int| 0 <= i < j < g.len() ==> !earlier(g[j].time, g[i].time)
}

proof fn lemma_insert_ascends(g: Seq<EntryView>, e: EntryView)
    requires
        times_ascend(g),
    ensures
        times_ascend(insert_by_time(g, e)),
        forall|k: int|
            0 <= k < insert_by_time(g, e).len() ==> (#[trigger] insert_by_time(g, e)[k]) == e || exists|m: int|
                0 <= m < g.len() && insert_by_time(g, e)[k] == g[m],
    decreases g.len(),
{
    if g.len() == 0 || !earlier(e.time, g.last().time) {
        let t = g.push(e);
        assert forall|k: int| 0 <= k < t.len() implies (#[trigger] t[k]) == e || exists|m: int|
            0 <= m < g.len() && t[k] == g[m] by {
            if k < g.len() {
                assert(t[k] == g[k]);
            }
        }
        assert forall|i: int, j: int| 0 <= i < j < t.len() implies !earlier(t[j].time, t[i].time) by {
            if j == g.len() && i < g.len() - 1 {
                assert(!earlier(g[g.len() - 1].time, g[i].time));
            }
        }
    } else {
        let p = g.drop_last();
        lemma_insert_ascends(p, e);
        let q = insert_by_time(p, e);
        let t = q.push(g.last());
        assert forall|k: int| 0 <= k < t.len() implies (#[trigger] t[k]) == e || exists|m: int|
            0 <= m < g.len() && t[k] == g[m] by {
            if k < q.len() {
                if q[k] != e {
                    let m = choose|m: int| 0 <= m < p.len() && q[k] == p[m];
                    assert(g[m] == p[m]);
                }
            } else {
                assert(t[k] == g[g.len() - 1]);
            }
        }
        assert forall|i: int, j: int| 0 <= i < j < t.len() implies !earlier(t[j].time, t[i].time) by {
            if j == q.len() && q[i] != e {
                let m = choose|m: int| 0 <= m < p.len() && q[i] == p[m];
                assert(g[m] == p[m]);
            }
        }
    }
}

/// Whether every group is ordered by time.
pub open spec fn groups_ascend(gs: Seq<Seq<EntryView>>) -> bool {
    forall|i: int| 0 <= i < gs.len() ==> times_ascend(#[trigger] gs[i])
}

proof fn lemma_add_ascends(gs: Seq<Seq<EntryView>>, e: EntryView)
    requires
        groups_ascend(gs),
    ensures
        groups_ascend(add_to_groups(gs, e)),
    decreases gs.len(),
{
    let r = add_to_groups(gs, e);
    if gs.len() == 0 {
    } else if gs[0].len() > 0 && gs[0][0].session == e.session {
        assert(times_ascend(gs[0]));
        lemma_insert_ascends(gs[0], e);
        assert forall|i: int| 0 <= i < r.len() implies times_ascend(#[trigger] r[i]) by {
            if i > 0 {
                assert(r[i] == gs[i]);
            }
        }
    } else {
        let t = gs.skip(1);
        assert forall|i: int| 0 <= i < t.len() implies times_ascend(#[trigger] t[i]) by {
            assert(t[i] == gs[i + 1]);
        }
        lemma_add_ascends(t, e);
        assert forall|i: int| 0 <= i < r.len() implies times_ascend(#[trigger] r[i]) by {
            if i == 0 {
                assert(r[0] == gs[0]);
            } else {
                assert(r[i] == add_to_groups(t, e)[i - 1]);
            }
        }
    }
}

/// The entries of a session are ordered by time.
pub proof fn law_groups_ordered_by_time(es: Seq<EntryView>)
    ensures
        groups_ascend(grouped(es)),
    decreases es.len(),
{
    if es.len() > 0 {
        law_groups_ordered_by_time(es.drop_last());
        lemma_add_ascends(grouped(es.drop_last()), es.last());
    }
}

/// Whether the entries of each group belong to one session, and those of two
/// groups to two.
pub open spec fn groups_are_sessions(gs: Seq<Seq<EntryView>>) -> bool {
    &&& forall|i: int| 0 <= i < gs.len() ==> (#[trigger] gs[i]).len() > 0
    &&& forall|i: int, k: int| 0 <= i < gs.len() && 0 <= k < gs[i].len() ==> (#[trigger] gs[i][k]).session == gs[i][0].session
    &&& forall|i: int, j: int| 0 <= i < j < gs.len() ==> gs[i][0].session != gs[j][0].session
}

proof fn lemma_insert_members(g: Seq<EntryView>, e: EntryView)
    requires
        forall|k: int| 0 <= k < g.len() ==> (#[trigger] g[k]).session == e.session,
    ensures
        insert_by_time(g, e).len() == g.len() + 1,
        forall|k: int|
            0 <= k < insert_by_time(g, e).len() ==> (#[trigger] insert_by_time(g, e)[k]).session == e.session,
    decreases g.len(),
{
    if g.len() > 0 && earlier(e.time, g.last().time) {
        let p = g.drop_last();
        assert forall|k: int| 0 <= k < p.len() implies (#[trigger] p[k]).session == e.session by {
            assert(p[k] == g[k]);
        }
        lemma_insert_members(p, e);
        assert(g[g.len() - 1].session == e.session);
    }
}

proof fn lemma_add_keeps_sessions(gs: Seq<Seq<EntryView>>, e: EntryView)
    requires
        groups_are_sessions(gs),
    ensures
        groups_are_sessions(add_to_groups(gs, e)),
        forall|i: int|
            0 <= i < add_to_groups(gs, e).len() ==> (#[trigger] add_to_groups(gs, e)[i])[0].session == e.session
                || exists|j: int| 0 <= j < gs.len() && add_to_groups(gs, e)[i][0].session == gs[j][0].session,
    decreases gs.len(),
{
    let r = add_to_groups(gs, e);
    if gs.len() == 0 {
        assert(r[0] == seq![e]);
    } else if gs[0][0].session == e.session {
        assert forall|k: int| 0 <= k < gs[0].len() implies (#[trigger] gs[0][k]).session == e.session by {}
        lemma_insert_members(gs[0], e);
        let g = insert_by_time(gs[0], e);
        assert(g[0].session == e.session);
        assert forall|i: int| 0 < i < r.len() implies (#[trigger] r[i]) == gs[i] by {}
    } else {
        let t = gs.skip(1);
        assert forall|i: int| 0 <= i < t.len() implies (#[trigger] t[i]) == gs[i + 1] by {}
        assert(groups_are_sessions(t)) by {
            assert forall|i: int, k: int| 0 <= i < t.len() && 0 <= k < t[i].len() implies (
            #[trigger] t[i][k]).session == t[i][0].session by {
                assert(t[i] == gs[i + 1]);
                assert(gs[i + 1][k].session == gs[i + 1][0].session);
            }
            assert forall|i: int, j: int| 0 <= i < j < t.len() implies t[i][0].session != t[j][0].session by {
                assert(gs[i + 1][0].session != gs[j + 1][0].session);
            }
        }
        lemma_add_keeps_sessions(t, e);
        let u = add_to_groups(t, e);
        assert(r =~= seq![gs[0]] + u);
        assert forall|i: int| 0 <= i < r.len() implies (#[trigger] r[i]).len() > 0 by {
            if i > 0 {
                assert(r[i] == u[i - 1]);
            }
        }
        assert forall|i: int, k: int| 0 <= i < r.len() && 0 <= k < r[i].len() implies (#[trigger] r[i][k]).session
            == r[i][0].session by {
            if i > 0 {
                assert(r[i] == u[i - 1]);
                assert(u[i - 1][k].session == u[i - 1][0].session);
            } else {
                assert(r[0] == gs[0]);
                assert(gs[0][k].session == gs[0][0].session);
            }
        }
        assert forall|i: int| 0 <= i < r.len() implies (#[trigger] r[i])[0].session == e.session || exists|j: int|
            0 <= j < gs.len() && r[i][0].session == gs[j][0].session by {
            if i > 0 {
                assert(r[i] == u[i - 1]);
                if u[i - 1][0].session != e.session {
                    let j = choose|j: int| 0 <= j < t.len() && u[i - 1][0].session == t[j][0].session;
                    assert(t[j] == gs[j + 1]);
                }
            } else {
                assert(r[0] == gs[0]);
            }
        }
        assert forall|i: int, j: int| 0 <= i < j < r.len() implies r[i][0].session != r[j][0].session by {
            assert(r[j] == u[j - 1]);
            if i > 0 {
                assert(r[i] == u[i - 1]);
                assert(u[i - 1][0].session != u[j - 1][0].session);
            } else {
                assert(r[0] == gs[0]);
                if u[j - 1][0].session != e.session {
                    let m = choose|m: int| 0 <= m < t.len() && u[j - 1][0].session == t[m][0].session;
                    assert(gs[0][0].session != gs[m + 1][0].session);
                }
            }
        }
    }
}

/// Entries are grouped by session: each group is one session, and no session
/// has two.
pub proof fn law_groups_are_sessions(es: Seq<EntryView>)
    ensures
        groups_are_sessions(grouped(es)),
    decreases es.len(),
{
    if es.len() > 0 {
        law_groups_are_sessions(es.drop_last());
        lemma_add_keeps_sessions(grouped(es.drop_last()), es.last());
    }
}

// ── Grouping ────────────────────────────────────────────────────────

pub open spec fn groups_view(v: Seq<Vec<LogEntry>>) -> Seq<Seq<EntryView>> {
    Seq::new(v.len(), |i: int| entry_views(v[i]@))
}

fn insert_entry(g: &mut Vec<LogEntry>, e: LogEntry)
    ensures
        entry_views(final(g)@) == insert_by_time(entry_views(old(g)@), e@),
        final(g)@.len() == old(g)@.len() + 1,
{
    let ghost before = entry_views(g@);
    let ghost ev = e@;
    let mut i: usize = g.len();
    proof {
        assert(before.take(i as int) =~= before);
        assert(insert_by_time(before, ev) =~= insert_by_time(before.take(i as int), ev) + before.skip(i as int));
    }
    while i > 0 && is_earlier_opt(&e.time, &g[i - 1].time)
        invariant
            i <= g@.len(),
            before == entry_views(g@),
            before == entry_views(old(g)@),
            g@.len() == old(g)@.len(),
            ev == e@,
            insert_by_time(before, ev) == insert_by_time(before.take(i as int), ev) + before.skip(i as int),
        decreases i,
    {
        proof {
            let t = before.take(i as int);
            assert(t.last() == g@[i - 1]@);
            assert(t.drop_last() =~= before.take(i - 1));
            assert(insert_by_time(before.take(i - 1), ev).push(t.last()) + before.skip(i as int)
                =~= insert_by_time(before.take(i - 1), ev) + before.skip(i - 1));
        }
        i = i - 1;
    }
    proof {
        let t = before.take(i as int);
        assert(t.len() > 0 ==> t.last() == g@[i - 1]@);
    }
    g.insert(i, e);
    proof {
        assert(entry_views(g@) =~= before.take(i as int).push(ev) + before.skip(i as int));
    }
}

/// Whether each group is found by its session.
spec fn places_match(places: Map<u64, usize>, gs: Seq<Seq<EntryView>>) -> bool {
    &&& forall|id: u64| #[trigger]
        places.contains_key(id) ==> places[id] < gs.len() && gs[places[id] as int].len() > 0
            && gs[places[id] as int][0].session == id
    &&& forall|i: int|
        0 <= i < gs.len() ==> (#[trigger] gs[i]).len() > 0 && places.contains_key(gs[i][0].session)
            && places[gs[i][0].session] == i
}

proof fn lemma_insert_first(g: Seq<EntryView>, e: EntryView)
    requires
        g.len() > 0,
        g[0].session == e.session,
    ensures
        insert_by_time(g, e).len() > 0,
        insert_by_time(g, e)[0].session == e.session,
    decreases g.len(),
{
    if earlier(e.time, g.last().time) && g.len() > 1 {
        lemma_insert_first(g.drop_last(), e);
    } else if earlier(e.time, g.last().time) {
        assert(insert_by_time(g.drop_last(), e) =~= seq![e]);
    }
}

pub(crate) proof fn lemma_add_at(gs: Seq<Seq<EntryView>>, e: EntryView, i: int)
    requires
        0 <= i <= gs.len(),
        forall|k: int| 0 <= k < i ==> (#[trigger] gs[k]).len() > 0 && gs[k][0].session != e.session,
        i < gs.len() ==> gs[i].len() > 0 && gs[i][0].session == e.session,
    ensures
        add_to_groups(gs, e) == if i < gs.len() {
            gs.update(i, insert_by_time(gs[i], e))
        } else {
            gs.push(seq![e])
        },
    decreases i,
{
    if i > 0 {
        let rest = gs.skip(1);
        assert(gs[0].len() > 0 && gs[0][0].session != e.session);
        assert forall|k: int| 0 <= k < i - 1 implies (#[trigger] rest[k]).len() > 0 && rest[k][0].session
            != e.session by {
            assert(rest[k] == gs[k + 1]);
        }
        lemma_add_at(rest, e, i - 1);
        if i < gs.len() {
            assert(seq![gs[0]] + rest.update(i - 1, insert_by_time(gs[i], e)) =~= gs.update(
                i,
                insert_by_time(gs[i], e),
            ));
        } else {
            assert(seq![gs[0]] + rest.push(seq![e]) =~= gs.push(seq![e]));
        }
    } else if gs.len() > 0 {
        assert(seq![insert_by_time(gs[0], e)] + gs.skip(1) =~= gs.update(0, insert_by_time(gs[0], e)));
    } else {
        assert(seq![seq![e]] =~= gs.push(seq![e]));
    }
}

fn add_entry(gs: &mut Vec<Vec<LogEntry>>, places: &mut HashMap<u64, usize>, e: LogEntry)
    requires
        places_match(old(places)@, groups_view(old(gs)@)),
    ensures
        places_match(final(places)@, groups_view(final(gs)@)),
        groups_view(final(gs)@) == add_to_groups(groups_view(old(gs)@), e@),
{
    let ghost before = groups_view(gs@);
    let ghost known = places@;
    let ghost ev = e@;
    let session: u64 = e.session;
    let found: Option<usize> = match places.get(&session) {
        Some(i) => Some(*i),
        None => None,
    };
    match found {
        Some(i) => {
            proof {
                assert(before[i as int] == entry_views(gs@[i as int]@));
                assert forall|k: int| 0 <= k < i implies (#[trigger] before[k]).len() > 0 && before[k][0].session
                    != session by {
                    assert(known.contains_key(before[k][0].session));
                }
                lemma_add_at(before, ev, i as int);
                lemma_insert_first(before[i as int], ev);
            }
            insert_entry(&mut gs[i], e);
            proof {
                let after = groups_view(gs@);
                assert(after =~= before.update(i as int, insert_by_time(before[i as int], ev)));
                assert forall|k: int| 0 <= k < after.len() implies (#[trigger] after[k]).len() > 0
                    && known.contains_key(after[k][0].session) && known[after[k][0].session] == k by {
                    assert(before[k].len() > 0);
                }
            }
        },
        None => {
            let place: usize = gs.len();
            let mut g: Vec<LogEntry> = Vec::new();
            g.push(e);
            proof {
                assert(entry_views(g@) =~= seq![ev]);
                assert forall|k: int| 0 <= k < before.len() implies (#[trigger] before[k]).len() > 0
                    && before[k][0].session != session by {
                    assert(known.contains_key(before[k][0].session));
                }
                lemma_add_at(before, ev, before.len() as int);
            }
            gs.push(g);
            places.insert(session, place);
            proof {
                let after = groups_view(gs@);
                assert(after =~= before.push(seq![ev]));
                assert forall|k: int| 0 <= k < after.len() implies (#[trigger] after[k]).len() > 0
                    && places@.contains_key(after[k][0].session) && places@[after[k][0].session] == k by {
                    if k < before.len() {
                        assert(after[k] == before[k]);
                        assert(before[k].len() > 0);
                    }
                }
                assert forall|id: u64| #[trigger] places@.contains_key(id) implies places@[id] < after.len()
                    && after[places@[id] as int].len() > 0 && after[places@[id] as int][0].session == id by {
                    if id != session {
                        assert(known.contains_key(id));
                        assert(after[known[id] as int] == before[known[id] as int]);
                    }
                }
            }
        },
    }
}

fn group_entries(entries: Vec<LogEntry>) -> (r: Vec<Vec<LogEntry>>)
    ensures
        groups_view(r@) == grouped(entry_views(entries@)),
        forall|k: int| 0 <= k < r@.len() ==> (#[trigger] r@[k])@.len() > 0,
{
    let ghost all = entry_views(entries@);
    let mut gs: Vec<Vec<LogEntry>> = Vec::new();
    let mut places: HashMap<u64, usize> = HashMap::new();
    proof {
        assert(groups_view(gs@) =~= grouped(all.take(0)));
    }
    for e in it: entries
        invariant
            all.len() == it.seq().len(),
            forall|k: int| 0 <= k < all.len() ==> (#[trigger] it.seq()[k])@ == all[k],
            places_match(places@, groups_view(gs@)),
            groups_view(gs@) == grouped(all.take(it.index() as int)),
    {
        proof {
            let i = it.index() as int;
            assert(it.seq()[i]@ == all[i]);
            assert(all.take(i + 1).drop_last() =~= all.take(i));
            assert(all.take(i + 1).last() == all[i]);
        }
        add_entry(&mut gs, &mut places, e);
    }
    proof {
        assert(all.take(all.len() as int) =~= all);
        assert forall|k: int| 0 <= k < gs@.len() implies (#[trigger] gs@[k])@.len() > 0 by {
            assert(groups_view(gs@)[k].len() > 0);
        }
    }
    gs
}

fn find_range(entries: &Vec<LogEntry>) -> (r: (Option<Timestamp>, Option<Timestamp>))
    ensures
        r == time_range(entry_views(entries@), entries@.len() as int),
{
    let ghost all = entry_views(entries@);
    let mut low: Option<Timestamp> = None;
    let mut high: Option<Timestamp> = None;
    for i in 0..entries.len()
        invariant
            all == entry_views(entries@),
            (low, high) == time_range(all, i as int),
    {
        if let Some(t) = entries[i].time {
            low = match low {
                Some(a) => if is_earlier(&t, &a) { Some(t) } else { Some(a) },
                None => Some(t),
            };
            high = match high {
                Some(a) => if is_earlier(&a, &t) { Some(t) } else { Some(a) },
                None => Some(t),
            };
        }
    }
    (low, high)
}

fn offset_from(first: &Option<Timestamp>, t: &Option<Timestamp>) -> (r: u64)
    ensures
        r == offset_in(*first, *t),
{
    match first {
        Some(a) => match t {
            Some(b) => micros_from(a, b),
            None => 0,
        },
        None => 0,
    }
}

fn make_session(g: Vec<LogEntry>) -> (r: Session)
    requires
        g@.len() > 0,
    ensures
        r@ == group_session(entry_views(g@)),
{
    let ghost all = entry_views(g@);
    let id = g[0].session;
    let user = copy_string(g[0].user.as_str());
    let database = copy_string(g[0].database.as_str());
    let first = g[0].time;
    let mut queries: Vec<Query> = Vec::new();
    proof {
        assert(query_views(queries@) =~= group_queries(all, 0));
    }
    for e in it: g
        invariant
            all.len() == it.seq().len(),
            all.len() > 0,
            first == all[0].time,
            forall|k: int| 0 <= k < all.len() ==> (#[trigger] it.seq()[k])@ == all[k],
            query_views(queries@) == group_queries(all, it.index() as int),
    {
        proof {
            assert(it.seq()[it.index() as int]@ == all[it.index() as int]);
        }
        if e.keep {
            let ghost before = query_views(queries@);
            let kind = QueryKind::from_sql(e.sql.as_str());
            let q = Query {
                sql: e.sql,
                start_offset_us: offset_from(&first, &e.time),
                duration_us: e.duration_us,
                kind,
                transaction_id: None,
                response_values: None,
                original_sql: None,
            };
            let ghost qv = q@;
            queries.push(q);
            proof {
                assert(query_views(queries@) =~= before.push(qv));
            }
        }
    }
    Session { id, user, database, queries }
}

/// What a log is made into before transactions: its sessions and its span.
pub fn build_sessions(entries: Vec<LogEntry>) -> (r: (Vec<Session>, u64))
    ensures
        session_views(r.0@) == log_sessions(entry_views(entries@)),
        r.1 == log_span(entry_views(entries@)),
{
    let ghost all = entry_views(entries@);
    let (low, high) = find_range(&entries);
    let span = offset_from(&low, &high);
    let groups = group_entries(entries);
    let ghost gs = groups_view(groups@);
    let mut sessions: Vec<Session> = Vec::new();
    proof {
        assert(session_views(sessions@) =~= group_sessions(gs, 0));
    }
    for g in it: groups
        invariant
            gs.len() == it.seq().len(),
            forall|k: int|
                0 <= k < gs.len() ==> (#[trigger] it.seq()[k])@.len() > 0 && entry_views(it.seq()[k]@) == gs[k],
            session_views(sessions@) == group_sessions(gs, it.index() as int),
    {
        proof {
            assert(entry_views(it.seq()[it.index() as int]@) == gs[it.index() as int]);
        }
        let s = make_session(g);
        if s.queries.len() > 0 {
            let ghost before = session_views(sessions@);
            let ghost sv = s@;
            sessions.push(s);
            proof {
                assert(session_views(sessions@) =~= before.push(sv));
            }
        }
    }
    (sessions, span)
}

proof fn lemma_txns_keep_count(s: Seq<SessionView>, n: int)
    requires
        0 <= n <= s.len(),
    ensures
        query_count(with_all_txns(s).take(n)) == query_count(s.take(n)),
    decreases n,
{
    if n > 0 {
        lemma_txns_keep_count(s, n - 1);
        assert(with_all_txns(s).take(n).drop_last() =~= with_all_txns(s).take(n - 1));
        assert(s.take(n).drop_last() =~= s.take(n - 1));
    }
}

/// Assigning transactions adds no query and drops none.
pub proof fn law_transactions_keep_count(s: Seq<SessionView>)
    ensures
        query_count(with_all_txns(s)) == query_count(s),
{
    lemma_txns_keep_count(s, s.len() as int);
    assert(with_all_txns(s).take(s.len() as int) =~= with_all_txns(s));
    assert(s.take(s.len() as int) =~= s);
}

proof fn lemma_insert_count(s: Seq<SessionView>, x: SessionView)
    ensures
        query_count(insert_by_id(s, x)) == query_count(s) + x.queries.len(),
    decreases s.len(),
{
    let r = insert_by_id(s, x);
    assert(r.drop_last().push(r.last()) =~= r);
    if s.len() == 0 || s.last().id <= x.id {
        assert(r.drop_last() =~= s);
    } else {
        lemma_insert_count(s.drop_last(), x);
        assert(r.drop_last() =~= insert_by_id(s.drop_last(), x));
    }
}

/// Sorting adds no query and drops none.
pub proof fn law_sorting_keeps_count(s: Seq<SessionView>)
    ensures
        query_count(sorted_by_id(s)) == query_count(s),
    decreases s.len(),
{
    if s.len() > 0 {
        law_sorting_keeps_count(s.drop_last());
        lemma_insert_count(sorted_by_id(s.drop_last()), s.last());
    }
}

/// Makes the workload of a log.
pub fn build_workload(
    entries: Vec<LogEntry>,
    by_id: bool,
    source_host: &str,
    pg_version: &str,
    method: &str,
    dialect: SourceDialect,
    captured_at: Timestamp,
) -> (r: Result<WorkloadProfile, CaptureError>)
    ensures
        outcome(r) == log_workload(
            entry_views(entries@),
            by_id,
            source_host@,
            pg_version@,
            method@,
            dialect,
            captured_at,
        ),
{
    let ghost es = entry_views(entries@);
    if entries.len() as u64 == u64::MAX {
        return Err(CaptureError::TooLong);
    }
    let (mut sessions, span) = build_sessions(entries);
    proof {
        law_no_more_queries_than_entries(es);
        law_transactions_keep_count(log_sessions(es));
        law_sorting_keeps_count(with_all_txns(log_sessions(es)));
    }
    assign_all_transactions(&mut sessions);
    if by_id {
        sessions = sort_sessions(sessions);
    }
    Ok(make_profile(sessions, span, source_host, pg_version, method, dialect, captured_at))
}

/// The workload of sessions whose transactions have been assigned.
pub fn make_profile(
    sessions: Vec<Session>,
    span: u64,
    source_host: &str,
    pg_version: &str,
    method: &str,
    dialect: SourceDialect,
    captured_at: Timestamp,
) -> (r: WorkloadProfile)
    requires
        query_count(session_views(sessions@)) <= u64::MAX,
    ensures
        r@ == log_profile(
            session_views(sessions@),
            span,
            source_host@,
            pg_version@,
            method@,
            dialect,
            captured_at,
        ),
{
    let total_queries = count_queries(&sessions);
    let total_sessions = sessions.len() as u64;
    WorkloadProfile {
        version: 2,
        captured_at,
        source_host: copy_string(source_host),
        pg_version: copy_string(pg_version),
        capture_method: copy_string(method),
        source_dialect: dialect,
        sessions,
        metadata: Metadata {
            total_queries,
            total_sessions,
            capture_duration_us: span,
            sequence_snapshot: None,
            pk_map: None,
        },
    }
}

} // verus!
