//! Laws of making sessions out of log entries.

use crate::capture::entries::{
    group_queries, group_session, group_sessions, grouped, insert_by_time, law_groups_are_sessions,
    law_groups_ordered_by_time, lemma_add_at, log_sessions, log_workload, offset_in, time_range, EntryView,
};
use crate::capture::time::{earlier, law_span_without_leap_seconds};
use crate::profile::{
    first_txn, kind_of, law_sorted_by_id, query_count, txn_count, with_all_txns, with_txns, workload_end,
    SessionView, SourceDialect, Timestamp,
};
use vstd::prelude::*;

verus! {

// ── Times ───────────────────────────────────────────────────────────

/// A point in time comes before another by its seconds, and by its nanoseconds
/// within the same second; an unknown one comes before all others.
pub proof fn law_order_of_times(a: Timestamp, b: Timestamp)
    ensures
        a.secs < b.secs ==> earlier(Some(a), Some(b)),
        a.secs == b.secs ==> (earlier(Some(a), Some(b)) <==> a.nanos < b.nanos),
        a.secs > b.secs ==> !earlier(Some(a), Some(b)),
        earlier(None, Some(a)),
        !earlier(Some(a), None),
        !earlier(None, None),
{
}

/// The time between two points without leap seconds is counted in whole
/// microseconds; it is zero where the second comes first.
pub proof fn law_time_between(a: Timestamp, b: Timestamp)
    requires
        a.nanos < 1_000_000_000,
        b.nanos < 1_000_000_000,
    ensures
        ({
            let ns = (b.secs - a.secs) * 1_000_000_000 + b.nanos - a.nanos;
            &&& 0 <= ns && ns / 1000 <= i64::MAX ==> offset_in(Some(a), Some(b)) * 1000 <= ns < (offset_in(
                Some(a),
                Some(b),
            ) + 1) * 1000
            &&& ns < 0 ==> offset_in(Some(a), Some(b)) == 0
        }),
        offset_in(None, Some(b)) == 0,
        offset_in(Some(a), None) == 0,
{
    law_span_without_leap_seconds(a, b);
}

// ── Groups ──────────────────────────────────────────────────────────

/// The entries of a session.
pub open spec fn of_session(x: u64) -> spec_fn(EntryView) -> bool {
    |e: EntryView| e.session == x
}

proof fn lemma_insert_multiset(g: Seq<EntryView>, e: EntryView)
    ensures
        insert_by_time(g, e).to_multiset() == g.to_multiset().insert(e),
    decreases g.len(),
{
    broadcast use vstd::seq_lib::group_to_multiset_ensures;

    let t = insert_by_time(g, e);
    if t != g.push(e) {
        let p = g.drop_last();
        lemma_insert_multiset(p, e);
        assert(p.push(g.last()) =~= g);
        assert(t == insert_by_time(p, e).push(g.last()));
        assert(t.to_multiset() =~= p.to_multiset().insert(e).insert(g.last()));
        assert(t.to_multiset() =~= g.to_multiset().insert(e));
    }
}

/// Whether a group is that of a session.
pub open spec fn is_group_of(gs: Seq<Seq<EntryView>>, i: int, x: u64) -> bool {
    0 <= i < gs.len() && gs[i].len() > 0 && gs[i][0].session == x
}

proof fn lemma_groups(es: Seq<EntryView>, x: u64)
    ensures
        forall|i: int| #[trigger] is_group_of(grouped(es), i, x) ==> grouped(es)[i].to_multiset() == es.filter(
            of_session(x),
        ).to_multiset(),
        es.filter(of_session(x)).len() > 0 ==> exists|i: int| is_group_of(grouped(es), i, x),
    decreases es.len(),
{
    broadcast use vstd::seq_lib::group_to_multiset_ensures;

    reveal(Seq::filter);
    law_groups_are_sessions(es);
    if es.len() > 0 {
        let p = es.drop_last();
        let e = es.last();
        let gs = grouped(p);
        let hs = grouped(es);
        lemma_groups(p, x);
        lemma_groups(p, e.session);
        law_groups_are_sessions(p);
        if exists|i: int| is_group_of(gs, i, e.session) {
            let i = choose|i: int| is_group_of(gs, i, e.session);
            assert forall|k: int| 0 <= k < i implies (#[trigger] gs[k]).len() > 0 && gs[k][0].session != e.session by {
            }
            lemma_add_at(gs, e, i);
            lemma_insert_multiset(gs[i], e);
            assert(hs == gs.update(i, insert_by_time(gs[i], e)));
            assert(insert_by_time(gs[i], e).len() > 0) by {
                assert(insert_by_time(gs[i], e).len() == insert_by_time(gs[i], e).to_multiset().len());
            }
            assert(hs[i][0].session == e.session) by {
                lemma_same_session(gs[i], e);
            }
            assert forall|j: int| #[trigger] is_group_of(hs, j, x) implies hs[j].to_multiset() == es.filter(
                of_session(x),
            ).to_multiset() by {
                if j == i {
                    assert(is_group_of(gs, i, x));
                    assert(es.filter(of_session(x)) == p.filter(of_session(x)).push(e));
                } else {
                    assert(is_group_of(gs, j, x));
                    assert(gs[j][0].session != gs[i][0].session);
                    assert(es.filter(of_session(x)) == p.filter(of_session(x)));
                }
            }
            if es.filter(of_session(x)).len() > 0 {
                if x == e.session {
                    assert(is_group_of(hs, i, x));
                } else {
                    let j = choose|j: int| is_group_of(gs, j, x);
                    assert(is_group_of(hs, j, x));
                }
            }
        } else {
            assert forall|k: int| 0 <= k < gs.len() implies (#[trigger] gs[k]).len() > 0 && gs[k][0].session
                != e.session by {
                if gs[k][0].session == e.session {
                    assert(is_group_of(gs, k, e.session));
                }
            }
            lemma_add_at(gs, e, gs.len() as int);
            assert(hs == gs.push(seq![e]));
            assert(p.filter(of_session(e.session)).len() == 0);
            assert(is_group_of(hs, gs.len() as int, e.session));
            assert forall|j: int| #[trigger] is_group_of(hs, j, x) implies hs[j].to_multiset() == es.filter(
                of_session(x),
            ).to_multiset() by {
                if j == gs.len() {
                    assert(p.filter(of_session(x)) =~= Seq::<EntryView>::empty());
                    assert(es.filter(of_session(x)) =~= seq![e]);
                } else {
                    assert(is_group_of(gs, j, x));
                    assert(es.filter(of_session(x)) == p.filter(of_session(x)));
                }
            }
            if es.filter(of_session(x)).len() > 0 && x != e.session {
                let j = choose|j: int| is_group_of(gs, j, x);
                assert(is_group_of(hs, j, x));
            }
        }
    }
}

proof fn lemma_same_session(g: Seq<EntryView>, e: EntryView)
    requires
        g.len() > 0,
        forall|k: int| 0 <= k < g.len() ==> (#[trigger] g[k]).session == e.session,
    ensures
        insert_by_time(g, e).len() > 0,
        insert_by_time(g, e)[0].session == e.session,
    decreases g.len(),
{
    let t = insert_by_time(g, e);
    if t != g.push(e) {
        let p = g.drop_last();
        if p.len() > 0 {
            assert forall|k: int| 0 <= k < p.len() implies (#[trigger] p[k]).session == e.session by {
                assert(p[k] == g[k]);
            }
            lemma_same_session(p, e);
        } else {
            assert(insert_by_time(p, e) =~= seq![e]);
        }
    }
}

/// Each session's group holds that session's entries and no others, and every
/// session has a group.
pub proof fn law_group_holds_the_entries_of_its_session(es: Seq<EntryView>, i: int, e: EntryView)
    ensures
        0 <= i < grouped(es).len() ==> grouped(es)[i].len() > 0 && grouped(es)[i].to_multiset() == es.filter(
            of_session(grouped(es)[i][0].session),
        ).to_multiset(),
        es.contains(e) ==> exists|j: int|
            0 <= j < grouped(es).len() && (#[trigger] grouped(es)[j]).contains(e) && grouped(es)[j][0].session
                == e.session,
{
    broadcast use vstd::seq_lib::group_to_multiset_ensures;

    law_groups_are_sessions(es);
    if 0 <= i < grouped(es).len() {
        let x = grouped(es)[i][0].session;
        lemma_groups(es, x);
        assert(is_group_of(grouped(es), i, x));
    }
    if es.contains(e) {
        lemma_groups(es, e.session);
        let k = es.index_of(e);
        es.lemma_filter_contains(of_session(e.session), k);
        let f = es.filter(of_session(e.session));
        assert(f.contains(e));
        assert(f.len() > 0);
        let j = choose|j: int| is_group_of(grouped(es), j, e.session);
        assert(is_group_of(grouped(es), j, e.session));
        assert(f.to_multiset().contains(e));
        assert(grouped(es)[j].to_multiset().contains(e));
        assert(grouped(es)[j].contains(e));
    }
}

/// Whether the entries of each session come in the order of their times.
pub open spec fn come_in_order(es: Seq<EntryView>) -> bool {
    forall|i: int, j: int|
        0 <= i < j < es.len() && es[i].session == es[j].session ==> !earlier(es[j].time, es[i].time)
}

proof fn lemma_in_order(es: Seq<EntryView>, x: u64)
    requires
        come_in_order(es),
    ensures
        forall|i: int| #[trigger] is_group_of(grouped(es), i, x) ==> grouped(es)[i] == es.filter(of_session(x)),
    decreases es.len(),
{
    reveal(Seq::filter);
    if es.len() > 0 {
        let p = es.drop_last();
        let e = es.last();
        let gs = grouped(p);
        let hs = grouped(es);
        lemma_in_order(p, x);
        lemma_in_order(p, e.session);
        lemma_groups(p, e.session);
        law_groups_are_sessions(p);
        if exists|i: int| is_group_of(gs, i, e.session) {
            let i = choose|i: int| is_group_of(gs, i, e.session);
            lemma_add_at(gs, e, i);
            let g = gs[i];
            assert(g == p.filter(of_session(e.session)));
            p.lemma_filter_contains_rev(of_session(e.session), g.last());
            assert(g.contains(g.last())) by {
                assert(g[g.len() - 1] == g.last());
            }
            assert(p.contains(g.last()));
            let k = p.index_of(g.last());
            assert(es[k] == g.last());
            assert(g[g.len() - 1].session == g[0].session);
            assert(!earlier(es[es.len() - 1].time, es[k].time));
            assert(insert_by_time(g, e) == g.push(e));
            assert forall|j: int| #[trigger] is_group_of(hs, j, x) implies hs[j] == es.filter(of_session(x)) by {
                assert(is_group_of(gs, j, x));
                if j != i {
                    assert(gs[j][0].session != gs[i][0].session);
                }
            }
        } else {
            assert forall|k: int| 0 <= k < gs.len() implies (#[trigger] gs[k]).len() > 0 && gs[k][0].session
                != e.session by {
                if gs[k][0].session == e.session {
                    assert(is_group_of(gs, k, e.session));
                }
            }
            lemma_add_at(gs, e, gs.len() as int);
            assert forall|j: int| #[trigger] is_group_of(hs, j, x) implies hs[j] == es.filter(of_session(x)) by {
                if j == gs.len() {
                    assert(p.filter(of_session(x)).len() == 0);
                    assert(es.filter(of_session(x)) =~= seq![e]);
                } else {
                    assert(is_group_of(gs, j, x));
                }
            }
        }
    }
}

/// Entries of a session that come in the order of their times, equal ones
/// included, stay in that order.
pub proof fn law_entries_in_order_stay_in_order(es: Seq<EntryView>, i: int)
    requires
        come_in_order(es),
        0 <= i < grouped(es).len(),
    ensures
        grouped(es)[i] == es.filter(of_session(grouped(es)[i][0].session)),
{
    law_groups_are_sessions(es);
    let x = grouped(es)[i][0].session;
    lemma_in_order(es, x);
    assert(is_group_of(grouped(es), i, x));
}

/// In a group no entry has an earlier time than one before it.
pub proof fn law_group_is_in_time_order(es: Seq<EntryView>, i: int, j: int, k: int)
    requires
        0 <= i < grouped(es).len(),
        0 <= j < k < grouped(es)[i].len(),
    ensures
        ({
            let a = grouped(es)[i][j].time;
            let b = grouped(es)[i][k].time;
            &&& a is Some ==> b is Some
            &&& a is Some ==> a->0.secs <= b->0.secs
            &&& a is Some && a->0.secs == b->0.secs ==> a->0.nanos <= b->0.nanos
        }),
{
    law_groups_ordered_by_time(es);
    assert(!earlier(grouped(es)[i][k].time, grouped(es)[i][j].time));
}

// ── Queries and sessions ────────────────────────────────────────────

/// The entries that are kept.
pub open spec fn kept() -> spec_fn(EntryView) -> bool {
    |e: EntryView| e.keep
}

/// The queries of a group are its kept entries, in order: each with the text,
/// the duration and the kind of its text, and the time from the first entry.
pub proof fn law_queries_are_the_kept_entries(g: Seq<EntryView>, n: int, k: int)
    requires
        0 <= n <= g.len(),
    ensures
        group_queries(g, n).len() == g.take(n).filter(kept()).len(),
        0 <= k < group_queries(g, n).len() ==> {
            let q = group_queries(g, n)[k];
            let e = g.take(n).filter(kept())[k];
            &&& q.sql == e.sql
            &&& q.duration_us == e.duration_us
            &&& q.kind == kind_of(e.sql)
            &&& q.start_offset_us == offset_in(g[0].time, e.time)
            &&& q.transaction_id is None
            &&& q.response_values is None
            &&& q.original_sql is None
        },
    decreases n,
{
    reveal(Seq::filter);
    if n > 0 {
        law_queries_are_the_kept_entries(g, n - 1, k);
        assert(g.take(n).drop_last() =~= g.take(n - 1));
        assert(g.take(n).last() == g[n - 1]);
    }
}

/// The session of a group has the number, the user and the database of its first
/// entry.
pub proof fn law_session_is_named_by_its_first_entry(g: Seq<EntryView>)
    requires
        g.len() > 0,
    ensures
        group_session(g).id == g[0].session,
        group_session(g).user == g[0].user,
        group_session(g).database == g[0].database,
        group_session(g).queries == group_queries(g, g.len() as int),
{
}

/// The groups with a query that is kept.
pub open spec fn with_queries() -> spec_fn(Seq<EntryView>) -> bool {
    |g: Seq<EntryView>| g.filter(kept()).len() > 0
}

/// The sessions are those of the groups with a query that is kept, in order.
pub proof fn law_sessions_are_the_groups(gs: Seq<Seq<EntryView>>, n: int)
    requires
        0 <= n <= gs.len(),
    ensures
        group_sessions(gs, n) == gs.take(n).filter(with_queries()).map_values(
            |g: Seq<EntryView>| group_session(g),
        ),
    decreases n,
{
    reveal(Seq::filter);
    let f = |g: Seq<EntryView>| group_session(g);
    let kept_groups = gs.take(n).filter(with_queries());
    if n > 0 {
        law_sessions_are_the_groups(gs, n - 1);
        let g = gs[n - 1];
        assert(gs.take(n).drop_last() =~= gs.take(n - 1));
        assert(gs.take(n).last() == g);
        law_queries_are_the_kept_entries(g, g.len() as int, 0);
        assert(g.take(g.len() as int) =~= g);
        let before = gs.take(n - 1).filter(with_queries());
        if with_queries()(g) {
            assert(kept_groups == before.push(g));
            assert(kept_groups.map_values(f) =~= before.map_values(f).push(f(g)));
        }
        assert(group_sessions(gs, n) =~= kept_groups.map_values(f));
    } else {
        assert(kept_groups.map_values(f) =~= Seq::<SessionView>::empty());
    }
}

// ── The span ────────────────────────────────────────────────────────

/// No entry lies before the first time of a log or behind its last, and both are
/// times of entries.
pub proof fn law_range_holds_all_times(es: Seq<EntryView>, n: int, k: int)
    requires
        0 <= k < n <= es.len(),
    ensures
        es[k].time matches Some(t) ==> {
            let (a, b) = time_range(es, n);
            &&& a is Some
            &&& b is Some
            &&& a->0.secs < t.secs || (a->0.secs == t.secs && a->0.nanos <= t.nanos)
            &&& t.secs < b->0.secs || (t.secs == b->0.secs && t.nanos <= b->0.nanos)
        },
    decreases n,
{
    if k < n - 1 {
        law_range_holds_all_times(es, n - 1, k);
    }
}

/// The ends of the range of a log are times of its entries.
pub proof fn law_range_ends_at_entries(es: Seq<EntryView>, n: int)
    requires
        0 <= n <= es.len(),
    ensures
        time_range(es, n).0 matches Some(a) ==> exists|k: int| 0 <= k < n && (#[trigger] es[k]).time == Some(a),
        time_range(es, n).1 matches Some(b) ==> exists|k: int| 0 <= k < n && (#[trigger] es[k]).time == Some(b),
    decreases n,
{
    if n > 0 {
        law_range_ends_at_entries(es, n - 1);
        assert(es[n - 1] == es[n - 1]);
        let (a, b) = time_range(es, n - 1);
        let (c, d) = time_range(es, n);
        if c is Some && c != es[n - 1].time {
            let k = choose|k: int| 0 <= k < n - 1 && (#[trigger] es[k]).time == a;
            assert(es[k].time == c);
        }
        if d is Some && d != es[n - 1].time {
            let k = choose|k: int| 0 <= k < n - 1 && (#[trigger] es[k]).time == b;
            assert(es[k].time == d);
        }
    }
}

// ── The workload ────────────────────────────────────────────────────

/// The workload of a log has the sessions of the log with their transactions, by
/// number where that is asked; it counts its queries and sessions, spans the
/// time from the first entry to the last, and carries what was given.
pub proof fn law_log_becomes_a_workload(
    es: Seq<EntryView>,
    by_id: bool,
    host: Seq<char>,
    version: Seq<char>,
    method: Seq<char>,
    dialect: SourceDialect,
    at: Timestamp,
)
    requires
        es.len() < u64::MAX,
    ensures
        log_workload(es, by_id, host, version, method, dialect, at) is Ok,
        ({
            let p = log_workload(es, by_id, host, version, method, dialect, at)->Ok_0;
            let (first, last) = time_range(es, es.len() as int);
            &&& p.version == 2
            &&& p.captured_at == at
            &&& p.source_host == host
            &&& p.pg_version == version
            &&& p.capture_method == method
            &&& p.source_dialect == dialect
            &&& p.metadata.total_queries == query_count(p.sessions) as u64
            &&& p.metadata.total_sessions == p.sessions.len() as u64
            &&& p.metadata.capture_duration_us == offset_in(first, last)
            &&& p.metadata.sequence_snapshot is None
            &&& p.metadata.pk_map is None
            &&& !by_id ==> p.sessions == with_all_txns(log_sessions(es))
            &&& by_id ==> p.sessions.to_multiset() == with_all_txns(log_sessions(es)).to_multiset()
            &&& by_id ==> forall|i: int, j: int| 0 <= i < j < p.sessions.len() ==> p.sessions[i].id <= p.sessions[j].id
        }),
{
    law_sorted_by_id(with_all_txns(log_sessions(es)));
}

/// Transactions are numbered from one on, session by session, and sessions keep
/// everything else.
pub proof fn law_transactions_of_sessions(s: Seq<SessionView>, i: int)
    requires
        0 <= i < s.len(),
    ensures
        with_all_txns(s).len() == s.len(),
        with_all_txns(s)[i].id == s[i].id,
        with_all_txns(s)[i].user == s[i].user,
        with_all_txns(s)[i].database == s[i].database,
        with_all_txns(s)[i].queries == with_txns(s[i].queries, first_txn(s, i)),
        first_txn(s, 0) == 1,
        first_txn(s, i + 1) == first_txn(s, i) + txn_count(s[i].queries),
{
}

/// The end of a workload is the latest end of a session's last query.
pub proof fn law_workload_ends_with_its_last_query(s: Seq<SessionView>, i: int)
    requires
        0 <= i < s.len(),
    ensures
        s[i].queries.len() > 0 ==> s[i].queries.last().start_offset_us + s[i].queries.last().duration_us
            <= workload_end(s),
        workload_end(s) > 0 ==> exists|k: int|
            0 <= k < s.len() && (#[trigger] s[k]).queries.len() > 0 && s[k].queries.last().start_offset_us
                + s[k].queries.last().duration_us == workload_end(s),
    decreases s.len(),
{
    let p = s.drop_last();
    let last = s.len() - 1;
    assert(s[last] == s.last());
    if p.len() > 0 {
        law_workload_ends_with_its_last_query(p, if i < last { i } else { 0 });
        if workload_end(s) > 0 && workload_end(s) == workload_end(p) {
            let k = choose|k: int|
                0 <= k < p.len() && (#[trigger] p[k]).queries.len() > 0 && p[k].queries.last().start_offset_us
                    + p[k].queries.last().duration_us == workload_end(p);
            assert(s[k] == p[k]);
        }
    } else {
        assert(workload_end(p) == 0);
    }
}

} // verus!
