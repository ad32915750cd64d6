//! Laws of the capture proxy: what is relayed, and what is captured of it.

use crate::capture::masking::masked;
use crate::correlate::capture::{has_returning_word, injected, reads_sequence};
use crate::profile::{
    kind_of, law_sorted_by_id, query_count, with_all_txns, workload_end, QueryView, SourceDialect, Timestamp,
};
use crate::proxy::capture::{
    built_profile, collected, micros_between, named_values, profile_session, profile_sessions, response_rows,
    session_after, session_index, CapturedSession, EventView, SessionStateView,
};
use crate::proxy::connection::{
    auth_step, client_step, server_step, session_identity, startup_step, stmt_sql, AuthStep, CorrelateView,
    ImplicitView, StartupStep, StmtView,
};
use crate::proxy::protocol::{
    bind_message, bind_param_text, data_row, error_message, numbered, parse_message, query_message, query_sql,
    row_description, startup_message_params, startup_type, BindView, MessageView, StartupType,
};
use crate::proxy::staging::{
    as_signed, as_unsigned, law_staged_sessions_ascend, lemma_add_staged, lemma_staged_at, staged_at,
    staged_parts, staged_query, staged_row_query, staged_sessions, MetaView, PendingView, StagingView,
};
use crate::proxy::wire::{be_int, field};
use crate::sql::placeholder::filled;
use vstd::prelude::*;

verus! {

// ── Startup ─────────────────────────────────────────────────────────

/// A client that asks for TLS is told no, one that begins a session goes on, and
/// any other is turned away.
pub proof fn law_first_message(m: MessageView)
    ensures
        startup_type(m) == StartupType::SslRequest <==> startup_step(m) == StartupStep::RejectSsl,
        startup_type(m) == StartupType::StartupMessage <==> startup_step(m) == StartupStep::Proceed,
        startup_type(m) == StartupType::CancelRequest || startup_type(m) == StartupType::Unknown <==> startup_step(m)
            == StartupStep::Close,
{
}

/// A session has the user and the database that its first message names; the
/// user is unknown if it names none, and the database is the user's then.
pub proof fn law_session_has_a_user_and_a_database(m: MessageView)
    ensures
        ({
            let p = startup_message_params(m);
            let (user, database) = session_identity(m);
            &&& p.user is Some ==> user == p.user->0
            &&& p.user is None ==> user == "unknown"@
            &&& p.database is Some ==> database == p.database->0
            &&& p.database is None ==> database == user
        }),
{
}

/// During authentication the client is asked for an answer just by a request
/// that neither says that all is well nor only verifies the server, and the
/// server is ready when it says so.
pub proof fn law_authentication(m: MessageView)
    ensures
        m.msg_type == 0x5A <==> auth_step(m) == AuthStep::Ready,
        m.msg_type == 0x52 && m.body().len() >= 4 ==> (auth_step(m) == AuthStep::ReadClient <==> be_int(
            m.body().subrange(0, 4),
        ) != 0 && be_int(m.body().subrange(0, 4)) != 12),
        m.msg_type != 0x52 ==> auth_step(m) != AuthStep::ReadClient,
{
    assert(field(m.body(), 0, 4) =~= m.body().subrange(0, 4));
}

// ── From the client ─────────────────────────────────────────────────

/// With capture off nothing is reported, nothing is remembered, and the server
/// gets what the client sent.
pub proof fn law_nothing_is_captured_when_off(
    m: MessageView,
    stmts: StmtView,
    c: Option<CorrelateView>,
    implicit: Option<ImplicitView>,
    id: u64,
    now: u64,
)
    ensures
        ({
            let t = client_step(m, stmts, c, implicit, true, id, now);
            &&& t.action.event is None
            &&& t.action.send == m
            &&& t.stmts == stmts
            &&& t.correlate == c
            &&& t.action.close <==> m.msg_type == 0x58
        }),
{
}

/// A query is captured with its text and sent as it is, unless a clause is added
/// to it; rows are expected where it has a RETURNING clause.
pub proof fn law_query_is_relayed(
    m: MessageView,
    stmts: StmtView,
    c: CorrelateView,
    implicit: Option<ImplicitView>,
    id: u64,
    now: u64,
    sql: Seq<char>,
)
    requires
        m.msg_type == 0x51,
        query_sql(m) == Some(sql),
    ensures
        ({
            let t = client_step(m, stmts, Some(c), implicit, false, id, now);
            &&& t.action.event == Some(EventView::QueryStart { session_id: id, sql, timestamp: now })
            &&& !t.action.close
            &&& t.stmts == stmts
            &&& t.correlate is Some
            &&& t.correlate->0.queue.len() == c.queue.len() + 1
            &&& t.correlate->0.queue.drop_last() == c.queue
            &&& implicit is None ==> t.action.send == m && t.correlate->0.queue.last() == has_returning_word(sql)
                && t.correlate->0.suppress == c.suppress
            &&& implicit is Some && injected(sql, implicit->0.pk_map) is Some && !reads_sequence(sql)
                ==> t.action.send == query_message(injected(sql, implicit->0.pk_map)->0)
                && t.correlate->0.queue.last() && (implicit->0.stealth ==> t.correlate->0.suppress)
            &&& implicit is Some && injected(sql, implicit->0.pk_map) is None ==> t.action.send == m
                && t.correlate->0.queue.last() == (has_returning_word(sql) || reads_sequence(sql))
            &&& implicit is Some && reads_sequence(sql) ==> t.action.send == m && t.correlate->0.queue.last()
        }),
{
    let t = client_step(m, stmts, Some(c), implicit, false, id, now);
    assert(t.correlate->0.queue.drop_last() =~= c.queue);
}

/// A statement that was prepared is captured when it is bound, with the values in
/// its place, in whatever order other statements were prepared.
pub proof fn law_prepared_statement_is_captured(
    parse: MessageView,
    bind: MessageView,
    stmts: StmtView,
    c: Option<CorrelateView>,
    implicit: Option<ImplicitView>,
    id: u64,
    now: u64,
    later: u64,
    name: Seq<char>,
    sql: Seq<char>,
    b: BindView,
)
    requires
        parse.msg_type == 0x50,
        parse_message(parse) == Some((name, sql)),
        bind.msg_type == 0x42,
        bind_message(bind) == Some(b),
        b.statement_name == name,
    ensures
        ({
            let t = client_step(parse, stmts, c, implicit, false, id, now);
            let u = client_step(bind, t.stmts, t.correlate, implicit, false, id, later);
            let values = Seq::new(b.parameters.len(), |i: int| bind_param_text(b.parameters[i]));
            &&& t.action.send == parse
            &&& t.action.event is None
            &&& u.action.send == bind
            &&& u.action.event == Some(
                EventView::QueryStart { session_id: id, sql: filled(sql, numbered(values)), timestamp: later },
            )
            &&& u.stmts == t.stmts
        }),
{
    let values = Seq::new(b.parameters.len(), |i: int| bind_param_text(b.parameters[i]));
    assert(values =~= crate::proxy::connection::bind_texts(b.parameters));
}

/// Preparing one statement leaves the others as they were, and binding one that
/// is not known reports nothing.
pub proof fn law_other_statements_stay(
    m: MessageView,
    stmts: StmtView,
    c: Option<CorrelateView>,
    implicit: Option<ImplicitView>,
    id: u64,
    now: u64,
    name: Seq<char>,
    sql: Seq<char>,
    other: Seq<char>,
)
    ensures
        m.msg_type == 0x50 && parse_message(m) == Some((name, sql)) && other != name ==> stmt_sql(
            client_step(m, stmts, c, implicit, false, id, now).stmts,
            other,
        ) == stmt_sql(stmts, other),
        m.msg_type == 0x42 && bind_message(m) is Some && stmt_sql(stmts, bind_message(m)->0.statement_name) is None
            ==> client_step(m, stmts, c, implicit, false, id, now).action.event is None,
{
}

/// The message that ends a session is passed on, reported when it has been sent,
/// and closes the connection; no other message does.
pub proof fn law_session_ends(
    m: MessageView,
    stmts: StmtView,
    c: Option<CorrelateView>,
    implicit: Option<ImplicitView>,
    id: u64,
    now: u64,
)
    ensures
        ({
            let t = client_step(m, stmts, c, implicit, false, id, now);
            &&& t.action.close <==> m.msg_type == 0x58
            &&& m.msg_type == 0x58 ==> t.action.send == m && t.action.event == Some(
                EventView::SessionEnd { session_id: id },
            ) && t.action.event_after_send
        }),
{
}

// ── From the server ─────────────────────────────────────────────────

/// The rows of a statement with a RETURNING clause are captured with the names
/// of their columns when the statement is complete, and the completion itself is
/// reported first.
pub proof fn law_returned_rows_are_captured(
    s: CorrelateView,
    description: MessageView,
    row: MessageView,
    done: MessageView,
    names: Seq<Seq<char>>,
    values: Seq<Option<Seq<char>>>,
    id: u64,
    now: u64,
)
    requires
        s.queue.len() > 0,
        s.queue[0],
        description.msg_type == 0x54,
        row_description(description) == Some(names),
        0 < names.len() <= 20,
        row.msg_type == 0x44,
        data_row(row, names.len()) == Some(values),
        done.msg_type == 0x43,
    ensures
        ({
            let a = server_step(description, Some(s), false, id, now);
            let b = server_step(row, a.correlate, false, id, now);
            let d = server_step(done, b.correlate, false, id, now);
            &&& a.action.event is None && a.action.returning is None
            &&& b.action.event is None && b.action.returning is None
            &&& d.action.event == Some(EventView::QueryComplete { session_id: id, timestamp: now })
            &&& d.action.returning == Some(
                EventView::QueryReturning { session_id: id, columns: names, rows: seq![values], timestamp: now },
            )
            &&& d.correlate->0.queue == s.queue.skip(1)
            &&& d.correlate->0.rows.len() == 0
            &&& d.correlate->0.columns.len() == 0
        }),
{
    let a = server_step(description, Some(s), false, id, now);
    assert(a.correlate->0.columns == names);
    let b = server_step(row, a.correlate, false, id, now);
    assert(b.correlate->0.rows =~= seq![values]);
}

/// Of a statement without a RETURNING clause the completion is reported and no
/// rows; rows are kept up to a hundred, and columns up to twenty.
pub proof fn law_other_rows_are_not_captured(s: CorrelateView, m: MessageView, id: u64, now: u64)
    ensures
        m.msg_type == 0x43 && s.queue.len() > 0 && !s.queue[0] ==> {
            let t = server_step(m, Some(s), false, id, now);
            &&& t.action.event == Some(EventView::QueryComplete { session_id: id, timestamp: now })
            &&& t.action.returning is None
            &&& t.correlate->0.queue == s.queue.skip(1)
        },
        m.msg_type == 0x44 && s.columns.len() > 0 && data_row(m, s.columns.len()) is Some && s.rows.len() < 100 ==> (
        server_step(m, Some(s), false, id, now).correlate->0.rows == s.rows.push(data_row(m, s.columns.len())->0)),
        m.msg_type == 0x44 && s.rows.len() >= 100 ==> server_step(m, Some(s), false, id, now).correlate->0.rows
            == s.rows,
        m.msg_type == 0x54 && s.queue.len() > 0 && s.queue[0] && row_description(m) is Some && row_description(
            m,
        )->0.len() > 20 ==> server_step(m, Some(s), false, id, now).correlate->0.columns == row_description(
            m,
        )->0.take(20),
        m.msg_type == 0x54 && s.queue.len() > 0 && !s.queue[0] ==> server_step(
            m,
            Some(s),
            false,
            id,
            now,
        ).correlate->0.columns == s.columns,
{
}

/// An error is reported with its message, and only the state of the query that
/// failed is dropped.
pub proof fn law_error_is_reported(m: MessageView, s: CorrelateView, id: u64, now: u64)
    requires
        m.msg_type == 0x45,
    ensures
        ({
            let t = server_step(m, Some(s), false, id, now);
            &&& error_message(m) matches Some(text) ==> t.action.event == Some(
                EventView::QueryError { session_id: id, message: text, timestamp: now },
            )
            &&& error_message(m) is None ==> t.action.event is None
            &&& s.queue.len() > 0 ==> t.correlate->0.queue == s.queue.skip(1)
            &&& t.action.forward
        }),
{
}

/// With capture off the server's messages are passed on and nothing is reported;
/// the client's stream is flushed when the server is ready.
pub proof fn law_server_is_relayed(m: MessageView, c: Option<CorrelateView>, no_capture: bool, id: u64, now: u64)
    ensures
        server_step(m, c, true, id, now).action.event is None,
        server_step(m, c, true, id, now).action.returning is None,
        m.msg_type != 0x54 && m.msg_type != 0x44 ==> server_step(m, c, no_capture, id, now).action.forward,
        m.msg_type == 0x5A <==> server_step(m, c, no_capture, id, now).action.flush,
{
}

// ── Collecting ──────────────────────────────────────────────────────

/// Time is counted in whole microseconds of a thousand nanoseconds, and is zero
/// where the second point comes first.
pub proof fn law_elapsed_time(a: u64, b: u64)
    ensures
        b >= a ==> micros_between(a, b) * 1000 <= b - a < (micros_between(a, b) + 1) * 1000,
        b < a ==> micros_between(a, b) == 0,
{
}

/// A query that starts and fails becomes one captured query with its error.
pub proof fn law_failed_query_is_captured(s: SessionStateView, sql: Seq<char>, start: u64, end: u64, error: Seq<char>)
    ensures
        ({
            let t = session_after(s, EventView::QueryStart { session_id: s.id, sql, timestamp: start });
            let u = session_after(t, EventView::QueryError { session_id: s.id, message: error, timestamp: end });
            &&& u.queries.len() == s.queries.len() + 1
            &&& u.queries.drop_last() == s.queries
            &&& u.queries.last().sql == sql
            &&& u.queries.last().is_error
            &&& u.queries.last().error_message == Some(error)
            &&& u.queries.last().start_offset_us == micros_between(s.session_start, start)
            &&& u.queries.last().duration_us == micros_between(start, end)
            &&& u.queries.last().response_values is None
            &&& u.pending is None
            &&& u.id == s.id && u.user == s.user && u.database == s.database
        }),
{
    let t = session_after(s, EventView::QueryStart { session_id: s.id, sql, timestamp: start });
    let u = session_after(t, EventView::QueryError { session_id: s.id, message: error, timestamp: end });
    assert(u.queries.drop_last() =~= s.queries);
}

/// Rows that a query returned belong to the last captured query, and nothing
/// else is changed by them.
pub proof fn law_rows_belong_to_the_last_query(
    s: SessionStateView,
    columns: Seq<Seq<char>>,
    rows: Seq<Seq<Option<Seq<char>>>>,
    now: u64,
)
    requires
        s.queries.len() > 0,
    ensures
        ({
            let t = session_after(s, EventView::QueryReturning { session_id: s.id, columns, rows, timestamp: now });
            &&& t.queries.len() == s.queries.len()
            &&& t.queries.drop_last() == s.queries.drop_last()
            &&& t.queries.last().response_values == Some(response_rows(columns, rows))
            &&& t.queries.last().sql == s.queries.last().sql
            &&& t.queries.last().duration_us == s.queries.last().duration_us
            &&& t.queries.last().start_offset_us == s.queries.last().start_offset_us
            &&& t.pending == s.pending
        }),
{
    let t = session_after(s, EventView::QueryReturning { session_id: s.id, columns, rows, timestamp: now });
    assert(t.queries.drop_last() =~= s.queries.drop_last());
}

/// The names and values of a row, NULL left out, in order.
pub proof fn law_row_is_named(columns: Seq<Seq<char>>, values: Seq<Option<Seq<char>>>, n: int)
    requires
        0 < n <= columns.len(),
        n <= values.len(),
    ensures
        values[n - 1] matches Some(v) ==> named_values(columns, values, n) == named_values(columns, values, n - 1).push(
            (columns[n - 1], v),
        ),
        values[n - 1] is None ==> named_values(columns, values, n) == named_values(columns, values, n - 1),
        named_values(columns, values, 0).len() == 0,
{
}

/// A session that starts is new: it has the user, the database and the time of
/// its start, and no queries.
pub proof fn law_session_starts(s: Seq<SessionStateView>, id: u64, user: Seq<char>, database: Seq<char>, now: u64)
    requires
        forall|i: int| 0 <= i < s.len() ==> (#[trigger] s[i]).id != id,
    ensures
        ({
            let t = collected(s, EventView::SessionStart { session_id: id, user, database, timestamp: now });
            &&& t.len() == s.len() + 1
            &&& t.drop_last() == s
            &&& t.last().id == id
            &&& t.last().user == user
            &&& t.last().database == database
            &&& t.last().session_start == now
            &&& t.last().queries.len() == 0
            &&& t.last().pending is None
        }),
{
    lemma_unknown(s, id);
    let t = collected(s, EventView::SessionStart { session_id: id, user, database, timestamp: now });
    assert(t.drop_last() =~= s);
}

proof fn lemma_unknown(s: Seq<SessionStateView>, id: u64)
    requires
        forall|i: int| 0 <= i < s.len() ==> (#[trigger] s[i]).id != id,
    ensures
        session_index(s, id) is None,
    decreases s.len(),
{
    if s.len() > 0 {
        assert(s[s.len() - 1].id != id);
        assert forall|i: int| 0 <= i < s.drop_last().len() implies (#[trigger] s.drop_last()[i]).id != id by {
            assert(s.drop_last()[i] == s[i]);
        }
        lemma_unknown(s.drop_last(), id);
    }
}

// ── Profiles ────────────────────────────────────────────────────────

/// A captured session becomes a session of the workload with its number, user,
/// database and queries; of a query the text is kept, masked if asked, with its
/// times, the rows it returned, and the kind of the kept text.
pub proof fn law_captured_session_becomes_a_session(s: CapturedSession, mask: bool, i: int)
    requires
        0 <= i < s.queries.len(),
    ensures
        profile_session(s, mask).id == s.id,
        profile_session(s, mask).user == s.user,
        profile_session(s, mask).database == s.database,
        profile_session(s, mask).queries.len() == s.queries.len(),
        ({
            let q = profile_session(s, mask).queries[i];
            let c = s.queries[i];
            &&& mask ==> q.sql == masked(c.sql)
            &&& !mask ==> q.sql == c.sql
            &&& q.kind == kind_of(q.sql)
            &&& q.start_offset_us == c.start_offset_us
            &&& q.duration_us == c.duration_us
            &&& q.response_values == c.response_values
            &&& q.transaction_id is None
            &&& q.original_sql is None
        }),
{
}

/// The workload of a proxy holds every captured session once, by number, and
/// counts what it holds.
pub proof fn law_captured_sessions_become_a_workload(
    captured: Seq<CapturedSession>,
    host: Seq<char>,
    mask: bool,
    at: Timestamp,
)
    ensures
        ({
            let p = built_profile(captured, host, mask, at);
            let parts = profile_sessions(captured, mask);
            &&& p.version == 2
            &&& p.captured_at == at
            &&& p.source_host == host
            &&& p.capture_method == "proxy"@
            &&& p.source_dialect == SourceDialect::Postgres
            &&& p.sessions.to_multiset() == with_all_txns(parts).to_multiset()
            &&& forall|i: int, j: int| 0 <= i < j < p.sessions.len() ==> p.sessions[i].id <= p.sessions[j].id
            &&& p.metadata.total_sessions == captured.len() as u64
            &&& p.metadata.total_queries == query_count(parts) as u64
            &&& p.metadata.capture_duration_us == workload_end(parts) as u64
            &&& parts.len() == captured.len()
            &&& forall|i: int| 0 <= i < captured.len() ==> #[trigger] parts[i] == profile_session(captured[i], mask)
        }),
{
    law_sorted_by_id(with_all_txns(profile_sessions(captured, mask)));
}

// ── Staging ─────────────────────────────────────────────────────────

/// The row of a query holds the session, its user and database, the text and its
/// kind, the times and the error.
pub proof fn law_query_becomes_a_row(
    capture: Seq<char>,
    id: u64,
    meta: MetaView,
    q: PendingView,
    now: u64,
    error: Option<Seq<char>>,
)
    ensures
        ({
            let r = staged_query(capture, id, meta, q, now, error);
            &&& r.capture_id == capture
            &&& as_unsigned(r.session_id) == id
            &&& r.user_name == Some(meta.user)
            &&& r.database_name == Some(meta.database)
            &&& r.sql == q.sql
            &&& as_unsigned(r.start_offset_us) == micros_between(meta.start, q.start)
            &&& as_unsigned(r.duration_us) == micros_between(q.start, now)
            &&& r.is_error <==> error is Some
            &&& r.error_message == error
            &&& r.response_values is None
        }),
{
}

/// A row becomes a query with its text, masked if asked, and its times.
pub proof fn law_row_becomes_a_query(r: StagingView, mask: bool)
    ensures
        ({
            let q = staged_row_query(r, mask);
            &&& mask ==> q.sql == masked(r.sql)
            &&& !mask ==> q.sql == r.sql
            &&& q.kind == kind_of(q.sql)
            &&& q.start_offset_us == as_unsigned(r.start_offset_us)
            &&& q.duration_us == as_unsigned(r.duration_us)
            &&& q.response_values == r.response_values
            &&& q.transaction_id is None
        }),
{
}

/// The rows of a session.
pub open spec fn rows_of(id: i64) -> spec_fn(StagingView) -> bool {
    |r: StagingView| r.session_id == id
}

/// The query of a row.
pub open spec fn row_query(mask: bool) -> spec_fn(StagingView) -> QueryView {
    |r: StagingView| staged_row_query(r, mask)
}

proof fn lemma_staged_rows(rows: Seq<StagingView>, mask: bool, id: i64)
    ensures
        ({
            let mine = rows.filter(rows_of(id));
            let s = staged_at(staged_sessions(rows, mask), id);
            &&& s is Some <==> mine.len() > 0
            &&& s matches Some(x) ==> x.id == id && x.queries == mine.map_values(row_query(mask)) && x.user == (
            match mine[0].user_name {
                Some(u) => u,
                None => Seq::empty(),
            }) && x.database == (match mine[0].database_name {
                Some(d) => d,
                None => Seq::empty(),
            })
        }),
    decreases rows.len(),
{
    reveal(Seq::filter);
    if rows.len() > 0 {
        let p = rows.drop_last();
        let r = rows.last();
        lemma_staged_rows(p, mask, id);
        law_staged_sessions_ascend(p, mask);
        lemma_add_staged(staged_sessions(p, mask), r, mask, id);
        let before = p.filter(rows_of(id));
        let mine = rows.filter(rows_of(id));
        if r.session_id == id {
            assert(mine == before.push(r));
            assert(mine.map_values(row_query(mask)) =~= before.map_values(row_query(mask)).push(
                staged_row_query(r, mask),
            ));
            if before.len() == 0 {
                assert(mine.map_values(row_query(mask)) =~= seq![staged_row_query(r, mask)]);
            } else {
                assert(mine[0] == before[0]);
            }
        }
    }
}

/// The sessions that rows make up hold all the rows of each session, in order,
/// with the user and the database of its first row.
pub proof fn law_staged_sessions_hold_their_rows(rows: Seq<StagingView>, mask: bool, i: int, k: int)
    ensures
        0 <= i < staged_sessions(rows, mask).len() ==> {
            let s = staged_sessions(rows, mask)[i];
            let mine = rows.filter(rows_of(s.id));
            &&& mine.len() > 0
            &&& s.queries == mine.map_values(row_query(mask))
            &&& mine[0].user_name is Some ==> s.user == mine[0].user_name->0
            &&& mine[0].database_name is Some ==> s.database == mine[0].database_name->0
        },
        0 <= k < rows.len() ==> exists|j: int|
            0 <= j < staged_sessions(rows, mask).len() && (#[trigger] staged_sessions(rows, mask)[j]).id
                == rows[k].session_id,
{
    law_staged_sessions_ascend(rows, mask);
    if 0 <= i < staged_sessions(rows, mask).len() {
        lemma_staged_at(staged_sessions(rows, mask), i);
        lemma_staged_rows(rows, mask, staged_sessions(rows, mask)[i].id);
    }
    if 0 <= k < rows.len() {
        let id = rows[k].session_id;
        lemma_staged_rows(rows, mask, id);
        rows.lemma_filter_contains(rows_of(id), k);
        assert(rows.filter(rows_of(id)).contains(rows[k]));
        let j = crate::proxy::staging::lemma_staged_member(staged_sessions(rows, mask), id);
        assert(staged_sessions(rows, mask)[j].id == id);
    }
}

/// A staged session becomes a session of the workload under its own number.
pub proof fn law_staged_session_becomes_a_session(rows: Seq<StagingView>, mask: bool, i: int)
    requires
        0 <= i < staged_sessions(rows, mask).len(),
    ensures
        staged_parts(rows, mask).len() == staged_sessions(rows, mask).len(),
        staged_parts(rows, mask)[i].id == as_unsigned(staged_sessions(rows, mask)[i].id),
        staged_parts(rows, mask)[i].user == staged_sessions(rows, mask)[i].user,
        staged_parts(rows, mask)[i].database == staged_sessions(rows, mask)[i].database,
        staged_parts(rows, mask)[i].queries == staged_sessions(rows, mask)[i].queries,
{
}

/// Signed and unsigned numbers of 64 bits stand for each other: a number below
/// 2^63 for itself, others for themselves less 2^64.
pub proof fn law_signed_numbers(n: i64, m: u64)
    ensures
        n >= 0 ==> as_unsigned(n) == n,
        n < 0 ==> as_unsigned(n) == n + 0x1_0000_0000_0000_0000,
        m < 0x8000_0000_0000_0000 ==> as_signed(m) == m,
        as_signed(as_unsigned(n)) == n,
{
}

} // verus!
