//! Laws of hidden rows, of events on their way into the staging database, and of
//! the numbers and names that stand there.

use crate::number::{all_digits, decimal, digits_value, law_decimal_value, parse_unsigned};
use crate::profile::{kind_name, with_all_txns, QueryKind, SourceDialect, Timestamp};
use crate::proxy::capture::{response_rows, EventView};
use crate::proxy::connection::{server_step, CorrelateView};
use crate::proxy::protocol::MessageView;
use crate::proxy::staging::{
    as_signed, handed_out, staged_parts, staged_profile, MetaView, PendingView, StagingState, StagingView,
};
use crate::text::is_digit;
use vstd::prelude::*;

verus! {

// ── Hidden rows ─────────────────────────────────────────────────────

/// Rows of a clause that was added in secret are held back from the client until
/// the command is complete, which is passed on; what follows is not held back.
pub proof fn law_secret_rows_are_hidden(s: CorrelateView, m: MessageView, id: u64, now: u64)
    ensures
        s.suppress && (m.msg_type == 0x54 || m.msg_type == 0x44) ==> !server_step(
            m,
            Some(s),
            false,
            id,
            now,
        ).action.forward,
        s.suppress && (m.msg_type == 0x54 || m.msg_type == 0x44) ==> (server_step(
            m,
            Some(s),
            false,
            id,
            now,
        ).correlate->0).suppress,
        m.msg_type == 0x43 ==> server_step(m, Some(s), false, id, now).action.forward && !(server_step(
            m,
            Some(s),
            false,
            id,
            now,
        ).correlate->0).suppress,
        m.msg_type == 0x45 ==> !(server_step(m, Some(s), false, id, now).correlate->0).suppress,
        !s.suppress ==> server_step(m, Some(s), false, id, now).action.forward,
        server_step(m, None, false, id, now).action.forward,
{
}

// ── Staging ─────────────────────────────────────────────────────────

/// A session that starts is remembered, and a query that starts waits for its
/// end; neither is a row yet.
pub proof fn law_starts_are_remembered(
    s: StagingState,
    id: u64,
    user: Seq<char>,
    database: Seq<char>,
    sql: Seq<char>,
    now: u64,
    other: u64,
)
    ensures
        ({
            let a = s.after(EventView::SessionStart { session_id: id, user, database, timestamp: now });
            let b = s.after(EventView::QueryStart { session_id: id, sql, timestamp: now });
            &&& a.meta.dom().contains(id) && a.meta[id] == (MetaView { user, database, start: now })
            &&& a.batch == s.batch && a.pending == s.pending && a.capture_id == s.capture_id
            &&& b.pending.dom().contains(id) && b.pending[id] == (PendingView { sql, start: now })
            &&& b.batch == s.batch && b.meta == s.meta && b.capture_id == s.capture_id
            &&& other != id && s.pending.dom().contains(other) ==> b.pending.dom().contains(other)
                && b.pending[other] == s.pending[other]
            &&& other != id && s.meta.dom().contains(other) ==> a.meta.dom().contains(other) && a.meta[other]
                == s.meta[other]
        }),
{
}

/// A query that fails becomes one row behind the others, with its error; it no
/// longer waits. The end of a query that never started becomes no row.
pub proof fn law_ends_become_rows(s: StagingState, id: u64, error: Seq<char>, now: u64)
    ensures
        ({
            let a = s.after(EventView::QueryError { session_id: id, message: error, timestamp: now });
            let b = s.after(EventView::QueryComplete { session_id: id, timestamp: now });
            let known = s.pending.dom().contains(id) && s.meta.dom().contains(id);
            &&& known ==> a.batch.len() == s.batch.len() + 1 && a.batch.drop_last() == s.batch
            &&& known ==> a.batch.last().is_error && a.batch.last().error_message == Some(error)
            &&& known ==> a.batch.last().sql == s.pending[id].sql && a.batch.last().session_id == as_signed(id)
            &&& known ==> b.batch.len() == s.batch.len() + 1 && !b.batch.last().is_error && b.batch.last().sql
                == s.pending[id].sql
            &&& known ==> a.batch.last().user_name == Some(s.meta[id].user) && a.batch.last().database_name == Some(
                s.meta[id].database,
            )
            &&& !known ==> a.batch == s.batch && b.batch == s.batch
            &&& !a.pending.dom().contains(id) && !b.pending.dom().contains(id)
            &&& a.meta == s.meta && b.meta == s.meta
        }),
{
    let a = s.after(EventView::QueryError { session_id: id, message: error, timestamp: now });
    if s.pending.dom().contains(id) && s.meta.dom().contains(id) {
        assert(a.batch.drop_last() =~= s.batch);
    }
}

/// Returned rows belong to the last row of the same session, and to none where
/// the last row is of another; the end of a session changes nothing.
pub proof fn law_rows_join_their_query(
    s: StagingState,
    id: u64,
    columns: Seq<Seq<char>>,
    rows: Seq<Seq<Option<Seq<char>>>>,
    now: u64,
)
    ensures
        ({
            let a = s.after(EventView::QueryReturning { session_id: id, columns, rows, timestamp: now });
            let own = s.batch.len() > 0 && s.batch.last().session_id == as_signed(id);
            &&& own ==> a.batch.len() == s.batch.len() && a.batch.drop_last() == s.batch.drop_last()
                && a.batch.last().response_values == Some(response_rows(columns, rows)) && a.batch.last().sql
                == s.batch.last().sql
            &&& !own ==> a == s
            &&& s.after(EventView::SessionEnd { session_id: id }) == s
        }),
{
    let a = s.after(EventView::QueryReturning { session_id: id, columns, rows, timestamp: now });
    if s.batch.len() > 0 && s.batch.last().session_id == as_signed(id) {
        assert(a.batch.drop_last() =~= s.batch.drop_last());
    }
}

/// Rows are handed out by the hundred, all of them at once, and kept until then.
pub proof fn law_rows_are_handed_out_by_the_hundred(s: StagingState)
    ensures
        ({
            let (out, kept) = handed_out(s);
            &&& s.batch.len() >= 100 ==> out == s.batch && kept.batch.len() == 0
            &&& s.batch.len() < 100 ==> out.len() == 0 && kept == s
            &&& kept.meta == s.meta && kept.pending == s.pending && kept.capture_id == s.capture_id
        }),
{
}

/// The workload of staged rows has the sessions that they make up, with their
/// transactions, in the form of every captured workload.
pub proof fn law_staged_rows_become_a_workload(rows: Seq<StagingView>, host: Seq<char>, mask: bool, at: Timestamp)
    ensures
        staged_profile(rows, host, mask, at).sessions == with_all_txns(staged_parts(rows, mask)),
        staged_profile(rows, host, mask, at).source_host == host,
        staged_profile(rows, host, mask, at).captured_at == at,
        staged_profile(rows, host, mask, at).version == 2,
        staged_profile(rows, host, mask, at).capture_method == "proxy"@,
        staged_profile(rows, host, mask, at).source_dialect == SourceDialect::Postgres,
        staged_profile(rows, host, mask, at).metadata.total_sessions == staged_parts(rows, mask).len() as u64,
{
}

// ── Names and numbers ───────────────────────────────────────────────

/// The kinds of queries have the names by which they are stored.
pub proof fn law_kinds_have_names()
    ensures
        kind_name(QueryKind::Select) == "Select"@,
        kind_name(QueryKind::Insert) == "Insert"@,
        kind_name(QueryKind::Update) == "Update"@,
        kind_name(QueryKind::Delete) == "Delete"@,
        kind_name(QueryKind::Ddl) == "Ddl"@,
        kind_name(QueryKind::Begin) == "Begin"@,
        kind_name(QueryKind::Commit) == "Commit"@,
        kind_name(QueryKind::Rollback) == "Rollback"@,
        kind_name(QueryKind::Other) == "Other"@,
{
}

/// A number is read as its digits are worth, with or without a plus sign, if it
/// is not too great; a text without digits, or with anything else, is none.
pub proof fn law_number_is_read(s: Seq<char>, n: nat, max: nat, i: int)
    ensures
        n <= max ==> parse_unsigned(decimal(n), max) == Some(n) && parse_unsigned(seq!['+'] + decimal(n), max) == Some(
            n,
        ),
        n > max ==> parse_unsigned(decimal(n), max) is None,
        s.len() > 0 && all_digits(s) && digits_value(s) <= max ==> parse_unsigned(s, max) == Some(digits_value(s)),
        parse_unsigned(Seq::empty(), max) is None,
        parse_unsigned(seq!['+'], max) is None,
        0 < i < s.len() && !is_digit(s[i]) ==> parse_unsigned(s, max) is None,
        s.len() > 0 && !is_digit(s[0]) && s[0] != '+' ==> parse_unsigned(s, max) is None,
{
    law_decimal_value(n);
    let d = decimal(n);
    assert(is_digit(d[0]));
    let p = seq!['+'] + d;
    assert(p.skip(1) =~= d);
    assert(seq!['+'].skip(1).len() == 0);
    if s.len() > 0 && all_digits(s) {
        assert(is_digit(s[0]));
    }
    if 0 < i < s.len() && !is_digit(s[i]) {
        if s[0] == '+' {
            assert(s.skip(1)[i - 1] == s[i]);
        }
    }
}

} // verus!
