//! Replay of one session: what is sent, what is skipped, and what is learned
//! from the rows that come back.

use crate::correlate::capture::{row_views, ResponseRow, RowView};
use crate::correlate::map::IdMap;
use crate::correlate::substitute::{substituted, substitution_count};
use crate::profile::{
    ends_or_begins, kind_of, law_write_under_with_is_no_select, write_at, Query, QueryKind, QueryView,
};
use crate::proxy::capture::value_rows;
use crate::proxy::protocol::{opt_view, opt_views};
use crate::replay::{replays, QueryResult, ReplayMode, ResultView};
use crate::text::{copy_string, starts_with, str_eq, trim_start, upper};
use std::borrow::Cow;
use vstd::prelude::*;

verus! {

// ── Failed transactions ─────────────────────────────────────────────

/// The state of a session's replay: the transaction that failed, if one did
/// and has not ended.
#[derive(Debug, Clone, Copy, PartialEq, Eq, Structural)]
pub struct ReplayState {
    pub failed_txn_id: Option<u64>,
}

/// What is done with a query.
#[derive(Debug)]
pub enum Plan {
    /// The mode does not replay it.
    Ignore,
    /// It is not sent; this is its result.
    Skip(QueryResult),
    /// It is sent.
    Run,
}

/// The model of a plan.
pub enum PlanView {
    Ignore,
    Skip(ResultView),
    Run,
}

impl View for Plan {
    type V = PlanView;

    open spec fn view(&self) -> PlanView {
        match self {
            Plan::Ignore => PlanView::Ignore,
            Plan::Skip(r) => PlanView::Skip(r@),
            Plan::Run => PlanView::Run,
        }
    }
}

/// The result of a query that was not sent.
pub open spec fn skipped(q: QueryView, reason: Seq<char>) -> ResultView {
    ResultView {
        sql: q.sql,
        original_duration_us: q.duration_us,
        replay_duration_us: 0,
        success: false,
        error: Some(reason),
        id_substitution_count: 0,
    }
}

/// What is done with a query, and the state behind it. The queries of a failed
/// transaction are skipped; its COMMIT or ROLLBACK is skipped too and ends it,
/// as does a query of another transaction.
pub open spec fn planned(s: ReplayState, mode: ReplayMode, q: QueryView) -> (PlanView, ReplayState) {
    let clear = ReplayState { failed_txn_id: None };
    if !replays(mode, q.kind) {
        (PlanView::Ignore, s)
    } else if s.failed_txn_id is Some && q.transaction_id == s.failed_txn_id {
        if q.kind == QueryKind::Commit || q.kind == QueryKind::Rollback {
            (PlanView::Skip(skipped(q, "skipped: transaction already rolled back"@)), clear)
        } else {
            (PlanView::Skip(skipped(q, "skipped: transaction failed"@)), s)
        }
    } else {
        (PlanView::Run, clear)
    }
}

/// The state behind a query that was sent: an error inside a transaction fails
/// the transaction, which is then rolled back, unless the query begins or ends
/// one.
pub open spec fn after_run(s: ReplayState, q: QueryView, ok: bool) -> (ReplayState, bool) {
    if !ok && q.transaction_id is Some && !ends_or_begins(q.kind) {
        (ReplayState { failed_txn_id: q.transaction_id }, true)
    } else {
        (s, false)
    }
}

fn skip_result(q: &Query, reason: &str) -> (r: QueryResult)
    ensures
        r@ == skipped(q@, reason@),
{
    QueryResult {
        sql: copy_string(q.sql.as_str()),
        original_duration_us: q.duration_us,
        replay_duration_us: 0,
        success: false,
        error: Some(copy_string(reason)),
        id_substitution_count: 0,
    }
}

fn same_txn(a: Option<u64>, b: u64) -> (r: bool)
    ensures
        r == (a == Some(b)),
{
    match a {
        Some(x) => x == b,
        None => false,
    }
}

impl ReplayState {
    /// No transaction has failed.
    pub fn new() -> (r: Self)
        ensures
            r.failed_txn_id is None,
    {
        ReplayState { failed_txn_id: None }
    }

    /// Decides on the next query of the session.
    pub fn plan(&mut self, mode: ReplayMode, query: &Query) -> (r: Plan)
        ensures
            (r@, *final(self)) == planned(*old(self), mode, query@),
    {
        if !mode.should_replay(query) {
            return Plan::Ignore;
        }
        if let Some(failed) = self.failed_txn_id {
            if same_txn(query.transaction_id, failed) {
                if query.kind == QueryKind::Commit || query.kind == QueryKind::Rollback {
                    self.failed_txn_id = None;
                    return Plan::Skip(skip_result(query, "skipped: transaction already rolled back"));
                }
                return Plan::Skip(skip_result(query, "skipped: transaction failed"));
            }
            self.failed_txn_id = None;
        }
        Plan::Run
    }

    /// Takes in the outcome of a query that was sent, and gives its result.
    /// The flag says whether the transaction is to be rolled back.
    pub fn finish(
        &mut self,
        query: &Query,
        sent_sql: String,
        substitutions: usize,
        elapsed_us: u64,
        error: Option<String>,
    ) -> (r: (QueryResult, bool))
        ensures
            r.0@ == (ResultView {
                sql: sent_sql@,
                original_duration_us: query.duration_us,
                replay_duration_us: elapsed_us,
                success: error is None,
                error: opt_view(error),
                id_substitution_count: substitutions,
            }),
            (*final(self), r.1) == after_run(*old(self), query@, error is None),
    {
        let success = error.is_none();
        let mut rollback = false;
        if !success {
            if let Some(t) = query.transaction_id {
                if !query.kind.is_transaction_control() {
                    self.failed_txn_id = Some(t);
                    rollback = true;
                }
            }
        }
        (
            QueryResult {
                sql: sent_sql,
                original_duration_us: query.duration_us,
                replay_duration_us: elapsed_us,
                success,
                error,
                id_substitution_count: substitutions,
            },
            rollback,
        )
    }
}

/// A failed transaction is never resumed: a query of it is skipped, and the
/// transaction stays failed until its COMMIT or ROLLBACK.
pub proof fn law_failed_transaction_is_skipped(s: ReplayState, mode: ReplayMode, q: QueryView)
    requires
        s.failed_txn_id is Some,
        q.transaction_id == s.failed_txn_id,
        replays(mode, q.kind),
    ensures
        planned(s, mode, q).0 is Skip,
        planned(s, mode, q).1.failed_txn_id is Some <==> q.kind != QueryKind::Commit && q.kind
            != QueryKind::Rollback,
{
}

/// An error inside a transaction makes its further queries skipped.
pub proof fn law_error_fails_transaction(s: ReplayState, mode: ReplayMode, q: QueryView, next: QueryView)
    requires
        q.transaction_id is Some,
        !ends_or_begins(q.kind),
        next.transaction_id == q.transaction_id,
        replays(mode, next.kind),
    ensures
        after_run(s, q, false).1,
        planned(after_run(s, q, false).0, mode, next).0 is Skip,
{
}

/// In read-only mode nothing but SELECT is sent.
pub proof fn law_read_only_sends_only_selects(s: ReplayState, q: QueryView)
    requires
        planned(s, ReplayMode::ReadOnly, q).0 is Run,
    ensures
        q.kind == QueryKind::Select,
{
}

/// In read-only mode a statement that begins with WITH and holds a write is not
/// sent.
pub proof fn law_read_only_strips_writes_under_with(s: ReplayState, q: QueryView, k: int)
    requires
        q.kind == kind_of(q.sql),
        starts_with(upper(trim_start(q.sql)), "WITH"@),
        0 <= k,
        write_at(upper(trim_start(q.sql)), k) is Some,
    ensures
        planned(s, ReplayMode::ReadOnly, q).0 is Ignore,
{
    law_write_under_with_is_no_select(upper(trim_start(q.sql)), k);
}

// ── ID correlation ──────────────────────────────────────────────────

/// The SQL to send for a query, with the count of replaced IDs.
pub fn effective_sql(query: &Query, id_map: Option<&IdMap>) -> (r: (String, usize))
    ensures
        id_map is None ==> r.0@ == query@.sql && r.1 == 0,
        id_map is Some ==> r.0@ == substituted(query@.sql, id_map->0@) && r.1 == substitution_count(
            query@.sql,
            id_map->0@,
        ),
{
    match id_map {
        None => (copy_string(query.sql.as_str()), 0),
        Some(map) => {
            let (sql, count) = map.substitute(query.sql.as_str());
            let text = match sql {
                Cow::Borrowed(s) => copy_string(s),
                Cow::Owned(s) => s,
            };
            (text, count)
        },
    }
}

/// What the first `n` columns of a captured row and the replayed row for it
/// teach: a captured value that came out otherwise maps to what came out.
pub open spec fn learned_row(
    m: Map<Seq<char>, Seq<char>>,
    captured: RowView,
    replayed: Seq<Option<Seq<char>>>,
    n: int,
) -> Map<Seq<char>, Seq<char>>
    decreases n,
{
    if n <= 0 {
        m
    } else {
        let before = learned_row(m, captured, replayed, n - 1);
        if n <= replayed.len() {
            match replayed[n - 1] {
                Some(v) => if v != captured[n - 1].1 {
                    before.insert(captured[n - 1].1, v)
                } else {
                    before
                },
                None => before,
            }
        } else {
            before
        }
    }
}

/// What the first `n` rows teach, captured and replayed rows matched by
/// position.
pub open spec fn learned(
    m: Map<Seq<char>, Seq<char>>,
    captured: Seq<RowView>,
    replayed: Seq<Seq<Option<Seq<char>>>>,
    n: int,
) -> Map<Seq<char>, Seq<char>>
    decreases n,
{
    if n <= 0 {
        m
    } else {
        learned_row(
            learned(m, captured, replayed, n - 1),
            captured[n - 1],
            replayed[n - 1],
            captured[n - 1].len() as int,
        )
    }
}

fn learn_row(map: &mut IdMap, captured: &ResponseRow, replayed: &Vec<Option<String>>)
    ensures
        final(map)@ == learned_row(old(map)@, captured@, opt_views(replayed@), captured@.len() as int),
{
    let ghost start = map@;
    let ghost rv = opt_views(replayed@);
    for i in 0..captured.columns.len()
        invariant
            start == old(map)@,
            rv == opt_views(replayed@),
            map@ == learned_row(start, captured@, rv, i as int),
    {
        proof {
            assert(captured@[i as int].1 == captured.columns@[i as int].1@);
        }
        if i < replayed.len() {
            proof {
                assert(rv[i as int] == opt_view(replayed@[i as int]));
            }
            if let Some(v) = &replayed[i] {
                if !str_eq(v.as_str(), captured.columns[i].1.as_str()) {
                    map.register(copy_string(captured.columns[i].1.as_str()), copy_string(v.as_str()));
                }
            }
        }
    }
}

/// Registers what the replayed rows of a query teach about captured IDs.
pub fn register_returned(map: &mut IdMap, captured: &Vec<ResponseRow>, replayed: &Vec<Vec<Option<String>>>)
    ensures
        final(map)@ == learned(
            old(map)@,
            row_views(captured@),
            value_rows(replayed@),
            if captured@.len() < replayed@.len() { captured@.len() as int } else { replayed@.len() as int },
        ),
{
    let n: usize = if captured.len() < replayed.len() { captured.len() } else { replayed.len() };
    let ghost start = map@;
    for i in 0..n
        invariant
            n <= captured@.len(),
            n <= replayed@.len(),
            start == old(map)@,
            map@ == learned(start, row_views(captured@), value_rows(replayed@), i as int),
    {
        learn_row(map, &captured[i], &replayed[i]);
    }
}

proof fn lemma_equal_row_teaches_nothing(
    m: Map<Seq<char>, Seq<char>>,
    captured: RowView,
    replayed: Seq<Option<Seq<char>>>,
    n: int,
)
    requires
        n <= captured.len(),
        forall|i: int|
            0 <= i < captured.len() && i < replayed.len() ==> #[trigger] replayed[i] == Some(captured[i].1),
    ensures
        learned_row(m, captured, replayed, n) == m,
    decreases n,
{
    if n > 0 {
        lemma_equal_row_teaches_nothing(m, captured, replayed, n - 1);
    }
}

/// Values that come out as they were captured teach nothing.
pub proof fn law_equal_row_teaches_nothing(
    m: Map<Seq<char>, Seq<char>>,
    captured: RowView,
    replayed: Seq<Option<Seq<char>>>,
)
    requires
        forall|i: int|
            0 <= i < captured.len() && i < replayed.len() ==> #[trigger] replayed[i] == Some(captured[i].1),
    ensures
        learned_row(m, captured, replayed, captured.len() as int) == m,
{
    lemma_equal_row_teaches_nothing(m, captured, replayed, captured.len() as int);
}

} // verus!
