//! Laws of replaying a session.

use crate::correlate::capture::RowView;
use crate::profile::{QueryKind, QueryView};
use crate::replay::session::{after_run, learned, learned_row, planned, PlanView, ReplayState};
use crate::replay::ReplayMode;
use vstd::prelude::*;

verus! {

/// Whether a query belongs to the transaction that failed.
pub open spec fn in_failed(s: ReplayState, q: QueryView) -> bool {
    s.failed_txn_id is Some && q.transaction_id is Some && q.transaction_id->0 == s.failed_txn_id->0
}

/// In read-write mode no query is ignored, whatever its kind, and every query
/// outside of a failed transaction is sent.
pub proof fn law_read_write_sends_everything(s: ReplayState, q: QueryView)
    ensures
        !(planned(s, ReplayMode::ReadWrite, q).0 is Ignore),
        !in_failed(s, q) ==> planned(s, ReplayMode::ReadWrite, q).0 is Run,
        s.failed_txn_id is None ==> planned(s, ReplayMode::ReadWrite, q).0 is Run,
{
}

/// In read-only mode a SELECT outside of a failed transaction is sent, and a
/// query of any other kind is ignored and changes nothing.
pub proof fn law_read_only_sends_every_select(s: ReplayState, q: QueryView)
    ensures
        q.kind == QueryKind::Select && !in_failed(s, q) ==> planned(s, ReplayMode::ReadOnly, q).0 is Run,
        q.kind != QueryKind::Select ==> planned(s, ReplayMode::ReadOnly, q).0 is Ignore && planned(
            s,
            ReplayMode::ReadOnly,
            q,
        ).1 == s,
{
}

/// A query of a failed transaction is not sent: its result has its text and its
/// duration, no replay time, no substitutions, and an error that tells why. The
/// COMMIT or ROLLBACK of the transaction ends it, any other query leaves it
/// failed.
pub proof fn law_failed_transaction_gives_errors(s: ReplayState, q: QueryView)
    requires
        in_failed(s, q),
    ensures
        ({
            let (plan, then) = planned(s, ReplayMode::ReadWrite, q);
            let ends = q.kind == QueryKind::Commit || q.kind == QueryKind::Rollback;
            &&& plan is Skip
            &&& plan->Skip_0.sql == q.sql
            &&& plan->Skip_0.original_duration_us == q.duration_us
            &&& plan->Skip_0.replay_duration_us == 0
            &&& plan->Skip_0.id_substitution_count == 0
            &&& !plan->Skip_0.success
            &&& plan->Skip_0.error == Some(
                if ends {
                    "skipped: transaction already rolled back"@
                } else {
                    "skipped: transaction failed"@
                },
            )
            &&& ends ==> then.failed_txn_id is None
            &&& !ends ==> then == s
        }),
{
}

/// A query that is sent leaves no failed transaction behind, unless it fails
/// itself: an error inside a transaction, not of its BEGIN, COMMIT or ROLLBACK,
/// fails that transaction and rolls it back; anything else changes nothing.
pub proof fn law_errors_fail_transactions(s: ReplayState, q: QueryView, mode: ReplayMode)
    ensures
        planned(s, mode, q).0 is Run ==> planned(s, mode, q).1.failed_txn_id is None,
        after_run(s, q, true) == (s, false),
        q.transaction_id is None ==> after_run(s, q, false) == (s, false),
        q.kind == QueryKind::Begin || q.kind == QueryKind::Commit || q.kind == QueryKind::Rollback ==> after_run(
            s,
            q,
            false,
        ) == (s, false),
        q.transaction_id is Some && q.kind != QueryKind::Begin && q.kind != QueryKind::Commit && q.kind
            != QueryKind::Rollback ==> after_run(s, q, false).1 && after_run(s, q, false).0.failed_txn_id
            == q.transaction_id,
{
}

/// What is done with the queries of a session in read-write mode, where `ok`
/// tells which of them succeed when they are sent.
pub open spec fn session_run(s: ReplayState, qs: Seq<QueryView>, ok: Seq<bool>, n: int) -> (Seq<PlanView>, ReplayState)
    decreases n,
{
    if n <= 0 {
        (Seq::empty(), s)
    } else {
        let (plans, before) = session_run(s, qs, ok, n - 1);
        let (plan, then) = planned(before, ReplayMode::ReadWrite, qs[n - 1]);
        (plans.push(plan), if plan is Run { after_run(then, qs[n - 1], ok[n - 1]).0 } else { then })
    }
}

/// Behind a query that fails inside a transaction no further query of that
/// transaction is sent, up to its end.
pub proof fn law_rest_of_failed_transaction_is_skipped(
    s: ReplayState,
    qs: Seq<QueryView>,
    ok: Seq<bool>,
    i: int,
    j: int,
)
    requires
        0 <= i < j < qs.len(),
        s.failed_txn_id is None,
        session_run(s, qs, ok, i).1.failed_txn_id is None,
        qs[i].transaction_id is Some,
        !ok[i],
        forall|k: int|
            i <= k < j ==> (#[trigger] qs[k]).transaction_id == qs[i].transaction_id && qs[k].kind != QueryKind::Begin
                && qs[k].kind != QueryKind::Commit && qs[k].kind != QueryKind::Rollback,
        qs[j].transaction_id == qs[i].transaction_id,
    ensures
        session_run(s, qs, ok, j).1.failed_txn_id == qs[i].transaction_id,
        session_run(s, qs, ok, j + 1).0[j] is Skip,
    decreases j - i,
{
    lemma_run_len(s, qs, ok, j);
    assert(qs[i].kind != QueryKind::Begin);
    if i + 1 < j {
        law_rest_of_failed_transaction_is_skipped(s, qs, ok, i, j - 1);
        assert(qs[j - 1].transaction_id == qs[i].transaction_id);
    }
}

proof fn lemma_run_len(s: ReplayState, qs: Seq<QueryView>, ok: Seq<bool>, n: int)
    requires
        0 <= n,
    ensures
        session_run(s, qs, ok, n).0.len() == n,
    decreases n,
{
    if n > 0 {
        lemma_run_len(s, qs, ok, n - 1);
    }
}

// ── What is learned ─────────────────────────────────────────────────

/// Whether column `i` of a captured row came out otherwise.
pub open spec fn came_out_otherwise(captured: RowView, replayed: Seq<Option<Seq<char>>>, i: int) -> bool {
    0 <= i < captured.len() && i < replayed.len() && replayed[i] is Some && replayed[i]->0 != captured[i].1
}

proof fn lemma_learned_row(
    m: Map<Seq<char>, Seq<char>>,
    captured: RowView,
    replayed: Seq<Option<Seq<char>>>,
    n: int,
    key: Seq<char>,
)
    requires
        0 <= n <= captured.len(),
    ensures
        (forall|i: int| 0 <= i < n && came_out_otherwise(captured, replayed, i) ==> (#[trigger] captured[i]).1 != key)
            ==> (learned_row(m, captured, replayed, n).contains_key(key) == m.contains_key(key) && learned_row(
            m,
            captured,
            replayed,
            n,
        )[key] == m[key]),
        forall|i: int|
            0 <= i < n && came_out_otherwise(captured, replayed, i) && (#[trigger] captured[i]).1 == key && (forall|
                k: int,
            |
                i < k < n && came_out_otherwise(captured, replayed, k) ==> (#[trigger] captured[k]).1 != key) ==> learned_row(
                m,
                captured,
                replayed,
                n,
            ).contains_key(key) && learned_row(m, captured, replayed, n)[key] == replayed[i]->0,
    decreases n,
{
    if n > 0 {
        lemma_learned_row(m, captured, replayed, n - 1, key);
        let before = learned_row(m, captured, replayed, n - 1);
        let after = learned_row(m, captured, replayed, n);
        assert(captured[n - 1] == captured[n - 1]);
        if !came_out_otherwise(captured, replayed, n - 1) {
            assert(after == before);
        } else {
            assert(after == before.insert(captured[n - 1].1, replayed[n - 1]->0));
        }
    }
}

/// A row teaches that each captured value which came out otherwise stands for
/// what came out, the last of several, and teaches nothing of other values.
pub proof fn law_row_teaches_its_values(
    m: Map<Seq<char>, Seq<char>>,
    captured: RowView,
    replayed: Seq<Option<Seq<char>>>,
    key: Seq<char>,
)
    ensures
        ({
            let after = learned_row(m, captured, replayed, captured.len() as int);
            &&& (forall|i: int|
                0 <= i < captured.len() && came_out_otherwise(captured, replayed, i) ==> (#[trigger] captured[i]).1
                    != key) ==> (after.contains_key(key) == m.contains_key(key) && after[key] == m[key])
            &&& forall|i: int|
                0 <= i < captured.len() && came_out_otherwise(captured, replayed, i) && (#[trigger] captured[i]).1
                    == key && (forall|k: int|
                    i < k < captured.len() && came_out_otherwise(captured, replayed, k) ==> (#[trigger] captured[k]).1
                        != key) ==> after.contains_key(key) && after[key] == replayed[i]->0
        }),
{
    lemma_learned_row(m, captured, replayed, captured.len() as int, key);
}

/// Rows teach one behind the other, each by its own place.
pub proof fn law_rows_teach_in_order(
    m: Map<Seq<char>, Seq<char>>,
    captured: Seq<RowView>,
    replayed: Seq<Seq<Option<Seq<char>>>>,
    n: int,
)
    requires
        0 <= n,
    ensures
        learned(m, captured, replayed, 0) == m,
        learned(m, captured, replayed, n + 1) == learned_row(
            learned(m, captured, replayed, n),
            captured[n],
            replayed[n],
            captured[n].len() as int,
        ),
{
}

} // verus!
