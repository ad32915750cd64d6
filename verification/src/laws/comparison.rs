//! Laws of comparing a workload with its replay.

use crate::compare::{
    average, compared_durations, error_total, insert_worst_first, law_regressions_worst_first, percentile_of,
    regressions_of, replay_durations, source_durations, sum, verdict_of, worse, Percent, RegressionView,
    Verdict,
};
use crate::profile::{query_count, QueryKind, QueryView, SessionView};
use crate::replay::{ReplayMode, ResultView};
use vstd::prelude::*;

verus! {

// ── Percentiles and averages ────────────────────────────────────────

/// A percentile is the number whose place is nearest to the given percentage of
/// the way from the first number to the last, of two that are as near the later.
pub proof fn law_percentile_place(sorted: Seq<u64>, pct: nat) -> (k: int)
    requires
        sorted.len() > 0,
        pct <= 100,
    ensures
        0 <= k < sorted.len(),
        percentile_of(sorted, pct) == sorted[k],
        -50 < 100 * k - pct * (sorted.len() - 1) <= 50,
{
    let n = (sorted.len() - 1) as int;
    let p = pct as int;
    let k = (p * n + 50) / 100;
    assert(0 <= p * n <= 100 * n) by (nonlinear_arith)
        requires
            0 <= p <= 100,
            0 <= n,
    ;
    k
}

/// With more than a hundred numbers that all differ, the percentiles below the
/// hundredth are smaller than the greatest number.
pub proof fn law_percentile_below_maximum(sorted: Seq<u64>, pct: nat)
    requires
        sorted.len() > 100,
        pct < 100,
        forall|i: int, j: int| 0 <= i < j < sorted.len() ==> sorted[i] < sorted[j],
    ensures
        percentile_of(sorted, pct) < sorted.last(),
{
    let k = law_percentile_place(sorted, pct);
    let n = (sorted.len() - 1) as int;
    assert(pct * n <= 99 * n) by (nonlinear_arith)
        requires
            pct <= 99,
            0 <= n,
    ;
    assert(k < n);
}

/// The hundredth percentile is the last number and the zeroth the first; of no
/// numbers every percentile is zero.
pub proof fn law_percentile_ends(sorted: Seq<u64>, pct: nat)
    ensures
        sorted.len() > 0 ==> percentile_of(sorted, 100) == sorted.last(),
        sorted.len() > 0 ==> percentile_of(sorted, 0) == sorted[0],
        sorted.len() == 0 ==> percentile_of(sorted, pct) == 0,
{
    if sorted.len() > 0 {
        let a = law_percentile_place(sorted, 100);
        let b = law_percentile_place(sorted, 0);
    }
}

/// The average times the number of values is the sum, but for half of that
/// number at most.
pub proof fn law_average_is_nearest(s: Seq<u64>)
    ensures
        s.len() > 0 ==> 2 * sum(s) - s.len() < 2 * (average(s) * s.len()) <= 2 * sum(s) + s.len(),
        s.len() == 0 ==> average(s) == 0,
{
    if s.len() > 0 {
        let n = s.len() as int;
        let t = sum(s) as int;
        let a = average(s) as int;
        assert(2 * t - n < 2 * (a * n) <= 2 * t + n) by (nonlinear_arith)
            requires
                n > 0,
                a == (2 * t + n) / (2 * n),
        ;
    }
}

/// The sum of numbers behind others is both sums together.
pub proof fn law_sum_adds_up(a: Seq<u64>, b: Seq<u64>, x: u64)
    ensures
        sum(a + b) == sum(a) + sum(b),
        sum(seq![x]) == x,
        sum(Seq::<u64>::empty()) == 0,
    decreases b.len(),
{
    assert(seq![x].drop_last() =~= Seq::<u64>::empty());
    assert(sum(Seq::<u64>::empty()) == 0);
    if b.len() == 0 {
        assert(a + b =~= a);
    } else {
        assert((a + b).drop_last() =~= a + b.drop_last());
        law_sum_adds_up(a, b.drop_last(), x);
    }
}

// ── What is counted ─────────────────────────────────────────────────

/// The queries with an error.
pub open spec fn failures() -> spec_fn(ResultView) -> bool {
    |q: ResultView| !q.success
}

/// The errors are the results without success.
pub proof fn law_errors_are_failures(r: Seq<ResultView>)
    ensures
        error_total(r) == r.filter(failures()).len(),
    decreases r.len(),
{
    reveal(Seq::filter);
    if r.len() > 0 {
        law_errors_are_failures(r.drop_last());
    }
}

/// Every replayed query counts with its replay time, in order.
pub proof fn law_every_result_counts(r: Seq<ResultView>, i: int)
    ensures
        replay_durations(r).len() == r.len(),
        0 <= i < r.len() ==> replay_durations(r)[i] == r[i].replay_duration_us,
{
}

/// The duration of a query.
pub open spec fn duration() -> spec_fn(QueryView) -> u64 {
    |q: QueryView| q.duration_us
}

/// The queries that read.
pub open spec fn reads() -> spec_fn(QueryView) -> bool {
    |q: QueryView| q.kind == QueryKind::Select
}

proof fn lemma_compared(qs: Seq<QueryView>)
    ensures
        compared_durations(qs, None) == qs.map_values(duration()),
        compared_durations(qs, Some(ReplayMode::ReadWrite)) == qs.map_values(duration()),
        compared_durations(qs, Some(ReplayMode::ReadOnly)) == qs.filter(reads()).map_values(duration()),
    decreases qs.len(),
{
    reveal(Seq::filter);
    if qs.len() > 0 {
        let p = qs.drop_last();
        lemma_compared(p);
        assert(qs.map_values(duration()) =~= p.map_values(duration()).push(qs.last().duration_us));
        if qs.last().kind == QueryKind::Select {
            assert(qs.filter(reads()) == p.filter(reads()).push(qs.last()));
            assert(qs.filter(reads()).map_values(duration()) =~= p.filter(reads()).map_values(duration()).push(
                qs.last().duration_us,
            ));
        }
    } else {
        assert(qs.map_values(duration()) =~= Seq::<u64>::empty());
        assert(qs.filter(reads()).map_values(duration()) =~= Seq::<u64>::empty());
    }
}

/// Of a session every query is compared without a mode and in read-write mode,
/// and the SELECTs in read-only mode, each with its duration and in order.
pub proof fn law_compared_queries(qs: Seq<QueryView>)
    ensures
        compared_durations(qs, None) == qs.map_values(duration()),
        compared_durations(qs, Some(ReplayMode::ReadWrite)) == qs.map_values(duration()),
        compared_durations(qs, Some(ReplayMode::ReadOnly)) == qs.filter(reads()).map_values(duration()),
{
    lemma_compared(qs);
}

/// Sessions are compared one behind the other; without a mode and in read-write
/// mode no query is left out.
pub proof fn law_compared_sessions(s: Seq<SessionView>, x: SessionView, mode: Option<ReplayMode>)
    ensures
        source_durations(Seq::<SessionView>::empty(), mode) == Seq::<u64>::empty(),
        source_durations(s.push(x), mode) == source_durations(s, mode) + compared_durations(x.queries, mode),
        source_durations(s, None).len() == query_count(s),
        source_durations(s, Some(ReplayMode::ReadWrite)) == source_durations(s, None),
    decreases s.len(),
{
    assert(s.push(x).drop_last() =~= s);
    if s.len() > 0 {
        law_compared_sessions(s.drop_last(), s.last(), mode);
        lemma_compared(s.last().queries);
    }
}

// ── Regressions ─────────────────────────────────────────────────────

/// A change is a regression just where the later duration is more than the
/// earlier one with the threshold added, and an improvement just where it is
/// less than the earlier one with the threshold taken off and no regression.
pub proof fn law_verdict_by_threshold(before: u64, after: u64, threshold: Percent)
    ensures
        verdict_of(before, after, threshold) == Verdict::Regression <==> after * 100_000_000 > before * (100_000_000
            + threshold.millionths),
        verdict_of(before, after, threshold) == Verdict::Improvement <==> after * 100_000_000 < before * (100_000_000
            - threshold.millionths) && !(after * 100_000_000 > before * (100_000_000 + threshold.millionths)),
{
    let t = threshold.millionths as int;
    let b = before as int;
    assert(b * (100_000_000 + t) == b * 100_000_000 + t * b) by (nonlinear_arith);
    assert(b * (100_000_000 - t) == b * 100_000_000 - t * b) by (nonlinear_arith);
}

/// The results that took time at first and then more than the threshold allows.
pub open spec fn slower(t: Percent) -> spec_fn(ResultView) -> bool {
    |q: ResultView|
        q.original_duration_us > 0 && q.replay_duration_us * 100_000_000 > q.original_duration_us * (100_000_000
            + t.millionths)
}

/// A result as a regression.
pub open spec fn as_regression() -> spec_fn(ResultView) -> RegressionView {
    |q: ResultView|
        RegressionView { sql: q.sql, original_us: q.original_duration_us, replay_us: q.replay_duration_us }
}

proof fn lemma_insert_multiset(s: Seq<RegressionView>, x: RegressionView)
    ensures
        insert_worst_first(s, x).to_multiset() == s.to_multiset().insert(x),
    decreases s.len(),
{
    broadcast use vstd::seq_lib::group_to_multiset_ensures;

    let t = insert_worst_first(s, x);
    if t != s.push(x) {
        let p = s.drop_last();
        lemma_insert_multiset(p, x);
        assert(p.push(s.last()) =~= s);
        assert(t == insert_worst_first(p, x).push(s.last()));
        assert(t.to_multiset() =~= p.to_multiset().insert(x).insert(s.last()));
        assert(s.to_multiset() =~= p.to_multiset().insert(s.last()));
        assert(t.to_multiset() =~= s.to_multiset().insert(x));
    }
}

/// Every result that is slower by more than the threshold is reported once, with
/// its text and both durations, and no other is.
pub proof fn law_regressions_are_the_slower_results(r: Seq<ResultView>, threshold: Percent, n: int)
    requires
        0 <= n <= r.len(),
    ensures
        regressions_of(r, threshold, n).to_multiset() == r.take(n).filter(slower(threshold)).map_values(
            as_regression(),
        ).to_multiset(),
    decreases n,
{
    broadcast use vstd::seq_lib::group_to_multiset_ensures;

    reveal(Seq::filter);
    let kept = r.take(n).filter(slower(threshold));
    if n > 0 {
        law_regressions_are_the_slower_results(r, threshold, n - 1);
        let q = r[n - 1];
        assert(r.take(n).drop_last() =~= r.take(n - 1));
        assert(r.take(n).last() == q);
        law_verdict_by_threshold(q.original_duration_us, q.replay_duration_us, threshold);
        let before = r.take(n - 1).filter(slower(threshold));
        if slower(threshold)(q) {
            lemma_insert_multiset(regressions_of(r, threshold, n - 1), as_regression()(q));
            assert(kept == before.push(q));
            assert(kept.map_values(as_regression()) =~= before.map_values(as_regression()).push(as_regression()(q)));
        }
    } else {
        assert(kept.map_values(as_regression()) =~= Seq::<RegressionView>::empty());
    }
}

/// No regression that is reported later grew by more, in proportion.
pub proof fn law_regressions_descend(r: Seq<ResultView>, threshold: Percent, n: int, i: int, j: int)
    requires
        0 <= i < j < regressions_of(r, threshold, n).len(),
    ensures
        ({
            let s = regressions_of(r, threshold, n);
            s[j].replay_us * s[i].original_us <= s[i].replay_us * s[j].original_us
        }),
{
    law_regressions_worst_first(r, threshold, n);
    let s = regressions_of(r, threshold, n);
    assert(!worse(s[j], s[i]));
}

} // verus!
