//! Comparison of a workload with its replay.

pub mod ab;
pub mod capacity;
pub mod junit;
pub mod report;

use crate::profile::{query_count, QueryView, SessionView, WorkloadProfile};
use crate::replay::{all_results, replays, result_views, ReplayMode, ReplayResults, ResultView};
use crate::text::copy_string;
use vstd::prelude::*;
use vstd::relations::sorted_by;

verus! {

// ── Averages and percentiles ────────────────────────────────────────

/// The order of numbers.
pub open spec fn at_most() -> spec_fn(u64, u64) -> bool {
    |a: u64, b: u64| a <= b
}

/// The numbers in ascending order.
pub open spec fn ascending(s: Seq<u64>) -> Seq<u64> {
    s.sort_by(at_most())
}

/// `<[u64]>::sort`: the same numbers, in ascending order.
#[verifier::external_body]
fn sort_numbers(v: &mut Vec<u64>)
    ensures
        sorted_by(final(v)@, at_most()),
        final(v)@.to_multiset() == old(v)@.to_multiset(),
{
    v.sort();
}

/// Sorts numbers.
pub fn sort_ascending(v: &mut Vec<u64>)
    ensures
        final(v)@ == ascending(old(v)@),
{
    let ghost before = v@;
    sort_numbers(v);
    proof {
        before.lemma_sort_by_ensures(at_most());
        vstd::seq_lib::lemma_sorted_unique(v@, ascending(before), at_most());
    }
}

/// The sum of numbers.
pub open spec fn sum(s: Seq<u64>) -> nat
    decreases s.len(),
{
    if s.len() == 0 {
        0
    } else {
        sum(s.drop_last()) + s.last() as nat
    }
}

/// The average, rounded to the nearest number, halves upward; zero of no
/// numbers.
pub open spec fn average(s: Seq<u64>) -> nat {
    if s.len() == 0 {
        0
    } else {
        (2 * sum(s) + s.len()) / (2 * s.len())
    }
}

/// The number at the given percentage of the way through sorted numbers, the
/// place rounded to the nearest, halves upward; zero of no numbers.
pub open spec fn percentile_of(sorted: Seq<u64>, pct: nat) -> u64 {
    if sorted.len() == 0 {
        0
    } else {
        sorted[((pct * (sorted.len() - 1) + 50) / 100) as int]
    }
}

proof fn lemma_sum_take(s: Seq<u64>, n: int)
    requires
        0 <= n <= s.len(),
    ensures
        sum(s.take(n)) <= sum(s),
    decreases s.len() - n,
{
    if n == s.len() {
        assert(s.take(n) =~= s);
    } else {
        lemma_sum_take(s, n + 1);
        assert(s.take(n + 1).drop_last() =~= s.take(n));
    }
}

proof fn lemma_sum_concat(a: Seq<u64>, b: Seq<u64>)
    ensures
        sum(a + b) == sum(a) + sum(b),
    decreases b.len(),
{
    if b.len() == 0 {
        assert(a + b =~= a);
    } else {
        assert((a + b).drop_last() =~= a + b.drop_last());
        lemma_sum_concat(a, b.drop_last());
    }
}

/// The average does not depend on the order of the numbers.
pub proof fn law_average_ignores_order(s: Seq<u64>)
    ensures
        average(ascending(s)) == average(s),
{
    broadcast use vstd::seq_lib::group_to_multiset_ensures;

    s.lemma_sort_by_ensures(at_most());
    lemma_sum_multiset(ascending(s), s);
    assert(ascending(s).len() == ascending(s).to_multiset().len());
    assert(s.len() == s.to_multiset().len());
}

pub(crate) proof fn lemma_sum_multiset(a: Seq<u64>, b: Seq<u64>)
    requires
        a.to_multiset() == b.to_multiset(),
    ensures
        sum(a) == sum(b),
    decreases a.len(),
{
    broadcast use vstd::seq_lib::group_to_multiset_ensures;

    assert(a.len() == a.to_multiset().len());
    assert(b.len() == b.to_multiset().len());
    if a.len() > 0 {
        let x = a.last();
        assert(a.to_multiset().count(x) > 0) by {
            assert(a.contains(x)) by {
                assert(a[a.len() - 1] == x);
            }
        }
        assert(b.to_multiset().contains(x));
        assert(b.contains(x));
        let i = choose|i: int| 0 <= i < b.len() && b[i] == x;
        let left = b.take(i);
        let right = b.skip(i + 1);
        let c = left + right;
        assert(b =~= left + (seq![x] + right));
        lemma_sum_concat(left, seq![x] + right);
        lemma_sum_concat(seq![x], right);
        lemma_sum_concat(left, right);
        assert(sum(seq![x]) == x) by {
            assert(seq![x].drop_last() =~= Seq::<u64>::empty());
            assert(sum(Seq::<u64>::empty()) == 0);
        }
        assert(c =~= b.remove(i));
        assert(c.to_multiset() =~= b.to_multiset().remove(x));
        assert(a.drop_last() =~= a.remove(a.len() - 1));
        assert(a.drop_last().to_multiset() =~= a.to_multiset().remove(x));
        lemma_sum_multiset(a.drop_last(), c);
    }
}

/// The average of numbers.
pub fn avg(values: &[u64]) -> (r: u64)
    requires
        sum(values@) <= u64::MAX,
    ensures
        r == average(values@),
{
    let n: usize = values.len();
    if n == 0 {
        return 0;
    }
    let mut total: u64 = 0;
    for i in 0..n
        invariant
            n == values@.len(),
            sum(values@) <= u64::MAX,
            total == sum(values@.take(i as int)),
    {
        proof {
            assert(values@.take(i + 1).drop_last() =~= values@.take(i as int));
            lemma_sum_take(values@, i + 1);
        }
        total = total + values[i];
    }
    proof {
        assert(values@.take(n as int) =~= values@);
    }
    let doubled: u128 = 2 * (total as u128) + (n as u128);
    let r: u128 = doubled / (2 * (n as u128));
    proof {
        assert(r <= u64::MAX) by (nonlinear_arith)
            requires
                r as int == (doubled as int) / (2 * (n as int)),
                doubled == 2 * (total as int) + (n as int),
                total <= u64::MAX,
                n >= 1,
        ;
    }
    r as u64
}

/// The number at a percentage of sorted numbers.
pub fn percentile(sorted: &[u64], pct: u32) -> (r: u64)
    requires
        pct <= 100,
    ensures
        r == percentile_of(sorted@, pct as nat),
{
    let n: usize = sorted.len();
    if n == 0 {
        return 0;
    }
    proof {
        assert(0 <= pct * (n - 1) <= 100 * (n - 1)) by (nonlinear_arith)
            requires
                0 <= pct <= 100,
                n >= 1,
        ;
    }
    let place: u128 = ((pct as u128) * ((n - 1) as u128) + 50) / 100;
    proof {
        assert(place <= n - 1);
    }
    sorted[place as usize]
}

/// The average lies between the smallest and the greatest number.
pub proof fn law_average_within(s: Seq<u64>, low: u64, high: u64)
    requires
        s.len() > 0,
        forall|i: int| 0 <= i < s.len() ==> low <= #[trigger] s[i] <= high,
    ensures
        low <= average(s) <= high,
{
    lemma_sum_between(s, low, high);
    let n = s.len();
    let t = sum(s);
    assert(low <= (2 * t + n) / (2 * n) <= high) by (nonlinear_arith)
        requires
            n > 0,
            low * n <= t <= high * n,
    ;
}

proof fn lemma_sum_between(s: Seq<u64>, low: u64, high: u64)
    requires
        forall|i: int| 0 <= i < s.len() ==> low <= #[trigger] s[i] <= high,
    ensures
        low * s.len() <= sum(s) <= high * s.len(),
    decreases s.len(),
{
    if s.len() > 0 {
        let p = s.drop_last();
        assert forall|i: int| 0 <= i < p.len() implies low <= #[trigger] p[i] <= high by {
            assert(p[i] == s[i]);
        }
        lemma_sum_between(p, low, high);
        assert(low <= s[s.len() - 1] <= high);
        let n = s.len() as int;
        assert(low * n == low * (n - 1) + low) by (nonlinear_arith);
        assert(high * n == high * (n - 1) + high) by (nonlinear_arith);
    } else {
        assert(low * 0 == 0 && high * 0 == 0) by (nonlinear_arith);
    }
}

/// A percentile is one of the numbers, and a higher percentage gives no
/// smaller number.
pub proof fn law_percentiles_ordered(s: Seq<u64>, p: nat, q: nat)
    requires
        s.len() > 0,
        p <= q <= 100,
    ensures
        s.contains(percentile_of(ascending(s), p)),
        percentile_of(ascending(s), p) <= percentile_of(ascending(s), q),
{
    broadcast use vstd::seq_lib::group_to_multiset_ensures;

    s.lemma_sort_by_ensures(at_most());
    let t = ascending(s);
    assert(t.len() == t.to_multiset().len());
    assert(s.len() == s.to_multiset().len());
    let n = (t.len() - 1) as int;
    let i = (p * n + 50) / 100;
    let j = (q * n + 50) / 100;
    assert(0 <= i <= j <= n) by (nonlinear_arith)
        requires
            0 <= n,
            p <= q <= 100,
            i == (p * n + 50) / 100,
            j == (q * n + 50) / 100,
    ;
    assert(at_most()(t[i], t[j])) by {
        if i < j {
            assert(sorted_by(t, at_most()));
        }
    }
    assert(t.contains(t[i]));
    assert(t.to_multiset().contains(t[i]));
    assert(s.to_multiset().contains(t[i]));
}

// ── Durations ───────────────────────────────────────────────────────

/// Whether a query of the source is compared.
pub open spec fn compared(mode: Option<ReplayMode>, q: QueryView) -> bool {
    match mode {
        Some(m) => replays(m, q.kind),
        None => true,
    }
}

/// The durations of the queries that are compared.
pub open spec fn compared_durations(qs: Seq<QueryView>, mode: Option<ReplayMode>) -> Seq<u64>
    decreases qs.len(),
{
    if qs.len() == 0 {
        Seq::empty()
    } else {
        let rest = compared_durations(qs.drop_last(), mode);
        if compared(mode, qs.last()) {
            rest.push(qs.last().duration_us)
        } else {
            rest
        }
    }
}

/// The durations of the sessions' queries that are compared.
pub open spec fn source_durations(s: Seq<SessionView>, mode: Option<ReplayMode>) -> Seq<u64>
    decreases s.len(),
{
    if s.len() == 0 {
        Seq::empty()
    } else {
        source_durations(s.drop_last(), mode) + compared_durations(s.last().queries, mode)
    }
}

/// The durations of replayed queries.
pub open spec fn replay_durations(r: Seq<ResultView>) -> Seq<u64> {
    Seq::new(r.len(), |i: int| r[i].replay_duration_us)
}

/// The number of failed queries.
pub open spec fn error_total(r: Seq<ResultView>) -> nat
    decreases r.len(),
{
    if r.len() == 0 {
        0
    } else {
        error_total(r.drop_last()) + (if r.last().success { 0nat } else { 1nat })
    }
}

proof fn lemma_compared_len(qs: Seq<QueryView>, mode: Option<ReplayMode>)
    ensures
        compared_durations(qs, mode).len() <= qs.len(),
    decreases qs.len(),
{
    if qs.len() > 0 {
        lemma_compared_len(qs.drop_last(), mode);
    }
}

proof fn lemma_source_len(s: Seq<SessionView>, mode: Option<ReplayMode>)
    ensures
        source_durations(s, mode).len() <= query_count(s),
    decreases s.len(),
{
    if s.len() > 0 {
        lemma_source_len(s.drop_last(), mode);
        lemma_compared_len(s.last().queries, mode);
    }
}

fn collect_source(source: &WorkloadProfile, mode: Option<ReplayMode>) -> (r: Vec<u64>)
    ensures
        r@ == source_durations(source@.sessions, mode),
{
    let ghost s = source@.sessions;
    let mut out: Vec<u64> = Vec::new();
    for i in 0..source.sessions.len()
        invariant
            s == source@.sessions,
            out@ == source_durations(s.take(i as int), mode),
    {
        let ghost before = out@;
        let ghost qs = s[i as int].queries;
        proof {
            assert(source.sessions@[i as int]@ == s[i as int]);
            assert(s.take(i + 1).drop_last() =~= s.take(i as int));
            assert(s.take(i + 1).last() == s[i as int]);
            assert(before + compared_durations(qs.take(0), mode) =~= before);
        }
        let n = source.sessions[i].queries.len();
        for j in 0..n
            invariant
                i < source.sessions@.len(),
                n == qs.len(),
                qs == source.sessions@[i as int]@.queries,
                out@ == before + compared_durations(qs.take(j as int), mode),
        {
            let q = &source.sessions[i].queries[j];
            proof {
                assert(qs.take(j + 1).drop_last() =~= qs.take(j as int));
                assert(qs.take(j + 1).last() == q@);
            }
            let keep = match mode {
                Some(m) => m.should_replay(q),
                None => true,
            };
            if keep {
                out.push(q.duration_us);
            }
            proof {
                assert(out@ =~= before + compared_durations(qs.take(j + 1), mode));
            }
        }
        proof {
            assert(qs.take(qs.len() as int) =~= qs);
        }
    }
    proof {
        assert(s.take(s.len() as int) =~= s);
    }
    out
}

/// The durations of all replayed queries and the number that failed.
pub fn collect_replay(results: &[ReplayResults]) -> (r: (Vec<u64>, u64))
    requires
        all_results(results@).len() <= u64::MAX,
    ensures
        r.0@ == replay_durations(all_results(results@)),
        r.1 == error_total(all_results(results@)),
{
    let mut out: Vec<u64> = Vec::new();
    let mut errors: u64 = 0;
    proof {
        assert(out@ =~= replay_durations(all_results(results@.take(0))));
    }
    for i in 0..results.len()
        invariant
            all_results(results@).len() <= u64::MAX,
            out@ == replay_durations(all_results(results@.take(i as int))),
            errors == error_total(all_results(results@.take(i as int))),
    {
        let ghost done = all_results(results@.take(i as int));
        let ghost rs = result_views(results@[i as int].query_results@);
        proof {
            assert(results@.take(i + 1).drop_last() =~= results@.take(i as int));
            assert(results@.take(i + 1).last() == results@[i as int]);
            assert(all_results(results@.take(i + 1)) == done + rs);
            assert(done + rs.take(0) =~= done);
            lemma_results_take(results@, i + 1);
        }
        let n = results[i].query_results.len();
        for j in 0..n
            invariant
                i < results@.len(),
                n == rs.len(),
                rs == result_views(results@[i as int].query_results@),
                done.len() + rs.len() <= u64::MAX,
                out@ == replay_durations(done + rs.take(j as int)),
                errors == error_total(done + rs.take(j as int)),
        {
            let q = &results[i].query_results[j];
            proof {
                let next = done + rs.take(j + 1);
                assert(next.drop_last() =~= done + rs.take(j as int));
                assert(next.last() == q@);
                lemma_errors_bounded(done + rs.take(j as int));
            }
            out.push(q.replay_duration_us);
            if !q.success {
                errors = errors + 1;
            }
            proof {
                assert(out@ =~= replay_durations(done + rs.take(j + 1)));
            }
        }
        proof {
            assert(rs.take(rs.len() as int) =~= rs);
        }
    }
    proof {
        assert(results@.take(results@.len() as int) =~= results@);
    }
    (out, errors)
}

proof fn lemma_errors_bounded(r: Seq<ResultView>)
    ensures
        error_total(r) <= r.len(),
    decreases r.len(),
{
    if r.len() > 0 {
        lemma_errors_bounded(r.drop_last());
    }
}

pub(crate) proof fn lemma_results_take(v: Seq<ReplayResults>, n: int)
    requires
        0 <= n <= v.len(),
    ensures
        all_results(v.take(n)).len() <= all_results(v).len(),
        all_results(v).take(all_results(v.take(n)).len() as int) == all_results(v.take(n)),
    decreases v.len() - n,
{
    if n == v.len() {
        assert(v.take(n) =~= v);
        assert(all_results(v).take(all_results(v).len() as int) =~= all_results(v));
    } else {
        lemma_results_take(v, n + 1);
        assert(v.take(n + 1).drop_last() =~= v.take(n));
        let a = all_results(v.take(n));
        let b = all_results(v.take(n + 1));
        assert(b.take(a.len() as int) =~= a);
        assert(all_results(v).take(a.len() as int) =~= all_results(v).take(b.len() as int).take(a.len() as int));
    }
}

// ── Regressions ─────────────────────────────────────────────────────

/// A percentage in millionths of a percent.
#[derive(Debug, Clone, Copy, PartialEq, Eq, Structural)]
pub struct Percent {
    pub millionths: i64,
}

/// On which side of the threshold a change lies.
#[derive(Debug, Clone, Copy, PartialEq, Eq, Structural)]
pub enum Verdict {
    Regression,
    Improvement,
    Within,
}

/// The change of a duration, as a percentage of the first: a regression if it
/// is above the threshold, an improvement if it is below the negated threshold.
pub open spec fn verdict_of(before: u64, after: u64, threshold: Percent) -> Verdict {
    if (after - before) * 100_000_000 > threshold.millionths * before {
        Verdict::Regression
    } else if (after - before) * 100_000_000 < -(threshold.millionths * before) {
        Verdict::Improvement
    } else {
        Verdict::Within
    }
}

/// Whether the change from `a` to `b` is, as a percentage, greater than that
/// from `c` to `d`: the quotient of `b` and `a` is the greater one.
pub open spec fn grew_more(a: u64, b: u64, c: u64, d: u64) -> bool {
    b * c > d * a
}

/// Which changes are greater is decided by their percentages.
pub proof fn law_grew_more_by_percentage(a: u64, b: u64, c: u64, d: u64)
    requires
        a > 0,
        c > 0,
    ensures
        grew_more(a, b, c, d) <==> (b - a) * 100 * c > (d - c) * 100 * a,
{
    assert((b - a) * 100 * c == 100 * (b * c) - 100 * (a * c)) by (nonlinear_arith);
    assert((d - c) * 100 * a == 100 * (d * a) - 100 * (a * c)) by (nonlinear_arith);
}

pub(crate) proof fn lemma_not_more_transitive(a: u64, b: u64, c: u64, d: u64, e: u64, f: u64)
    requires
        c > 0,
        !grew_more(c, d, a, b),
        !grew_more(e, f, c, d),
    ensures
        !grew_more(e, f, a, b),
{
    assert(f * a <= b * e) by (nonlinear_arith)
        requires
            c > 0,
            a >= 0,
            e >= 0,
            d * a <= b * c,
            f * c <= d * e,
    {
        assert(f * c * a <= d * e * a);
        assert(d * a * e <= b * c * e);
        assert((f * a) * c <= (b * e) * c);
    }
}

/// A query with a threshold that is not negative is no regression and no
/// improvement at once, and one that took as long as before is neither.
pub proof fn law_unchanged_is_within(before: u64, threshold: Percent)
    requires
        threshold.millionths >= 0,
    ensures
        verdict_of(before, before, threshold) == Verdict::Within,
{
    assert(threshold.millionths * before >= 0) by (nonlinear_arith)
        requires
            threshold.millionths >= 0,
            before >= 0,
    ;
}

/// On which side of the threshold the change of a duration lies.
pub fn judge(before: u64, after: u64, threshold: Percent) -> (r: Verdict)
    ensures
        r == verdict_of(before, after, threshold),
{
    let t: i64 = threshold.millionths;
    proof {
        assert(-170141183460469231722463931679029329920 <= t * before <= 170141183460469231722463931679029329920)
            by (nonlinear_arith)
            requires
                -9223372036854775808 <= t <= 9223372036854775807,
                0 <= before <= 18446744073709551615,
        ;
    }
    let change: i128 = (after as i128 - before as i128) * 100_000_000;
    let limit: i128 = (t as i128) * (before as i128);
    if change > limit {
        Verdict::Regression
    } else if change < -limit {
        Verdict::Improvement
    } else {
        Verdict::Within
    }
}

/// Whether the change from `a` to `b` is greater than that from `c` to `d`.
pub(crate) fn has_grown_more(a: u64, b: u64, c: u64, d: u64) -> (r: bool)
    ensures
        r == grew_more(a, b, c, d),
{
    proof {
        assert(0 <= b * c <= 18446744073709551615 * 18446744073709551615) by (nonlinear_arith)
            requires
                0 <= b <= 18446744073709551615,
                0 <= c <= 18446744073709551615,
        ;
        assert(0 <= d * a <= 18446744073709551615 * 18446744073709551615) by (nonlinear_arith)
            requires
                0 <= d <= 18446744073709551615,
                0 <= a <= 18446744073709551615,
        ;
    }
    (b as u128) * (c as u128) > (d as u128) * (a as u128)
}

#[derive(Debug, Clone)]
pub struct Regression {
    pub sql: String,
    pub original_us: u64,
    pub replay_us: u64,
}

/// The model of a regression.
pub struct RegressionView {
    pub sql: Seq<char>,
    pub original_us: u64,
    pub replay_us: u64,
}

impl View for Regression {
    type V = RegressionView;

    open spec fn view(&self) -> RegressionView {
        RegressionView {
            sql: self.sql@,
            original_us: self.original_us,
            replay_us: self.replay_us,
        }
    }
}

/// The models of regressions.
pub open spec fn regression_views(v: Seq<Regression>) -> Seq<RegressionView> {
    Seq::new(v.len(), |i: int| v[i]@)
}

/// Whether a regression is worse than another, as a percentage.
pub open spec fn worse(x: RegressionView, y: RegressionView) -> bool {
    grew_more(x.original_us, x.replay_us, y.original_us, y.replay_us)
}

/// The regressions with one more, behind all that are not smaller.
pub open spec fn insert_worst_first(s: Seq<RegressionView>, x: RegressionView) -> Seq<RegressionView>
    decreases s.len(),
{
    if s.len() == 0 || !worse(x, s.last()) {
        s.push(x)
    } else {
        insert_worst_first(s.drop_last(), x).push(s.last())
    }
}

/// The regressions among the first `n` results, worst first, equal ones in the
/// order of the results. A query that took no time at first is none.
pub open spec fn regressions_of(r: Seq<ResultView>, threshold: Percent, n: int) -> Seq<RegressionView>
    decreases n,
{
    if n <= 0 {
        Seq::empty()
    } else {
        let rest = regressions_of(r, threshold, n - 1);
        let q = r[n - 1];
        if q.original_duration_us > 0 && verdict_of(q.original_duration_us, q.replay_duration_us, threshold)
            == Verdict::Regression {
            insert_worst_first(
                rest,
                RegressionView {
                    sql: q.sql,
                    original_us: q.original_duration_us,
                    replay_us: q.replay_duration_us,
                },
            )
        } else {
            rest
        }
    }
}

/// Whether every regression took time at first.
pub open spec fn took_time(s: Seq<RegressionView>) -> bool {
    forall|i: int| 0 <= i < s.len() ==> (#[trigger] s[i]).original_us > 0
}

/// Whether regressions are ordered worst first.
pub open spec fn worst_first(s: Seq<RegressionView>) -> bool {
    forall|i: int, j: int| 0 <= i < j < s.len() ==> !worse(s[j], s[i])
}

proof fn lemma_insert_worst_first(s: Seq<RegressionView>, x: RegressionView)
    requires
        worst_first(s),
        took_time(s),
        x.original_us > 0,
    ensures
        worst_first(insert_worst_first(s, x)),
        took_time(insert_worst_first(s, x)),
        insert_worst_first(s, x).len() == s.len() + 1,
        forall|k: int|
            0 <= k < insert_worst_first(s, x).len() ==> (#[trigger] insert_worst_first(s, x)[k]) == x || exists|m: int|
                0 <= m < s.len() && insert_worst_first(s, x)[k] == s[m],
    decreases s.len(),
{
    if s.len() == 0 || !worse(x, s.last()) {
        let t = s.push(x);
        assert forall|k: int| 0 <= k < t.len() implies (#[trigger] t[k]) == x || exists|m: int|
            0 <= m < s.len() && t[k] == s[m] by {
            if k < s.len() {
                assert(t[k] == s[k]);
            }
        }
        assert forall|i: int, j: int| 0 <= i < j < t.len() implies !worse(t[j], t[i]) by {
            if j == s.len() && i < s.len() - 1 {
                let y = s[s.len() - 1];
                assert(!worse(y, s[i]));
                assert(y.original_us > 0);
                lemma_not_more_transitive(
                    s[i].original_us,
                    s[i].replay_us,
                    y.original_us,
                    y.replay_us,
                    x.original_us,
                    x.replay_us,
                );
            }
        }
    } else {
        let p = s.drop_last();
        assert(took_time(p)) by {
            assert forall|i: int| 0 <= i < p.len() implies (#[trigger] p[i]).original_us > 0 by {
                assert(s[i].original_us > 0);
            }
        }
        lemma_insert_worst_first(p, x);
        let q = insert_worst_first(p, x);
        let t = q.push(s.last());
        assert forall|k: int| 0 <= k < t.len() implies (#[trigger] t[k]) == x || exists|m: int|
            0 <= m < s.len() && t[k] == s[m] by {
            if k < q.len() {
                if q[k] != x {
                    let m = choose|m: int| 0 <= m < p.len() && q[k] == p[m];
                    assert(s[m] == p[m]);
                }
            } else {
                assert(t[k] == s[s.len() - 1]);
            }
        }
        assert forall|i: int, j: int| 0 <= i < j < t.len() implies !worse(t[j], t[i]) by {
            if j == q.len() {
                if q[i] != x {
                    let m = choose|m: int| 0 <= m < p.len() && q[i] == p[m];
                    assert(s[m] == p[m]);
                }
            }
        }
    }
}

/// Regressions are reported worst first.
pub proof fn law_regressions_worst_first(r: Seq<ResultView>, threshold: Percent, n: int)
    ensures
        worst_first(regressions_of(r, threshold, n)),
        took_time(regressions_of(r, threshold, n)),
    decreases n,
{
    if n > 0 {
        law_regressions_worst_first(r, threshold, n - 1);
        let q = r[n - 1];
        if q.original_duration_us > 0 {
            lemma_insert_worst_first(
                regressions_of(r, threshold, n - 1),
                RegressionView {
                    sql: q.sql,
                    original_us: q.original_duration_us,
                    replay_us: q.replay_duration_us,
                },
            );
        }
    }
}

fn insert_regression(out: &mut Vec<Regression>, x: Regression)
    ensures
        regression_views(final(out)@) == insert_worst_first(regression_views(old(out)@), x@),
{
    let ghost before = regression_views(out@);
    let ghost xv = x@;
    let mut i: usize = out.len();
    proof {
        assert(before.take(i as int) =~= before);
        assert(insert_worst_first(before, xv) =~= insert_worst_first(before.take(i as int), xv) + before.skip(
            i as int,
        ));
    }
    while i > 0 && has_grown_more(x.original_us, x.replay_us, out[i - 1].original_us, out[i - 1].replay_us)
        invariant
            i <= out@.len(),
            before == regression_views(out@),
            before == regression_views(old(out)@),
            xv == x@,
            insert_worst_first(before, xv) == insert_worst_first(before.take(i as int), xv) + before.skip(i as int),
        decreases i,
    {
        proof {
            let t = before.take(i as int);
            assert(t.last() == out@[i - 1]@);
            assert(t.drop_last() =~= before.take(i - 1));
            assert(insert_worst_first(before.take(i - 1), xv).push(t.last()) + before.skip(i as int)
                =~= insert_worst_first(before.take(i - 1), xv) + before.skip(i - 1));
        }
        i = i - 1;
    }
    proof {
        let t = before.take(i as int);
        assert(t.len() > 0 ==> t.last() == out@[i - 1]@);
        assert(insert_worst_first(t, xv) == t.push(xv));
    }
    out.insert(i, x);
    proof {
        assert(regression_views(out@) =~= before.take(i as int).push(xv) + before.skip(i as int));
    }
}

fn collect_regressions(results: &[ReplayResults], threshold: Percent) -> (r: Vec<Regression>)
    ensures
        regression_views(r@) == regressions_of(
            all_results(results@),
            threshold,
            all_results(results@).len() as int,
        ),
{
    let ghost all = all_results(results@);
    let mut out: Vec<Regression> = Vec::new();
    let ghost mut at: int = 0;
    proof {
        assert(regression_views(out@) =~= regressions_of(all, threshold, 0));
    }
    for i in 0..results.len()
        invariant
            all == all_results(results@),
            at == all_results(results@.take(i as int)).len(),
            regression_views(out@) == regressions_of(all, threshold, at),
    {
        let ghost done = all_results(results@.take(i as int));
        let ghost rs = result_views(results@[i as int].query_results@);
        proof {
            assert(results@.take(i + 1).drop_last() =~= results@.take(i as int));
            assert(results@.take(i + 1).last() == results@[i as int]);
            lemma_results_take(results@, i + 1);
        }
        let n = results[i].query_results.len();
        for j in 0..n
            invariant
                i < results@.len(),
                n == rs.len(),
                rs == result_views(results@[i as int].query_results@),
                all == all_results(results@),
                done.len() + rs.len() <= all.len(),
                all.take((done.len() + rs.len()) as int) == done + rs,
                at == done.len() + j,
                regression_views(out@) == regressions_of(all, threshold, at),
        {
            let q = &results[i].query_results[j];
            proof {
                assert(all[at] == all.take((done.len() + rs.len()) as int)[at]);
                assert(all[at] == q@);
            }
            if q.original_duration_us > 0 && judge(q.original_duration_us, q.replay_duration_us, threshold)
                == Verdict::Regression {
                insert_regression(
                    &mut out,
                    Regression {
                        sql: copy_string(q.sql.as_str()),
                        original_us: q.original_duration_us,
                        replay_us: q.replay_duration_us,
                    },
                );
            }
            proof {
                at = at + 1;
            }
        }
    }
    proof {
        assert(results@.take(results@.len() as int) =~= results@);
    }
    out
}

// ── The report ──────────────────────────────────────────────────────

#[derive(Debug, Clone)]
pub struct ComparisonReport {
    pub total_queries_source: u64,
    pub total_queries_replayed: u64,
    pub total_queries_filtered: u64,
    pub total_errors: u64,
    pub source_avg_latency_us: u64,
    pub replay_avg_latency_us: u64,
    pub source_p50_latency_us: u64,
    pub replay_p50_latency_us: u64,
    pub source_p95_latency_us: u64,
    pub replay_p95_latency_us: u64,
    pub source_p99_latency_us: u64,
    pub replay_p99_latency_us: u64,
    pub regressions: Vec<Regression>,
}

/// Compares a workload with its replay. With a mode, the source queries that
/// it does not replay are left out and counted as filtered.
pub fn compute_comparison(
    source: &WorkloadProfile,
    results: &[ReplayResults],
    threshold: Percent,
    mode: Option<ReplayMode>,
) -> (r: ComparisonReport)
    requires
        query_count(source@.sessions) <= u64::MAX,
        all_results(results@).len() <= u64::MAX,
        sum(source_durations(source@.sessions, mode)) <= u64::MAX,
        sum(replay_durations(all_results(results@))) <= u64::MAX,
    ensures
        ({
            let s = source_durations(source@.sessions, mode);
            let t = replay_durations(all_results(results@));
            &&& r.total_queries_source == s.len()
            &&& r.total_queries_replayed == t.len()
            &&& r.total_queries_filtered == query_count(source@.sessions) - s.len()
            &&& r.total_errors == error_total(all_results(results@))
            &&& r.source_avg_latency_us == average(s)
            &&& r.replay_avg_latency_us == average(t)
            &&& r.source_p50_latency_us == percentile_of(ascending(s), 50)
            &&& r.replay_p50_latency_us == percentile_of(ascending(t), 50)
            &&& r.source_p95_latency_us == percentile_of(ascending(s), 95)
            &&& r.replay_p95_latency_us == percentile_of(ascending(t), 95)
            &&& r.source_p99_latency_us == percentile_of(ascending(s), 99)
            &&& r.replay_p99_latency_us == percentile_of(ascending(t), 99)
            &&& regression_views(r.regressions@) == regressions_of(
                all_results(results@),
                threshold,
                all_results(results@).len() as int,
            )
        }),
{
    let total = crate::profile::count_queries(&source.sessions);
    let mut s = collect_source(source, mode);
    let (mut t, errors) = collect_replay(results);
    proof {
        lemma_source_len(source@.sessions, mode);
    }
    let regressions = collect_regressions(results, threshold);
    let source_avg = avg(&s);
    let replay_avg = avg(&t);
    let source_len = s.len() as u64;
    let replay_len = t.len() as u64;
    sort_ascending(&mut s);
    sort_ascending(&mut t);
    ComparisonReport {
        total_queries_source: source_len,
        total_queries_replayed: replay_len,
        total_queries_filtered: total - source_len,
        total_errors: errors,
        source_avg_latency_us: source_avg,
        replay_avg_latency_us: replay_avg,
        source_p50_latency_us: percentile(&s, 50),
        replay_p50_latency_us: percentile(&t, 50),
        source_p95_latency_us: percentile(&s, 95),
        replay_p95_latency_us: percentile(&t, 95),
        source_p99_latency_us: percentile(&s, 99),
        replay_p99_latency_us: percentile(&t, 99),
        regressions,
    }
}

// ── The outcome ─────────────────────────────────────────────────────

#[derive(Debug, Clone, Copy, PartialEq, Eq, Structural)]
pub enum CompareOutcome {
    Pass,
    Regressions,
    Errors,
}

impl CompareOutcome {
    pub fn exit_code(&self) -> (r: i32)
        ensures
            r == (match *self {
                CompareOutcome::Pass => 0i32,
                CompareOutcome::Regressions => 1i32,
                CompareOutcome::Errors => 2i32,
            }),
    {
        match self {
            CompareOutcome::Pass => 0,
            CompareOutcome::Regressions => 1,
            CompareOutcome::Errors => 2,
        }
    }

    pub fn label(&self) -> (r: &'static str)
        ensures
            r@ == (match *self {
                CompareOutcome::Pass => "PASS"@,
                CompareOutcome::Regressions => "FAIL (regressions detected)"@,
                CompareOutcome::Errors => "FAIL (query errors detected)"@,
            }),
    {
        match self {
            CompareOutcome::Pass => "PASS",
            CompareOutcome::Regressions => "FAIL (regressions detected)",
            CompareOutcome::Errors => "FAIL (query errors detected)",
        }
    }
}

/// The outcome of a comparison. Errors take priority over regressions.
pub fn evaluate_outcome(report: &ComparisonReport, fail_on_regression: bool, fail_on_error: bool) -> (r:
    CompareOutcome)
    ensures
        r == (if fail_on_error && report.total_errors > 0 {
            CompareOutcome::Errors
        } else if fail_on_regression && report.regressions@.len() > 0 {
            CompareOutcome::Regressions
        } else {
            CompareOutcome::Pass
        }),
{
    if fail_on_error && report.total_errors > 0 {
        return CompareOutcome::Errors;
    }
    if fail_on_regression && report.regressions.len() > 0 {
        return CompareOutcome::Regressions;
    }
    CompareOutcome::Pass
}

} // verus!
