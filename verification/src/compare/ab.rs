//! Comparison of replays against several targets.

use crate::compare::{
    ascending, at_most, average, avg, collect_replay, error_total, grew_more, has_grown_more, judge,
    law_percentiles_ordered, lemma_not_more_transitive, lemma_sum_multiset, percentile,
    percentile_of, replay_durations, sort_ascending, sum, verdict_of, Percent, Verdict,
};
use crate::replay::{all_results, result_views, ReplayResults, ResultView};
use crate::text::copy_string;
use vstd::prelude::*;

verus! {

#[derive(Debug, Clone)]
pub struct VariantResult {
    pub label: String,
    pub results: Vec<ReplayResults>,
    pub avg_latency_us: u64,
    pub p50_latency_us: u64,
    pub p95_latency_us: u64,
    pub p99_latency_us: u64,
    pub total_errors: u64,
    pub total_queries: u64,
}

/// Whether a variant's numbers sum up results.
pub open spec fn sums_up(v: VariantResult, r: Seq<ResultView>) -> bool {
    let t = replay_durations(r);
    &&& v.avg_latency_us == average(t)
    &&& v.p50_latency_us == percentile_of(ascending(t), 50)
    &&& v.p95_latency_us == percentile_of(ascending(t), 95)
    &&& v.p99_latency_us == percentile_of(ascending(t), 99)
    &&& v.total_errors == error_total(r)
    &&& v.total_queries == t.len()
}

impl VariantResult {
    /// Sums up the results of a variant.
    pub fn from_results(label: String, results: Vec<ReplayResults>) -> (r: Self)
        requires
            all_results(results@).len() <= u64::MAX,
            sum(replay_durations(all_results(results@))) <= u64::MAX,
        ensures
            r.label@ == label@,
            r.results == results,
            sums_up(r, all_results(results@)),
    {
        let (mut t, total_errors) = collect_replay(results.as_slice());
        let avg_latency_us = avg(&t);
        let total_queries = t.len() as u64;
        sort_ascending(&mut t);
        VariantResult {
            label,
            results,
            avg_latency_us,
            p50_latency_us: percentile(&t, 50),
            p95_latency_us: percentile(&t, 95),
            p99_latency_us: percentile(&t, 99),
            total_errors,
            total_queries,
        }
    }
}

/// The percentiles of a variant ascend, and each is the duration of a query; all
/// latencies are zero where there are no queries.
pub proof fn law_variant_percentiles(v: VariantResult, r: Seq<ResultView>)
    requires
        sums_up(v, r),
    ensures
        v.p50_latency_us <= v.p95_latency_us <= v.p99_latency_us,
        r.len() > 0 ==> ({
            let t = replay_durations(r);
            t.contains(v.p50_latency_us) && t.contains(v.p95_latency_us) && t.contains(v.p99_latency_us)
        }),
        r.len() == 0 ==> v.avg_latency_us == 0 && v.p50_latency_us == 0 && v.p95_latency_us == 0 && v.p99_latency_us
            == 0,
{
    broadcast use vstd::seq_lib::group_to_multiset_ensures;

    let t = replay_durations(r);
    if r.len() > 0 {
        law_percentiles_ordered(t, 50, 95);
        law_percentiles_ordered(t, 95, 99);
        law_percentiles_ordered(t, 99, 99);
    } else {
        t.lemma_sort_by_ensures(at_most());
        assert(ascending(t).len() == ascending(t).to_multiset().len());
        assert(t.len() == t.to_multiset().len());
    }
}

proof fn lemma_durations_multiset(a: Seq<ResultView>, b: Seq<ResultView>)
    requires
        a.to_multiset() == b.to_multiset(),
    ensures
        replay_durations(a).to_multiset() == replay_durations(b).to_multiset(),
        error_total(a) == error_total(b),
        a.len() == b.len(),
    decreases a.len(),
{
    broadcast use vstd::seq_lib::group_to_multiset_ensures;

    assert(a.len() == a.to_multiset().len());
    assert(b.len() == b.to_multiset().len());
    if a.len() == 0 {
        assert(replay_durations(a) =~= replay_durations(b));
        assert(a =~= b);
    } else {
        let x = a.last();
        assert(a.contains(x)) by {
            assert(a[a.len() - 1] == x);
        }
        assert(a.to_multiset().count(x) > 0);
        assert(b.to_multiset().contains(x));
        assert(b.contains(x));
        let i = choose|i: int| 0 <= i < b.len() && b[i] == x;
        let rest = b.remove(i);
        assert(a.drop_last() =~= a.remove(a.len() - 1));
        assert(a.drop_last().to_multiset() =~= a.to_multiset().remove(x));
        assert(rest.to_multiset() =~= b.to_multiset().remove(x));
        lemma_durations_multiset(a.drop_last(), rest);
        let da = replay_durations(a);
        let db = replay_durations(b);
        assert(replay_durations(a.drop_last()) =~= da.remove(a.len() - 1));
        assert(replay_durations(rest) =~= db.remove(i));
        let y = x.replay_duration_us;
        assert(da.contains(y)) by {
            assert(da[a.len() - 1] == y);
        }
        assert(db.contains(y)) by {
            assert(db[i] == y);
        }
        assert(da.to_multiset().count(y) > 0);
        assert(db.to_multiset().count(y) > 0);
        assert(da.to_multiset() =~= da.remove(a.len() - 1).to_multiset().insert(y));
        assert(db.to_multiset() =~= db.remove(i).to_multiset().insert(y));
        lemma_errors_without(b, i);
    }
}

proof fn lemma_errors_without(r: Seq<ResultView>, i: int)
    requires
        0 <= i < r.len(),
    ensures
        error_total(r) == error_total(r.remove(i)) + (if r[i].success { 0nat } else { 1nat }),
    decreases r.len(),
{
    if i == r.len() - 1 {
        assert(r.remove(i) =~= r.drop_last());
    } else {
        lemma_errors_without(r.drop_last(), i);
        assert(r.remove(i).drop_last() =~= r.drop_last().remove(i));
        assert(r.remove(i).last() == r.last());
    }
}

/// The numbers of a variant do not depend on the order of its results.
pub proof fn law_variant_ignores_order(v: VariantResult, a: Seq<ResultView>, w: VariantResult, b: Seq<ResultView>)
    requires
        sums_up(v, a),
        sums_up(w, b),
        a.to_multiset() == b.to_multiset(),
    ensures
        v.avg_latency_us == w.avg_latency_us,
        v.p50_latency_us == w.p50_latency_us,
        v.p95_latency_us == w.p95_latency_us,
        v.p99_latency_us == w.p99_latency_us,
        v.total_errors == w.total_errors,
        v.total_queries == w.total_queries,
{
    lemma_durations_multiset(a, b);
    let s = replay_durations(a);
    let t = replay_durations(b);
    lemma_sum_multiset(s, t);
    s.lemma_sort_by_ensures(at_most());
    t.lemma_sort_by_ensures(at_most());
    vstd::seq_lib::lemma_sorted_unique(ascending(s), ascending(t), at_most());
}

/// A query that took longer or shorter than with the baseline.
#[derive(Debug, Clone)]
pub struct ABRegression {
    pub sql: String,
    pub baseline_us: u64,
    pub variant_label: String,
    pub variant_us: u64,
}

/// The model of a changed query.
pub struct ABView {
    pub sql: Seq<char>,
    pub baseline_us: u64,
    pub variant_label: Seq<char>,
    pub variant_us: u64,
}

impl View for ABRegression {
    type V = ABView;

    open spec fn view(&self) -> ABView {
        ABView {
            sql: self.sql@,
            baseline_us: self.baseline_us,
            variant_label: self.variant_label@,
            variant_us: self.variant_us,
        }
    }
}

/// The models of changed queries.
pub open spec fn ab_views(v: Seq<ABRegression>) -> Seq<ABView> {
    Seq::new(v.len(), |i: int| v[i]@)
}

#[derive(Debug, Clone)]
pub struct ABComparisonReport {
    pub variants: Vec<VariantResult>,
    pub baseline_label: String,
    pub regressions: Vec<ABRegression>,
    pub improvements: Vec<ABRegression>,
}

/// The place of the variant with the lowest average latency, the first of
/// several.
pub open spec fn winner_index(v: Seq<VariantResult>, n: int) -> int
    decreases n,
{
    if n <= 1 {
        0
    } else {
        let best = winner_index(v, n - 1);
        if v[n - 1].avg_latency_us < v[best].avg_latency_us {
            n - 1
        } else {
            best
        }
    }
}

/// No variant has a lower average latency than the winner, and none before it
/// has the same.
pub proof fn law_winner_is_fastest(v: Seq<VariantResult>, n: int, i: int)
    requires
        0 <= i < n <= v.len(),
    ensures
        0 <= winner_index(v, n) < n,
        v[winner_index(v, n)].avg_latency_us <= v[i].avg_latency_us,
        i < winner_index(v, n) ==> v[winner_index(v, n)].avg_latency_us < v[i].avg_latency_us,
    decreases n,
{
    if n > 1 {
        if i < n - 1 {
            law_winner_is_fastest(v, n - 1, i);
        } else {
            law_winner_is_fastest(v, n - 1, 0);
        }
        let best = winner_index(v, n - 1);
        law_winner_is_fastest(v, n - 1, best);
    }
}

impl ABComparisonReport {
    /// The place of the variant with the lowest average latency.
    pub fn winner_place(&self) -> (r: Option<usize>)
        ensures
            r is None <==> self.variants@.len() == 0,
            r matches Some(i) ==> i < self.variants@.len() && i == winner_index(
                self.variants@,
                self.variants@.len() as int,
            ),
    {
        let n = self.variants.len();
        if n == 0 {
            return None;
        }
        let mut best: usize = 0;
        let mut i: usize = 1;
        while i < n
            invariant
                1 <= i <= n,
                n == self.variants@.len(),
                best < i,
                best == winner_index(self.variants@, i as int),
            decreases n - i,
        {
            if self.variants[i].avg_latency_us < self.variants[best].avg_latency_us {
                best = i;
            }
            i = i + 1;
        }
        Some(best)
    }

    /// Return the label of the variant with the lowest average latency, or None if empty.
    pub fn winner(&self) -> (r: Option<&str>)
        ensures
            r is None <==> self.variants@.len() == 0,
            r matches Some(label) ==> label@ == self.variants@[winner_index(
                self.variants@,
                self.variants@.len() as int,
            )].label@,
    {
        match self.winner_place() {
            Some(i) => Some(self.variants[i].label.as_str()),
            None => None,
        }
    }
}

// ── Changed queries ─────────────────────────────────────────────────

/// Whether a query slowed down more than another, as a percentage.
pub open spec fn slowed_more(x: ABView, y: ABView) -> bool {
    grew_more(x.baseline_us, x.variant_us, y.baseline_us, y.variant_us)
}

/// The queries with one more, the greatest change first; one that is added
/// later comes behind those of the same change.
pub open spec fn insert_descending(s: Seq<ABView>, x: ABView) -> Seq<ABView>
    decreases s.len(),
{
    if s.len() == 0 || !slowed_more(x, s.last()) {
        s.push(x)
    } else {
        insert_descending(s.drop_last(), x).push(s.last())
    }
}

/// The queries with one more, the smallest change first.
pub open spec fn insert_ascending(s: Seq<ABView>, x: ABView) -> Seq<ABView>
    decreases s.len(),
{
    if s.len() == 0 || !slowed_more(s.last(), x) {
        s.push(x)
    } else {
        insert_ascending(s.drop_last(), x).push(s.last())
    }
}

/// Changed queries: those that got slower, worst first, and those that got
/// faster, best first.
pub struct Changed {
    pub regressions: Seq<ABView>,
    pub improvements: Seq<ABView>,
}

/// The changed queries with one more result taken in. Results are compared by
/// position; one without a counterpart, or whose counterpart took no time, is
/// left out.
pub open spec fn with_result(
    c: Changed,
    base: Seq<ResultView>,
    label: Seq<char>,
    q: ResultView,
    i: int,
    threshold: Percent,
) -> Changed {
    if i >= base.len() || base[i].replay_duration_us == 0 {
        c
    } else {
        let x = ABView {
            sql: q.sql,
            baseline_us: base[i].replay_duration_us,
            variant_label: label,
            variant_us: q.replay_duration_us,
        };
        match verdict_of(base[i].replay_duration_us, q.replay_duration_us, threshold) {
            Verdict::Regression => Changed { regressions: insert_descending(c.regressions, x), ..c },
            Verdict::Improvement => Changed { improvements: insert_ascending(c.improvements, x), ..c },
            Verdict::Within => c,
        }
    }
}

/// The changed queries with the first `n` results of a variant taken in.
pub open spec fn with_results(
    c: Changed,
    base: Seq<ResultView>,
    label: Seq<char>,
    r: Seq<ResultView>,
    threshold: Percent,
    n: int,
) -> Changed
    decreases n,
{
    if n <= 0 {
        c
    } else {
        with_result(with_results(c, base, label, r, threshold, n - 1), base, label, r[n - 1], n - 1, threshold)
    }
}

/// The changed queries of the variants from the second to number `n`.
pub open spec fn changed_queries(v: Seq<VariantResult>, threshold: Percent, n: int) -> Changed
    decreases n,
{
    if n <= 1 {
        Changed { regressions: Seq::empty(), improvements: Seq::empty() }
    } else {
        let r = all_results(v[n - 1].results@);
        with_results(
            changed_queries(v, threshold, n - 1),
            all_results(v[0].results@),
            v[n - 1].label@,
            r,
            threshold,
            r.len() as int,
        )
    }
}

/// Whether every query took time with the baseline.
pub open spec fn baselines_positive(s: Seq<ABView>) -> bool {
    forall|i: int| 0 <= i < s.len() ==> (#[trigger] s[i]).baseline_us > 0
}

/// Whether the queries are ordered from the greatest change to the smallest.
pub open spec fn worst_changes_first(s: Seq<ABView>) -> bool {
    forall|i: int, j: int| 0 <= i < j < s.len() ==> !slowed_more(s[j], s[i])
}

/// Whether the queries are ordered from the smallest change to the greatest.
pub open spec fn best_changes_first(s: Seq<ABView>) -> bool {
    forall|i: int, j: int| 0 <= i < j < s.len() ==> !slowed_more(s[i], s[j])
}

proof fn lemma_transitive(a: ABView, b: ABView, c: ABView)
    requires
        b.baseline_us > 0,
        !slowed_more(b, a),
        !slowed_more(c, b),
    ensures
        !slowed_more(c, a),
{
    lemma_not_more_transitive(
        a.baseline_us,
        a.variant_us,
        b.baseline_us,
        b.variant_us,
        c.baseline_us,
        c.variant_us,
    );
}

proof fn lemma_insert_descending(s: Seq<ABView>, x: ABView)
    requires
        worst_changes_first(s),
        baselines_positive(s),
        x.baseline_us > 0,
    ensures
        worst_changes_first(insert_descending(s, x)),
        baselines_positive(insert_descending(s, x)),
        forall|k: int|
            0 <= k < insert_descending(s, x).len() ==> (#[trigger] insert_descending(s, x)[k]) == x || exists|m: int|
                0 <= m < s.len() && insert_descending(s, x)[k] == s[m],
    decreases s.len(),
{
    if s.len() == 0 || !slowed_more(x, s.last()) {
        let t = s.push(x);
        assert forall|k: int| 0 <= k < t.len() implies (#[trigger] t[k]) == x || exists|m: int|
            0 <= m < s.len() && t[k] == s[m] by {
            if k < s.len() {
                assert(t[k] == s[k]);
            }
        }
        assert forall|i: int, j: int| 0 <= i < j < t.len() implies !slowed_more(t[j], t[i]) by {
            if j == s.len() && i < s.len() - 1 {
                assert(s[s.len() - 1].baseline_us > 0);
                lemma_transitive(s[i], s[s.len() - 1], x);
            }
        }
    } else {
        let p = s.drop_last();
        assert forall|i: int| 0 <= i < p.len() implies (#[trigger] p[i]).baseline_us > 0 by {
            assert(s[i].baseline_us > 0);
        }
        lemma_insert_descending(p, x);
        let q = insert_descending(p, x);
        let t = q.push(s.last());
        assert forall|k: int| 0 <= k < t.len() implies (#[trigger] t[k]) == x || exists|m: int|
            0 <= m < s.len() && t[k] == s[m] by {
            if k < q.len() {
                if q[k] != x {
                    let m = choose|m: int| 0 <= m < p.len() && q[k] == p[m];
                    assert(s[m] == p[m]);
                }
            } else {
                assert(t[k] == s[s.len() - 1]);
            }
        }
        assert forall|i: int, j: int| 0 <= i < j < t.len() implies !slowed_more(t[j], t[i]) by {
            if j == q.len() && q[i] != x {
                let m = choose|m: int| 0 <= m < p.len() && q[i] == p[m];
                assert(s[m] == p[m]);
            }
        }
    }
}

proof fn lemma_insert_ascending(s: Seq<ABView>, x: ABView)
    requires
        best_changes_first(s),
        baselines_positive(s),
        x.baseline_us > 0,
    ensures
        best_changes_first(insert_ascending(s, x)),
        baselines_positive(insert_ascending(s, x)),
        forall|k: int|
            0 <= k < insert_ascending(s, x).len() ==> (#[trigger] insert_ascending(s, x)[k]) == x || exists|m: int|
                0 <= m < s.len() && insert_ascending(s, x)[k] == s[m],
    decreases s.len(),
{
    if s.len() == 0 || !slowed_more(s.last(), x) {
        let t = s.push(x);
        assert forall|k: int| 0 <= k < t.len() implies (#[trigger] t[k]) == x || exists|m: int|
            0 <= m < s.len() && t[k] == s[m] by {
            if k < s.len() {
                assert(t[k] == s[k]);
            }
        }
        assert forall|i: int, j: int| 0 <= i < j < t.len() implies !slowed_more(t[i], t[j]) by {
            if j == s.len() && i < s.len() - 1 {
                assert(s[s.len() - 1].baseline_us > 0);
                lemma_transitive(x, s[s.len() - 1], s[i]);
            }
        }
    } else {
        let p = s.drop_last();
        assert forall|i: int| 0 <= i < p.len() implies (#[trigger] p[i]).baseline_us > 0 by {
            assert(s[i].baseline_us > 0);
        }
        lemma_insert_ascending(p, x);
        let q = insert_ascending(p, x);
        let t = q.push(s.last());
        assert forall|k: int| 0 <= k < t.len() implies (#[trigger] t[k]) == x || exists|m: int|
            0 <= m < s.len() && t[k] == s[m] by {
            if k < q.len() {
                if q[k] != x {
                    let m = choose|m: int| 0 <= m < p.len() && q[k] == p[m];
                    assert(s[m] == p[m]);
                }
            } else {
                assert(t[k] == s[s.len() - 1]);
            }
        }
        assert forall|i: int, j: int| 0 <= i < j < t.len() implies !slowed_more(t[i], t[j]) by {
            if j == q.len() && q[i] != x {
                let m = choose|m: int| 0 <= m < p.len() && q[i] == p[m];
                assert(s[m] == p[m]);
            }
        }
    }
}

spec fn in_order(c: Changed) -> bool {
    worst_changes_first(c.regressions) && baselines_positive(c.regressions) && best_changes_first(c.improvements)
        && baselines_positive(c.improvements)
}

proof fn lemma_results_in_order(
    c: Changed,
    base: Seq<ResultView>,
    label: Seq<char>,
    r: Seq<ResultView>,
    threshold: Percent,
    n: int,
)
    requires
        in_order(c),
    ensures
        in_order(with_results(c, base, label, r, threshold, n)),
    decreases n,
{
    if n > 0 {
        lemma_results_in_order(c, base, label, r, threshold, n - 1);
        let before = with_results(c, base, label, r, threshold, n - 1);
        if n - 1 < base.len() && base[n - 1].replay_duration_us != 0 {
            let x = ABView {
                sql: r[n - 1].sql,
                baseline_us: base[n - 1].replay_duration_us,
                variant_label: label,
                variant_us: r[n - 1].replay_duration_us,
            };
            lemma_insert_descending(before.regressions, x);
            lemma_insert_ascending(before.improvements, x);
        }
    }
}

proof fn lemma_changes_in_order(v: Seq<VariantResult>, threshold: Percent, n: int)
    ensures
        in_order(changed_queries(v, threshold, n)),
    decreases n,
{
    if n > 1 {
        lemma_changes_in_order(v, threshold, n - 1);
        let r = all_results(v[n - 1].results@);
        lemma_results_in_order(
            changed_queries(v, threshold, n - 1),
            all_results(v[0].results@),
            v[n - 1].label@,
            r,
            threshold,
            r.len() as int,
        );
    }
}

/// Regressions are reported worst first, improvements best first.
pub proof fn law_changes_in_order(v: Seq<VariantResult>, threshold: Percent)
    ensures
        worst_changes_first(changed_queries(v, threshold, v.len() as int).regressions),
        best_changes_first(changed_queries(v, threshold, v.len() as int).improvements),
{
    lemma_changes_in_order(v, threshold, v.len() as int);
}

fn insert_changed_descending(out: &mut Vec<ABRegression>, x: ABRegression)
    ensures
        ab_views(final(out)@) == insert_descending(ab_views(old(out)@), x@),
{
    let ghost before = ab_views(out@);
    let ghost xv = x@;
    let mut i: usize = out.len();
    proof {
        assert(before.take(i as int) =~= before);
        assert(insert_descending(before, xv) =~= insert_descending(before.take(i as int), xv) + before.skip(
            i as int,
        ));
    }
    while i > 0 && has_grown_more(x.baseline_us, x.variant_us, out[i - 1].baseline_us, out[i - 1].variant_us)
        invariant
            i <= out@.len(),
            before == ab_views(out@),
            before == ab_views(old(out)@),
            xv == x@,
            insert_descending(before, xv) == insert_descending(before.take(i as int), xv) + before.skip(i as int),
        decreases i,
    {
        proof {
            let t = before.take(i as int);
            assert(t.last() == out@[i - 1]@);
            assert(t.drop_last() =~= before.take(i - 1));
            assert(insert_descending(before.take(i - 1), xv).push(t.last()) + before.skip(i as int)
                =~= insert_descending(before.take(i - 1), xv) + before.skip(i - 1));
        }
        i = i - 1;
    }
    proof {
        let t = before.take(i as int);
        assert(t.len() > 0 ==> t.last() == out@[i - 1]@);
    }
    out.insert(i, x);
    proof {
        assert(ab_views(out@) =~= before.take(i as int).push(xv) + before.skip(i as int));
    }
}

fn insert_changed_ascending(out: &mut Vec<ABRegression>, x: ABRegression)
    ensures
        ab_views(final(out)@) == insert_ascending(ab_views(old(out)@), x@),
{
    let ghost before = ab_views(out@);
    let ghost xv = x@;
    let mut i: usize = out.len();
    proof {
        assert(before.take(i as int) =~= before);
        assert(insert_ascending(before, xv) =~= insert_ascending(before.take(i as int), xv) + before.skip(
            i as int,
        ));
    }
    while i > 0 && has_grown_more(out[i - 1].baseline_us, out[i - 1].variant_us, x.baseline_us, x.variant_us)
        invariant
            i <= out@.len(),
            before == ab_views(out@),
            before == ab_views(old(out)@),
            xv == x@,
            insert_ascending(before, xv) == insert_ascending(before.take(i as int), xv) + before.skip(i as int),
        decreases i,
    {
        proof {
            let t = before.take(i as int);
            assert(t.last() == out@[i - 1]@);
            assert(t.drop_last() =~= before.take(i - 1));
            assert(insert_ascending(before.take(i - 1), xv).push(t.last()) + before.skip(i as int)
                =~= insert_ascending(before.take(i - 1), xv) + before.skip(i - 1));
        }
        i = i - 1;
    }
    proof {
        let t = before.take(i as int);
        assert(t.len() > 0 ==> t.last() == out@[i - 1]@);
    }
    out.insert(i, x);
    proof {
        assert(ab_views(out@) =~= before.take(i as int).push(xv) + before.skip(i as int));
    }
}

/// The durations of all results, for comparing by position.
fn flat_durations(results: &Vec<ReplayResults>) -> (r: Vec<u64>)
    ensures
        r@ == replay_durations(all_results(results@)),
{
    let mut out: Vec<u64> = Vec::new();
    proof {
        assert(out@ =~= replay_durations(all_results(results@.take(0))));
    }
    for i in 0..results.len()
        invariant
            out@ == replay_durations(all_results(results@.take(i as int))),
    {
        let ghost done = all_results(results@.take(i as int));
        let ghost rs = result_views(results@[i as int].query_results@);
        proof {
            assert(results@.take(i + 1).drop_last() =~= results@.take(i as int));
            assert(results@.take(i + 1).last() == results@[i as int]);
            assert(done + rs.take(0) =~= done);
        }
        let n = results[i].query_results.len();
        for j in 0..n
            invariant
                i < results@.len(),
                n == rs.len(),
                rs == result_views(results@[i as int].query_results@),
                out@ == replay_durations(done + rs.take(j as int)),
        {
            out.push(results[i].query_results[j].replay_duration_us);
            proof {
                assert(out@ =~= replay_durations(done + rs.take(j + 1)));
            }
        }
        proof {
            assert(rs.take(rs.len() as int) =~= rs);
        }
    }
    proof {
        assert(results@.take(results@.len() as int) =~= results@);
    }
    out
}

struct ChangedLists {
    regressions: Vec<ABRegression>,
    improvements: Vec<ABRegression>,
}

spec fn lists_view(c: ChangedLists) -> Changed {
    Changed { regressions: ab_views(c.regressions@), improvements: ab_views(c.improvements@) }
}

fn take_variant(lists: &mut ChangedLists, base: &Vec<u64>, variant: &VariantResult, threshold: Percent, Ghost(
    base_results,
): Ghost<Seq<ResultView>>)
    requires
        base@ == replay_durations(base_results),
        all_results(variant.results@).len() <= u64::MAX,
    ensures
        lists_view(*final(lists)) == with_results(
            lists_view(*old(lists)),
            base_results,
            variant.label@,
            all_results(variant.results@),
            threshold,
            all_results(variant.results@).len() as int,
        ),
{
    let ghost all = all_results(variant.results@);
    let ghost start = lists_view(*lists);
    let mut at: u64 = 0;
    for i in 0..variant.results.len()
        invariant
            all == all_results(variant.results@),
            start == lists_view(*old(lists)),
            base@ == replay_durations(base_results),
            all.len() <= u64::MAX,
            at == all_results(variant.results@.take(i as int)).len(),
            lists_view(*lists) == with_results(start, base_results, variant.label@, all, threshold, at as int),
    {
        let ghost done = all_results(variant.results@.take(i as int));
        let ghost rs = result_views(variant.results@[i as int].query_results@);
        proof {
            assert(variant.results@.take(i + 1).drop_last() =~= variant.results@.take(i as int));
            assert(variant.results@.take(i + 1).last() == variant.results@[i as int]);
            crate::compare::lemma_results_take(variant.results@, i + 1);
        }
        let n = variant.results[i].query_results.len();
        for j in 0..n
            invariant
                i < variant.results@.len(),
                n == rs.len(),
                rs == result_views(variant.results@[i as int].query_results@),
                all == all_results(variant.results@),
                start == lists_view(*old(lists)),
                base@ == replay_durations(base_results),
                all.len() <= u64::MAX,
                done.len() + rs.len() <= all.len(),
                all.take((done.len() + rs.len()) as int) == done + rs,
                at == done.len() + j,
                lists_view(*lists) == with_results(start, base_results, variant.label@, all, threshold, at as int),
        {
            let q = &variant.results[i].query_results[j];
            proof {
                assert(all[at as int] == all.take((done.len() + rs.len()) as int)[at as int]);
                assert(all[at as int] == q@);
            }
            if at < base.len() as u64 && base[at as usize] != 0 {
                let before: u64 = base[at as usize];
                let x = ABRegression {
                    sql: copy_string(q.sql.as_str()),
                    baseline_us: before,
                    variant_label: copy_string(variant.label.as_str()),
                    variant_us: q.replay_duration_us,
                        };
                match judge(before, q.replay_duration_us, threshold) {
                    Verdict::Regression => {
                        insert_changed_descending(&mut lists.regressions, x);
                    },
                    Verdict::Improvement => {
                        insert_changed_ascending(&mut lists.improvements, x);
                    },
                    Verdict::Within => {},
                }
            }
            at = at + 1;
        }
    }
    proof {
        assert(variant.results@.take(variant.results@.len() as int) =~= variant.results@);
    }
}

/// Compare variants. First variant is the baseline.
/// `threshold` controls what counts as a regression/improvement.
pub fn compute_ab_comparison(variants: Vec<VariantResult>, threshold: Percent) -> (r: ABComparisonReport)
    requires
        forall|i: int|
            0 <= i < variants@.len() ==> all_results((#[trigger] variants@[i]).results@).len() <= u64::MAX,
    ensures
        r.variants == variants,
        r.baseline_label@ == (if variants@.len() == 0 { Seq::<char>::empty() } else { variants@[0].label@ }),
        ab_views(r.regressions@) == changed_queries(variants@, threshold, variants@.len() as int).regressions,
        ab_views(r.improvements@) == changed_queries(variants@, threshold, variants@.len() as int).improvements,
{
    let mut lists = ChangedLists { regressions: Vec::new(), improvements: Vec::new() };
    proof {
        assert(ab_views(lists.regressions@) =~= Seq::<ABView>::empty());
        assert(ab_views(lists.improvements@) =~= Seq::<ABView>::empty());
    }
    let n = variants.len();
    if n == 0 {
        return ABComparisonReport {
            variants,
            baseline_label: String::new(),
            regressions: lists.regressions,
            improvements: lists.improvements,
        };
    }
    let base = flat_durations(&variants[0].results);
    let baseline_label = copy_string(variants[0].label.as_str());
    let ghost base_results = all_results(variants@[0].results@);
    let mut i: usize = 1;
    while i < n
        invariant
            1 <= i <= n,
            n == variants@.len(),
            forall|k: int|
                0 <= k < variants@.len() ==> all_results((#[trigger] variants@[k]).results@).len() <= u64::MAX,
            base_results == all_results(variants@[0].results@),
            base@ == replay_durations(base_results),
            lists_view(lists) == changed_queries(variants@, threshold, i as int),
        decreases n - i,
    {
        proof {
            assert(all_results(variants@[i as int].results@).len() <= u64::MAX);
        }
        take_variant(&mut lists, &base, &variants[i], threshold, Ghost(base_results));
        i = i + 1;
    }
    ABComparisonReport {
        variants,
        baseline_label,
        regressions: lists.regressions,
        improvements: lists.improvements,
    }
}

} // verus!
