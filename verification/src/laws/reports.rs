//! Laws of reports: changed queries between variants, test reports and rows.

use crate::compare::ab::{insert_ascending, insert_descending, with_result, with_results, ABView, Changed};
use crate::compare::junit::{case_text, escaped, failures, CaseView, JunitCase};
use crate::compare::report::{delta_text, latency_status_of};
use crate::compare::{insert_worst_first, Percent, RegressionView};
use crate::laws::comparison::law_verdict_by_threshold;
use crate::laws::numbers::law_signed_decimal_value;
use crate::laws::texts::lemma_replace_shift;
use crate::number::{all_digits, digits_value, law_decimal_value};
use crate::replay::ResultView;
use crate::text::{match_at, replace};
use vstd::prelude::*;

verus! {

// ── Changed queries ─────────────────────────────────────────────────

proof fn lemma_descending_multiset(s: Seq<ABView>, x: ABView)
    ensures
        insert_descending(s, x).to_multiset() == s.to_multiset().insert(x),
    decreases s.len(),
{
    broadcast use vstd::seq_lib::group_to_multiset_ensures;

    if s.len() > 0 {
        lemma_descending_multiset(s.drop_last(), x);
        assert(s =~= s.drop_last().push(s.last()));
    }
    assert(insert_descending(s, x).to_multiset() =~= s.to_multiset().insert(x));
}

proof fn lemma_ascending_multiset(s: Seq<ABView>, x: ABView)
    ensures
        insert_ascending(s, x).to_multiset() == s.to_multiset().insert(x),
    decreases s.len(),
{
    broadcast use vstd::seq_lib::group_to_multiset_ensures;

    if s.len() > 0 {
        lemma_ascending_multiset(s.drop_last(), x);
        assert(s =~= s.drop_last().push(s.last()));
    }
    assert(insert_ascending(s, x).to_multiset() =~= s.to_multiset().insert(x));
}

/// Whether a result took longer than its counterpart of the baseline with the
/// threshold added.
pub open spec fn took_longer(base: Seq<ResultView>, r: Seq<ResultView>, t: Percent, i: int) -> bool {
    0 <= i < base.len() && i < r.len() && base[i].replay_duration_us > 0 && r[i].replay_duration_us * 100_000_000
        > base[i].replay_duration_us * (100_000_000 + t.millionths)
}

/// Whether a result took less time than its counterpart of the baseline with the
/// threshold taken off, and not longer.
pub open spec fn took_less(base: Seq<ResultView>, r: Seq<ResultView>, t: Percent, i: int) -> bool {
    0 <= i < base.len() && i < r.len() && base[i].replay_duration_us > 0 && r[i].replay_duration_us * 100_000_000
        < base[i].replay_duration_us * (100_000_000 - t.millionths) && !took_longer(base, r, t, i)
}

/// A result and its counterpart as a changed query.
pub open spec fn change(base: Seq<ResultView>, label: Seq<char>, r: Seq<ResultView>, i: int) -> ABView {
    ABView {
        sql: r[i].sql,
        baseline_us: base[i].replay_duration_us,
        variant_label: label,
        variant_us: r[i].replay_duration_us,
    }
}

/// Each result adds one regression where it took longer than the threshold
/// allows, one improvement where it took less, and nothing else.
pub proof fn law_result_is_compared_with_its_counterpart(
    c: Changed,
    base: Seq<ResultView>,
    label: Seq<char>,
    r: Seq<ResultView>,
    t: Percent,
    i: int,
)
    requires
        0 <= i < r.len(),
    ensures
        ({
            let after = with_result(c, base, label, r[i], i, t);
            let x = change(base, label, r, i);
            &&& took_longer(base, r, t, i) ==> after.regressions.to_multiset() == c.regressions.to_multiset().insert(x)
            &&& !took_longer(base, r, t, i) ==> after.regressions == c.regressions
            &&& took_less(base, r, t, i) ==> after.improvements.to_multiset() == c.improvements.to_multiset().insert(x)
            &&& !took_less(base, r, t, i) ==> after.improvements == c.improvements
        }),
{
    let x = change(base, label, r, i);
    lemma_descending_multiset(c.regressions, x);
    lemma_ascending_multiset(c.improvements, x);
    if i < base.len() {
        law_verdict_by_threshold(base[i].replay_duration_us, r[i].replay_duration_us, t);
    }
}

/// Every result of a variant that took longer than the threshold allows is among
/// the regressions, every one that took less among the improvements, and what
/// was found before stays; there is nothing else.
pub proof fn law_changes_are_found(
    c: Changed,
    base: Seq<ResultView>,
    label: Seq<char>,
    r: Seq<ResultView>,
    t: Percent,
    n: int,
    x: ABView,
)
    requires
        0 <= n <= r.len(),
    ensures
        ({
            let after = with_results(c, base, label, r, t, n);
            &&& after.regressions.contains(x) <==> c.regressions.contains(x) || exists|i: int|
                0 <= i < n && #[trigger] took_longer(base, r, t, i) && x == change(base, label, r, i)
            &&& after.improvements.contains(x) <==> c.improvements.contains(x) || exists|i: int|
                0 <= i < n && #[trigger] took_less(base, r, t, i) && x == change(base, label, r, i)
        }),
    decreases n,
{
    broadcast use vstd::seq_lib::group_to_multiset_ensures;

    if n > 0 {
        law_changes_are_found(c, base, label, r, t, n - 1, x);
        let before = with_results(c, base, label, r, t, n - 1);
        let after = with_results(c, base, label, r, t, n);
        law_result_is_compared_with_its_counterpart(before, base, label, r, t, n - 1);
        assert(after.regressions.contains(x) <==> after.regressions.to_multiset().count(x) > 0);
        assert(before.regressions.contains(x) <==> before.regressions.to_multiset().count(x) > 0);
        assert(after.improvements.contains(x) <==> after.improvements.to_multiset().count(x) > 0);
        assert(before.improvements.contains(x) <==> before.improvements.to_multiset().count(x) > 0);
        if took_longer(base, r, t, n - 1) && x == change(base, label, r, n - 1) {
            assert(after.regressions.to_multiset().count(x) > 0);
        }
        if took_less(base, r, t, n - 1) && x == change(base, label, r, n - 1) {
            assert(after.improvements.to_multiset().count(x) > 0);
        }
    }
}

/// Of changes by the same proportion the one that was found first comes first: a
/// change that is no greater than those before it goes behind them.
pub proof fn law_equal_changes_keep_their_order(s: Seq<ABView>, x: ABView, r: Seq<RegressionView>, y: RegressionView)
    ensures
        s.len() > 0 && x.variant_us * s.last().baseline_us <= s.last().variant_us * x.baseline_us ==> insert_descending(
            s,
            x,
        ) == s.push(x),
        s.len() > 0 && x.variant_us * s.last().baseline_us > s.last().variant_us * x.baseline_us ==> insert_descending(
            s,
            x,
        ).last() == s.last(),
        s.len() > 0 && s.last().variant_us * x.baseline_us <= x.variant_us * s.last().baseline_us ==> insert_ascending(
            s,
            x,
        ) == s.push(x),
        s.len() > 0 && s.last().variant_us * x.baseline_us > x.variant_us * s.last().baseline_us ==> insert_ascending(
            s,
            x,
        ).last() == s.last(),
        r.len() > 0 && y.replay_us * r.last().original_us <= r.last().replay_us * y.original_us ==> insert_worst_first(
            r,
            y,
        ) == r.push(y),
        r.len() > 0 && y.replay_us * r.last().original_us > r.last().replay_us * y.original_us ==> insert_worst_first(
            r,
            y,
        ).last() == r.last(),
        insert_descending(Seq::empty(), x) == seq![x],
        insert_ascending(Seq::empty(), x) == seq![x],
        insert_worst_first(Seq::empty(), y) == seq![y],
{
    assert(Seq::<ABView>::empty().push(x) =~= seq![x]);
    assert(Seq::<RegressionView>::empty().push(y) =~= seq![y]);
}

// ── Test reports ────────────────────────────────────────────────────

proof fn lemma_replace_one(x: char, s: Seq<char>, c: char, with: Seq<char>)
    ensures
        replace(seq![x] + s, seq![c], with) == (if x == c { with } else { seq![x] }) + replace(s, seq![c], with),
{
    let t = seq![x] + s;
    let p = seq![c];
    assert(t.skip(1) =~= s);
    lemma_replace_shift(t, p, with, 1, 0);
    assert(match_at(t, p, 0) <==> x == c) by {
        assert(t.subrange(0, 1) =~= seq![x]);
        assert(seq![x][0] == x && p[0] == c);
    }
}

proof fn lemma_replace_adds(a: Seq<char>, b: Seq<char>, c: char, with: Seq<char>)
    ensures
        replace(a + b, seq![c], with) == replace(a, seq![c], with) + replace(b, seq![c], with),
    decreases a.len(),
{
    let p = seq![c];
    if a.len() == 0 {
        assert(a + b =~= b);
        assert(replace(a, p, with) =~= Seq::<char>::empty());
        assert(replace(a, p, with) + replace(b, p, with) =~= replace(b, p, with));
    } else {
        let t = a.skip(1);
        assert(a =~= seq![a[0]] + t);
        assert(a + b =~= seq![a[0]] + (t + b));
        lemma_replace_one(a[0], t, c, with);
        lemma_replace_one(a[0], t + b, c, with);
        lemma_replace_adds(t, b, c, with);
        let head = if a[0] == c { with } else { seq![a[0]] };
        assert(head + (replace(t, p, with) + replace(b, p, with)) =~= head + replace(t, p, with) + replace(b, p, with));
    }
}

proof fn lemma_replace_char(x: char, c: char, with: Seq<char>)
    ensures
        replace(seq![x], seq![c], with) == (if x == c { with } else { seq![x] }),
{
    let none = Seq::<char>::empty();
    lemma_replace_one(x, none, c, with);
    assert(seq![x] + none =~= seq![x]);
    assert(replace(none, seq![c], with) =~= none);
    assert(with + none =~= with);
}

proof fn lemma_replace_kept(s: Seq<char>, c: char, with: Seq<char>)
    requires
        forall|i: int| 0 <= i < s.len() ==> #[trigger] s[i] != c,
    ensures
        replace(s, seq![c], with) == s,
    decreases s.len(),
{
    if s.len() > 0 {
        let t = s.skip(1);
        assert forall|i: int| 0 <= i < t.len() implies #[trigger] t[i] != c by {
            assert(s[i + 1] != c);
        }
        lemma_replace_kept(t, c, with);
        assert(s =~= seq![s[0]] + t);
        lemma_replace_one(s[0], t, c, with);
    } else {
        assert(replace(s, seq![c], with) =~= s);
    }
}

proof fn lemma_escaped_char(x: char)
    ensures
        x == '&' ==> escaped(seq![x]) == "&amp;"@,
        x == '<' ==> escaped(seq![x]) == "&lt;"@,
        x == '>' ==> escaped(seq![x]) == "&gt;"@,
        x == '"' ==> escaped(seq![x]) == "&quot;"@,
        x == '\'' ==> escaped(seq![x]) == "&apos;"@,
        x != '&' && x != '<' && x != '>' && x != '"' && x != '\'' ==> escaped(seq![x]) == seq![x],
{
    reveal_strlit("&amp;");
    reveal_strlit("&lt;");
    reveal_strlit("&gt;");
    reveal_strlit("&quot;");
    reveal_strlit("&apos;");
    lemma_replace_char(x, '&', "&amp;"@);
    lemma_replace_char(x, '<', "&lt;"@);
    lemma_replace_char(x, '>', "&gt;"@);
    lemma_replace_char(x, '"', "&quot;"@);
    lemma_replace_char(x, '\'', "&apos;"@);
    if x == '&' {
        lemma_replace_kept("&amp;"@, '<', "&lt;"@);
        lemma_replace_kept("&amp;"@, '>', "&gt;"@);
        lemma_replace_kept("&amp;"@, '"', "&quot;"@);
        lemma_replace_kept("&amp;"@, '\'', "&apos;"@);
    } else if x == '<' {
        lemma_replace_kept("&lt;"@, '>', "&gt;"@);
        lemma_replace_kept("&lt;"@, '"', "&quot;"@);
        lemma_replace_kept("&lt;"@, '\'', "&apos;"@);
    } else if x == '>' {
        lemma_replace_kept("&gt;"@, '"', "&quot;"@);
        lemma_replace_kept("&gt;"@, '\'', "&apos;"@);
    } else if x == '"' {
        lemma_replace_kept("&quot;"@, '\'', "&apos;"@);
    }
}

/// Characters are escaped one by one: the reserved ones become the entities that
/// stand for them, the others stay.
pub proof fn law_characters_are_escaped(a: Seq<char>, b: Seq<char>, x: char)
    ensures
        escaped(a + b) == escaped(a) + escaped(b),
        escaped(Seq::empty()).len() == 0,
        x == '&' ==> escaped(seq![x]) == "&amp;"@,
        x == '<' ==> escaped(seq![x]) == "&lt;"@,
        x == '>' ==> escaped(seq![x]) == "&gt;"@,
        x == '"' ==> escaped(seq![x]) == "&quot;"@,
        x == '\'' ==> escaped(seq![x]) == "&apos;"@,
        x != '&' && x != '<' && x != '>' && x != '"' && x != '\'' ==> escaped(seq![x]) == seq![x],
{
    lemma_escaped_char(x);
    lemma_replace_adds(a, b, '&', "&amp;"@);
    let a1 = replace(a, seq!['&'], "&amp;"@);
    let b1 = replace(b, seq!['&'], "&amp;"@);
    lemma_replace_adds(a1, b1, '<', "&lt;"@);
    let a2 = replace(a1, seq!['<'], "&lt;"@);
    let b2 = replace(b1, seq!['<'], "&lt;"@);
    lemma_replace_adds(a2, b2, '>', "&gt;"@);
    let a3 = replace(a2, seq!['>'], "&gt;"@);
    let b3 = replace(b2, seq!['>'], "&gt;"@);
    lemma_replace_adds(a3, b3, '"', "&quot;"@);
    let a4 = replace(a3, seq!['"'], "&quot;"@);
    let b4 = replace(b3, seq!['"'], "&quot;"@);
    lemma_replace_adds(a4, b4, '\'', "&apos;"@);
    let none = Seq::<char>::empty();
    lemma_replace_kept(none, '&', "&amp;"@);
    lemma_replace_kept(none, '<', "&lt;"@);
    lemma_replace_kept(none, '>', "&gt;"@);
    lemma_replace_kept(none, '"', "&quot;"@);
    lemma_replace_kept(none, '\'', "&apos;"@);
}

/// The cases that failed.
pub open spec fn failed_case() -> spec_fn(JunitCase) -> bool {
    |c: JunitCase| !c.passed
}

/// The failures of a report are the cases that did not pass.
pub proof fn law_failures_are_counted(v: Seq<JunitCase>, n: int)
    requires
        0 <= n <= v.len(),
    ensures
        failures(v, n) == v.take(n).filter(failed_case()).len(),
    decreases n,
{
    reveal(Seq::filter);
    if n > 0 {
        law_failures_are_counted(v, n - 1);
        assert(v.take(n).drop_last() =~= v.take(n - 1));
        assert(v.take(n).last() == v[n - 1]);
    }
}

/// A case is shown with its name and its time, and a failed one with its
/// message.
pub proof fn law_case_is_shown(name: Seq<char>, time: Seq<char>, message: Seq<char>)
    ensures
        case_text(CaseView { name, passed: true, time, message: Some(message) }) == "    <testcase name=\""@ + escaped(
            name,
        ) + "\" time=\""@ + time + "\"/>\n"@,
        case_text(CaseView { name, passed: false, time, message: Some(message) }) == "    <testcase name=\""@ + escaped(
            name,
        ) + "\" time=\""@ + time + "\">\n"@ + "      <failure message=\""@ + escaped(message) + "\"/>\n"@
            + "    </testcase>\n"@,
{
}

// ── Rows ────────────────────────────────────────────────────────────

/// A difference is written with its sign, and its digits are its amount; no
/// difference is a zero without a sign.
pub proof fn law_difference_has_its_sign(d: int)
    ensures
        d > 0 ==> delta_text(d)[0] == '+' && all_digits(delta_text(d).skip(1)) && digits_value(delta_text(d).skip(1))
            == d,
        d < 0 ==> delta_text(d)[0] == '-' && all_digits(delta_text(d).skip(1)) && digits_value(delta_text(d).skip(1))
            == -d,
        d == 0 ==> all_digits(delta_text(d)) && digits_value(delta_text(d)) == 0,
{
    law_signed_decimal_value(d);
    if d > 0 {
        law_decimal_value(d as nat);
        assert(delta_text(d).skip(1) =~= crate::number::decimal(d as nat));
    }
}

/// A latency is faster than its source just below 95 percent of it, and slower
/// just above 105 percent; nothing is either without a source.
pub proof fn law_latency_by_five_percent(source_us: nat, replay_us: nat)
    ensures
        latency_status_of(source_us as int, replay_us as int) == "FASTER"@ <==> source_us > 0 && 20 * replay_us < 19
            * source_us,
        latency_status_of(source_us as int, replay_us as int) == "SLOWER"@ <==> source_us > 0 && 20 * replay_us > 21
            * source_us,
        latency_status_of(source_us as int, replay_us as int) == "OK"@ <==> source_us == 0 || 19 * source_us <= 20
            * replay_us <= 21 * source_us,
{
    reveal_strlit("FASTER");
    reveal_strlit("SLOWER");
    reveal_strlit("OK");
    assert("FASTER"@[0] == 'F');
    assert("SLOWER"@[0] == 'S');
    assert("OK"@[0] == 'O');
}

} // verus!
