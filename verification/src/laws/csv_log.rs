//! Laws of PostgreSQL's log in comma-separated values.

use crate::capture::csv_log::{
    comma_parts, duration_statement, outside_quotes, parameter, record_entry, statement_text,
};
use crate::capture::fraction::{
    digits_end, fraction_value, is_infinite, lemma_value_below, rounds_up, ten_to, unsigned_decimal,
    whole_part, Decimal,
};
use crate::laws::numbers::{law_digits_behind_digits, lemma_ten_adds, lemma_ten_positive};
use crate::number::{all_digits, decimal, digits_value, law_decimal_read_back, law_decimal_value};
use crate::profile::Timestamp;
use crate::text::{
    ascii_upper, ascii_uppercase, find_from, is_digit, is_space, lemma_find_from, match_at, starts_with, trim,
    trim_end, trim_start,
};
use vstd::prelude::*;

verus! {

// ── Trimming ────────────────────────────────────────────────────────

/// A text without white space at its ends.
pub open spec fn is_trimmed(s: Seq<char>) -> bool {
    s.len() > 0 && !is_space(s[0]) && !is_space(s.last())
}

/// A text without white space at its ends is not changed by trimming, and white
/// space around it is taken off.
pub proof fn law_trim_takes_space_off(a: Seq<char>, s: Seq<char>, b: Seq<char>)
    requires
        is_trimmed(s),
        forall|i: int| 0 <= i < a.len() ==> is_space(#[trigger] a[i]),
        forall|i: int| 0 <= i < b.len() ==> is_space(#[trigger] b[i]),
    ensures
        trim(a + s + b) == s,
        trim_start(a + s + b) == s + b,
        trim(s) == s,
{
    lemma_trim_start_off(a, s + b);
    assert(a + s + b =~= a + (s + b));
    assert((s + b)[0] == s[0]);
    lemma_trim_end_off(s, b);
    assert(trim_start(s) == s);
    assert(trim_end(s) == s);
}

proof fn lemma_trim_start_off(a: Seq<char>, s: Seq<char>)
    requires
        s.len() > 0,
        !is_space(s[0]),
        forall|i: int| 0 <= i < a.len() ==> is_space(#[trigger] a[i]),
    ensures
        trim_start(a + s) == s,
    decreases a.len(),
{
    if a.len() == 0 {
        assert(a + s =~= s);
    } else {
        let t = a.skip(1);
        assert forall|i: int| 0 <= i < t.len() implies is_space(#[trigger] t[i]) by {
            assert(t[i] == a[i + 1]);
        }
        assert((a + s)[0] == a[0]);
        assert((a + s).skip(1) =~= t + s);
        lemma_trim_start_off(t, s);
    }
}

proof fn lemma_trim_end_off(s: Seq<char>, b: Seq<char>)
    requires
        s.len() > 0,
        !is_space(s.last()),
        forall|i: int| 0 <= i < b.len() ==> is_space(#[trigger] b[i]),
    ensures
        trim_end(s + b) == s,
    decreases b.len(),
{
    if b.len() == 0 {
        assert(s + b =~= s);
    } else {
        let t = b.drop_last();
        assert forall|i: int| 0 <= i < t.len() implies is_space(#[trigger] t[i]) by {
            assert(t[i] == b[i]);
        }
        assert((s + b).last() == b[b.len() - 1]);
        assert((s + b).drop_last() =~= s + t);
        lemma_trim_end_off(s, t);
    }
}

// ── Durations ───────────────────────────────────────────────────────

proof fn lemma_digits_run(s: Seq<char>, i: int, e: int)
    requires
        0 <= i <= e <= s.len(),
        forall|k: int| i <= k < e ==> is_digit(#[trigger] s[k]),
        e == s.len() || !is_digit(s[e]),
    ensures
        digits_end(s, i) == e,
    decreases e - i,
{
    if i < e {
        assert(is_digit(s[i]));
        lemma_digits_run(s, i + 1, e);
    }
}

/// A number with digits on both sides of a point, read in a unit `places` powers
/// of ten smaller: the nearest whole number of that unit, a half going up, or
/// the whole part where it is cut off; the greatest number where it is greater.
pub proof fn law_fraction_is_read(w: Seq<char>, f: Seq<char>, places: int, round: bool) -> (us: nat)
    requires
        w.len() > 0,
        all_digits(w),
        all_digits(f),
        0 <= places,
    ensures
        fraction_value(w + seq!['.'] + f, places, round) == Some(
            if us > u64::MAX {
                u64::MAX
            } else {
                us as u64
            },
        ),
        ({
            let unit = ten_to(f.len() as int) as int;
            let value = digits_value(w + f) * ten_to(places);
            if round {
                -unit < 2 * (us * unit - value) <= unit
            } else {
                us * unit <= value < (us + 1) * unit
            }
        }),
{
    let s = w + seq!['.'] + f;
    let n = w.len() as int;
    let k = f.len() as int;
    assert(is_digit(w[0]));
    assert(s[0] == w[0]);
    assert(forall|i: int| 0 <= i < n ==> s[i] == w[i]);
    assert(s[n] == '.');
    assert forall|i: int| 0 <= i < n implies is_digit(#[trigger] s[i]) by {
        assert(is_digit(w[i]));
    }
    assert forall|i: int| n + 1 <= i < s.len() implies is_digit(#[trigger] s[i]) by {
        assert(is_digit(f[i - n - 1]));
    }
    lemma_digits_run(s, 0, n);
    lemma_digits_run(s, n + 1, s.len() as int);
    lemma_no_word(s);
    let d = Decimal { digits: w + f, point: n };
    let q = w + f;
    assert(s.take(n) =~= w);
    assert(s.subrange(n + 1, s.len() as int) =~= f);
    assert(w + Seq::<char>::empty() =~= w);
    assert(k == 0 ==> q =~= w);
    assert(unsigned_decimal(s) == Some(d));
    assert(all_digits(q)) by {
        assert forall|i: int| 0 <= i < q.len() implies is_digit(#[trigger] q[i]) by {
            if i < n {
                assert(is_digit(w[i]));
            } else {
                assert(is_digit(f[i - n]));
            }
        }
    }
    let p = n + places;
    let up = round && rounds_up(d, places);
    let us = (whole_part(d, places) + (if up { 1nat } else { 0nat })) as nat;
    let unit = ten_to(k) as int;
    let v = digits_value(q) as int;
    let t = ten_to(places) as int;
    lemma_ten_positive(k);
    if p <= q.len() {
        let keep = q.take(p);
        let cut = q.skip(p);
        assert(keep + cut =~= q);
        law_digits_behind_digits(keep, cut);
        assert(all_digits(cut)) by {
            assert forall|i: int| 0 <= i < cut.len() implies is_digit(#[trigger] cut[i]) by {
                assert(is_digit(q[i + p]));
            }
        }
        lemma_value_below(cut);
        let c = k - places;
        assert(cut.len() == c);
        lemma_ten_adds(places, c);
        let x = ten_to(c) as int;
        let a = digits_value(keep) as int;
        let r = digits_value(cut) as int;
        assert(unit == t * x);
        assert(v == a * x + r);
        lemma_half(cut);
        assert(round && c > 0 ==> (up <==> 2 * r >= x)) by {
            if c > 0 {
                assert(q[p] == cut[0]);
            }
        }
        assert(v * t == a * unit + r * t) by (nonlinear_arith)
            requires
                v == a * x + r,
                unit == t * x,
        ;
        let u = if up { 1int } else { 0int };
        assert(us == a + u);
        lemma_ten_positive(places);
        assert((a + u) * unit == a * unit + u * unit) by (nonlinear_arith);
        assert(0 <= r * t < unit) by (nonlinear_arith)
            requires
                0 <= r < x,
                t > 0,
                unit == t * x,
        ;
        if c == 0 {
            assert(r == 0);
            assert(r * t == 0);
        } else {
            assert(2 * r >= x ==> 2 * (r * t) >= unit) by (nonlinear_arith)
                requires
                    t > 0,
                    unit == t * x,
            ;
            assert(2 * r < x ==> 2 * (r * t) < unit) by (nonlinear_arith)
                requires
                    t > 0,
                    unit == t * x,
            ;
        }
        assert((a + 1) * unit == a * unit + unit) by (nonlinear_arith);
    } else {
        let c = p - q.len();
        assert(c == places - k);
        lemma_ten_adds(c, k);
        let x = ten_to(c) as int;
        assert((v * x) * unit == v * (x * unit)) by (nonlinear_arith);
        assert((v * x + 1) * unit == (v * x) * unit + unit) by (nonlinear_arith);
    }
    us
}

proof fn lemma_half(d: Seq<char>)
    requires
        all_digits(d),
    ensures
        d.len() > 0 ==> (d[0] >= '5' <==> 2 * digits_value(d) >= ten_to(d.len() as int)),
{
    if d.len() > 0 {
        let a = d.take(1);
        let b = d.skip(1);
        assert(a + b =~= d);
        law_digits_behind_digits(a, b);
        assert(all_digits(b)) by {
            assert forall|i: int| 0 <= i < b.len() implies is_digit(#[trigger] b[i]) by {
                assert(is_digit(d[i + 1]));
            }
        }
        lemma_value_below(b);
        assert(is_digit(d[0]));
        assert(a.drop_last() =~= Seq::<char>::empty());
        assert(digits_value(Seq::<char>::empty()) == 0);
        let v = ((d[0] as u32) - 48) as int;
        assert(digits_value(a) == v);
        let t = ten_to(b.len() as int) as int;
        assert(ten_to(d.len() as int) == 10 * t);
        if d[0] >= '5' {
            assert(v * t >= 5 * t) by (nonlinear_arith)
                requires
                    v >= 5,
                    t >= 0,
            ;
        } else {
            assert(v * t <= 4 * t) by (nonlinear_arith)
                requires
                    v <= 4,
                    t >= 0,
            ;
        }
    }
}

proof fn lemma_no_word(s: Seq<char>)
    requires
        s.len() > 0,
        is_digit(s[0]),
    ensures
        !is_infinite(s),
        ascii_uppercase(s) != "NAN"@,
{
    reveal_strlit("INF");
    reveal_strlit("INFINITY");
    reveal_strlit("NAN");
    assert(ascii_uppercase(s)[0] == s[0]);
}

proof fn lemma_digit_chars(s: Seq<char>, i: int)
    requires
        0 <= i <= s.len(),
    ensures
        i <= digits_end(s, i) <= s.len(),
        forall|k: int| i <= k < digits_end(s, i) ==> is_digit(#[trigger] s[k]),
    decreases s.len() - i,
{
    if i < s.len() && is_digit(s[i]) {
        lemma_digit_chars(s, i + 1);
    }
}

proof fn lemma_number_chars(s: Seq<char>, places: int, round: bool)
    requires
        fraction_value(s, places, round) is Some,
    ensures
        s.len() > 0,
        s[0] != 'm',
        forall|i: int| 0 <= i < s.len() ==> !is_space(#[trigger] s[i]),
{
    reveal_strlit("INF");
    reveal_strlit("INFINITY");
    reveal_strlit("NAN");
    let signed = s.len() > 0 && (s[0] == '+' || s[0] == '-');
    let body = if signed { s.skip(1) } else { s };
    assert(ascii_uppercase(body).len() == body.len());
    if is_infinite(body) || ascii_uppercase(body) == "NAN"@ {
        assert forall|i: int| 0 <= i < body.len() implies !is_space(#[trigger] body[i]) && body[i] != 'm' by {
            assert(ascii_uppercase(body)[i] == ascii_upper(body[i]));
        }
    } else {
        let w = digits_end(body, 0);
        lemma_digit_chars(body, 0);
        let f = if w < body.len() && body[w] == '.' { digits_end(body, w + 1) } else { w };
        if w < body.len() && body[w] == '.' {
            lemma_digit_chars(body, w + 1);
        }
        if f < body.len() {
            let s2 = f + 1 < body.len() && (body[f + 1] == '+' || body[f + 1] == '-');
            lemma_digit_chars(body, if s2 { f + 2 } else { f + 1 });
        }
        assert forall|i: int| 0 <= i < body.len() implies !is_space(#[trigger] body[i]) && body[i] != 'm' by {
            if i < w {
                assert(is_digit(body[i]));
            } else if i > w && i < f {
                assert(is_digit(body[i]));
            }
        }
    }
    assert forall|i: int| 0 <= i < s.len() implies !is_space(#[trigger] s[i]) && s[i] != 'm' by {
        if signed && i > 0 {
            assert(body[i - 1] == s[i]);
        } else if !signed {
            assert(body[i] == s[i]);
        }
    }
}

// ── Messages ────────────────────────────────────────────────────────

proof fn lemma_message(d: Seq<char>, content: Seq<char>)
    requires
        fraction_value(d, 3, true) is Some,
        content.len() > 0,
        !is_space(content[0]),
        !is_space(content.last()),
    ensures
        duration_statement("duration: "@ + d + " ms  "@ + content) == (match statement_text(content) {
            Some(sql) => if sql.len() > 0 {
                Some((fraction_value(d, 3, true)->0, sql))
            } else {
                None
            },
            None => None,
        }),
{
    let m = "duration: "@ + d + " ms  "@ + content;
    let n = d.len() as int;
    reveal_strlit("duration: ");
    reveal_strlit("duration:");
    reveal_strlit(" ms  ");
    reveal_strlit(" ms");
    lemma_number_chars(d, 3, true);
    assert(m[0] == 'd');
    assert(m.last() == content.last());
    assert(trim(m) == m) by {
        law_trim_takes_space_off(Seq::empty(), m, Seq::empty());
    }
    assert(m.subrange(0, 9) =~= "duration:"@);
    assert(m.subrange(10 + n, 13 + n) =~= " ms"@);
    assert(match_at(m, " ms"@, 10 + n));
    assert forall|k: int| 0 <= k < 10 + n implies !match_at(m, " ms"@, k) by {
        if match_at(m, " ms"@, k) {
            assert(m.subrange(k, k + 3)[0] == ' ');
            assert(m.subrange(k, k + 3)[1] == 'm');
            assert(m[k] == ' ' && m[k + 1] == 'm');
            if k < 10 {
                assert(m[k] == "duration: "@[k]);
                assert(k == 9);
                assert(m[10] == d[0]);
            } else {
                assert(m[k] == d[k - 10]);
                assert(is_space(d[k - 10]));
            }
        }
    }
    lemma_find_from(m, " ms"@, 0);
    assert(find_from(m, " ms"@, 0) == Some(10 + n));
    assert(m.subrange(10, 10 + n) =~= d);
    assert(trim(d) == d) by {
        law_trim_takes_space_off(Seq::empty(), d, Seq::empty());
    }
    let rest = m.skip(13 + n);
    let gap = seq![' ', ' '];
    assert(rest =~= gap + content);
    law_trim_takes_space_off(gap, content, Seq::empty());
    assert(gap + content + Seq::<char>::empty() =~= gap + content);
    assert(content + Seq::<char>::empty() =~= content);
}

/// A logged statement is captured whole, line breaks and all, with the duration
/// that stands before it.
pub proof fn law_logged_statement_is_captured(d: Seq<char>, sql: Seq<char>)
    requires
        fraction_value(d, 3, true) is Some,
        is_trimmed(sql),
    ensures
        duration_statement("duration: "@ + d + " ms  statement: "@ + sql) == Some(
            (fraction_value(d, 3, true)->0, sql),
        ),
{
    let content = "statement: "@ + sql;
    reveal_strlit("statement: ");
    reveal_strlit(" ms  statement: ");
    reveal_strlit(" ms  ");
    assert(content.last() == sql.last());
    lemma_message(d, content);
    assert(content.subrange(0, 11) =~= "statement: "@);
    assert(content.skip(11) =~= sql);
    assert("duration: "@ + d + " ms  statement: "@ + sql =~= "duration: "@ + d + " ms  "@ + content);
}

/// A statement that was executed by name is captured whole, too, whatever its
/// name.
pub proof fn law_executed_statement_is_captured(d: Seq<char>, name: Seq<char>, sql: Seq<char>)
    requires
        fraction_value(d, 3, true) is Some,
        name.len() > 0,
        !is_space(name[0]),
        forall|i: int| 0 <= i < name.len() ==> #[trigger] name[i] != ':',
        is_trimmed(sql),
    ensures
        duration_statement("duration: "@ + d + " ms  execute "@ + name + ": "@ + sql) == Some(
            (fraction_value(d, 3, true)->0, sql),
        ),
{
    let content = "execute "@ + name + ": "@ + sql;
    reveal_strlit("execute ");
    reveal_strlit("execute");
    reveal_strlit(": ");
    reveal_strlit("statement: ");
    reveal_strlit(" ms  execute ");
    reveal_strlit(" ms  ");
    assert(content.last() == sql.last());
    assert(content[0] == 'e');
    lemma_message(d, content);
    assert(!starts_with(content, "statement: "@)) by {
        if starts_with(content, "statement: "@) {
            assert(content.subrange(0, 11)[0] == 's');
        }
    }
    assert(content.subrange(0, 7) =~= "execute"@);
    let body = name + ": "@ + sql;
    let gap = seq![' '];
    assert(content.skip(7) =~= gap + body);
    assert(body[0] == name[0]);
    assert(body.last() == sql.last());
    law_trim_takes_space_off(gap, body, Seq::empty());
    assert(gap + body + Seq::<char>::empty() =~= gap + body);
    assert(body + Seq::<char>::empty() =~= body);
    let n = name.len() as int;
    assert(body.subrange(n, n + 2) =~= ": "@);
    assert(match_at(body, ": "@, n));
    assert forall|k: int| 0 <= k < n implies !match_at(body, ": "@, k) by {
        if match_at(body, ": "@, k) {
            assert(body.subrange(k, k + 2)[0] == ':');
            assert(body[k] == name[k]);
        }
    }
    lemma_find_from(body, ": "@, 0);
    assert(body.skip(n + 2) =~= sql);
    assert("duration: "@ + d + " ms  execute "@ + name + ": "@ + sql =~= "duration: "@ + d + " ms  "@ + content);
}

/// Entries of other kinds, such as `parse` and `bind`, hold no executed
/// statement, and a message that does not begin with a duration does not either.
pub proof fn law_other_messages_hold_no_statement(d: Seq<char>, content: Seq<char>, m: Seq<char>)
    ensures
        fraction_value(d, 3, true) is Some && is_trimmed(content) && !starts_with(content, "statement: "@)
            && !starts_with(content, "execute"@) ==> duration_statement("duration: "@ + d + " ms  "@ + content)
            is None,
        !starts_with(trim(m), "duration:"@) ==> duration_statement(m) is None,
{
    if fraction_value(d, 3, true) is Some && is_trimmed(content) {
        lemma_message(d, content);
    }
}

// ── Parameters ──────────────────────────────────────────────────────

/// A parameter is read with the number and the value that were written.
pub proof fn law_parameter_is_read(n: nat, v: Seq<char>)
    requires
        n <= usize::MAX,
        is_trimmed(v),
    ensures
        parameter(seq!['$'] + decimal(n) + " = "@ + v) == Some((n, v)),
{
    let part = seq!['$'] + decimal(n) + " = "@ + v;
    let p = decimal(n) + " = "@ + v;
    reveal_strlit(" = ");
    law_decimal_value(n);
    assert(part[0] == '$');
    assert(part.skip(1) =~= p);
    let e = decimal(n).len() as int;
    assert(p.subrange(e, e + 3) =~= " = "@);
    assert(match_at(p, " = "@, e));
    assert forall|k: int| 0 <= k < e implies !match_at(p, " = "@, k) by {
        if match_at(p, " = "@, k) {
            assert(p.subrange(k, k + 3)[0] == ' ');
            assert(p[k] == decimal(n)[k]);
            assert(is_digit(decimal(n)[k]));
        }
    }
    lemma_find_from(p, " = "@, 0);
    assert(p.take(e) =~= decimal(n));
    assert(p.skip(e + 3) =~= v);
    law_decimal_read_back(n, usize::MAX as nat);
    assert(is_digit(decimal(n)[0]));
    assert(is_digit(decimal(n)[e - 1]));
    law_trim_takes_space_off(Seq::empty(), decimal(n), Seq::empty());
    law_trim_takes_space_off(Seq::empty(), v, Seq::empty());
}

/// Parts with `, ` between them.
pub open spec fn listed(parts: Seq<Seq<char>>) -> Seq<char>
    decreases parts.len(),
{
    if parts.len() == 0 {
        Seq::empty()
    } else if parts.len() == 1 {
        parts[0]
    } else {
        parts[0] + seq![',', ' '] + listed(parts.skip(1))
    }
}

/// A part of a list: trimmed, its quotes in pairs, and no comma outside of them.
pub open spec fn is_part(s: Seq<char>) -> bool {
    is_trimmed(s) && outside_quotes(s, s.len() as int) && forall|i: int|
        0 <= i < s.len() && #[trigger] s[i] == ',' ==> !outside_quotes(s, i)
}

proof fn lemma_outside_shift(s: Seq<char>, p: int, i: int)
    requires
        0 <= p <= s.len(),
        0 <= i <= s.len() - p,
        outside_quotes(s, p),
    ensures
        outside_quotes(s, p + i) == outside_quotes(s.skip(p), i),
    decreases i,
{
    if i > 0 {
        lemma_outside_shift(s, p, i - 1);
        assert(s.skip(p)[i - 1] == s[p + i - 1]);
    }
}

proof fn lemma_outside_prefix(s: Seq<char>, t: Seq<char>, i: int)
    requires
        0 <= i <= s.len(),
    ensures
        outside_quotes(s + t, i) == outside_quotes(s, i),
    decreases i,
{
    if i > 0 {
        lemma_outside_prefix(s, t, i - 1);
        assert((s + t)[i - 1] == s[i - 1]);
    }
}

proof fn lemma_parts_of(s: Seq<char>, start: int, i: int, e: int)
    requires
        0 <= start <= i <= e <= s.len(),
        forall|k: int| i <= k < e && #[trigger] s[k] == ',' ==> !outside_quotes(s, k),
    ensures
        comma_parts(s, start, i) == comma_parts(s, start, e),
    decreases e - i,
{
    if i < e {
        lemma_parts_of(s, start, i + 1, e);
        assert(s[i] == s[i]);
    }
}

proof fn lemma_parts_shift(s: Seq<char>, p: int, start: int, i: int)
    requires
        0 <= p <= s.len(),
        0 <= start <= i <= s.len() - p,
        outside_quotes(s, p),
    ensures
        comma_parts(s, p + start, p + i) == comma_parts(s.skip(p), start, i),
    decreases s.len() - i,
{
    let t = s.skip(p);
    if i >= t.len() {
        assert(s.subrange(p + start, s.len() as int) =~= t.subrange(start, t.len() as int));
    } else {
        lemma_outside_shift(s, p, i);
        assert(t[i] == s[p + i]);
        assert(s.subrange(p + start, p + i) =~= t.subrange(start, i));
        lemma_parts_shift(s, p, start, i + 1);
        if s[p + i] == ',' && outside_quotes(s, p + i) {
            lemma_parts_shift(s, p, i + 1, i + 1);
        }
    }
}

proof fn lemma_leading_space(t: Seq<char>)
    requires
        t.len() > 0,
    ensures
        comma_parts(seq![' '] + t, 0, 0) == comma_parts(t, 0, 0),
{
    let s = seq![' '] + t;
    assert(s[0] == ' ');
    assert(outside_quotes(s, 1)) by {
        reveal_with_fuel(outside_quotes, 2);
    }
    assert(s.skip(1) =~= t);
    assert(comma_parts(s, 0, 0) == comma_parts(s, 0, 1));
    lemma_parts_shift(s, 1, 0, 0);
    lemma_first_space(s, 1);
}

proof fn lemma_first_space(s: Seq<char>, i: int)
    requires
        1 <= i <= s.len(),
        s[0] == ' ',
    ensures
        comma_parts(s, 0, i) == comma_parts(s, 1, i),
    decreases s.len() - i,
{
    if i >= s.len() {
        lemma_trim_space(s.subrange(0, s.len() as int), s.subrange(1, s.len() as int));
    } else {
        lemma_first_space(s, i + 1);
        lemma_trim_space(s.subrange(0, i), s.subrange(1, i));
    }
}

proof fn lemma_trim_space(a: Seq<char>, b: Seq<char>)
    requires
        a.len() > 0,
        a[0] == ' ',
        a.skip(1) =~= b,
    ensures
        trim(a) == trim(b),
{
}

/// The parts of a list are those that it was made of.
pub proof fn law_list_is_split_into_its_parts(parts: Seq<Seq<char>>)
    requires
        forall|i: int| 0 <= i < parts.len() ==> is_part(#[trigger] parts[i]),
    ensures
        comma_parts(listed(parts), 0, 0) == parts,
    decreases parts.len(),
{
    let s = listed(parts);
    if parts.len() == 0 {
        assert(s.subrange(0, 0) =~= Seq::<char>::empty());
        assert(trim(Seq::<char>::empty()).len() == 0);
        assert(comma_parts(s, 0, 0) =~= parts);
    } else {
        let a = parts[0];
        let n = a.len() as int;
        assert(is_part(a));
        law_trim_takes_space_off(Seq::empty(), a, Seq::empty());
        if parts.len() == 1 {
            lemma_parts_of(s, 0, 0, n);
            assert(s.subrange(0, n) =~= a);
            assert(comma_parts(s, 0, 0) =~= parts);
        } else {
            let rest = parts.skip(1);
            let t = seq![',', ' '] + listed(rest);
            assert(s =~= a + t);
            assert forall|k: int| 0 <= k < n && #[trigger] s[k] == ',' implies !outside_quotes(s, k) by {
                lemma_outside_prefix(a, t, k);
                assert(a[k] == s[k]);
            }
            lemma_outside_prefix(a, t, n);
            lemma_parts_of(s, 0, 0, n);
            assert(s[n] == ',');
            assert(s.subrange(0, n) =~= a);
            assert(outside_quotes(s, n + 1));
            let after = s.skip(n + 1);
            assert(after =~= seq![' '] + listed(rest));
            lemma_parts_shift(s, n + 1, 0, 0);
            assert forall|i: int| 0 <= i < rest.len() implies is_part(#[trigger] rest[i]) by {
                assert(rest[i] == parts[i + 1]);
            }
            law_list_is_split_into_its_parts(rest);
            assert(is_part(rest[0]));
            lemma_listed_nonempty(rest);
            lemma_leading_space(listed(rest));
            assert(seq![a] + rest =~= parts);
        }
    }
}

proof fn lemma_listed_nonempty(parts: Seq<Seq<char>>)
    requires
        parts.len() > 0,
        parts[0].len() > 0,
    ensures
        listed(parts).len() > 0,
        listed(parts)[0] == parts[0][0],
{
}

// ── Records ─────────────────────────────────────────────────────────

/// A record is an entry just where its level is LOG and its message holds an
/// executed statement: with the user and the database of the record, the session
/// and the time given, and the duration of the message.
pub proof fn law_record_is_an_entry(record: Seq<Seq<char>>, time: Timestamp, session: u64)
    requires
        record.len() > 13,
    ensures
        record_entry(record, time, session) is Some <==> record[11] == "LOG"@ && duration_statement(record[13])
            is Some,
        record_entry(record, time, session) matches Some(e) ==> {
            let (us, sql) = duration_statement(record[13])->0;
            &&& e.session == session
            &&& e.time == Some(time)
            &&& e.user == record[1]
            &&& e.database == record[2]
            &&& e.keep
            &&& e.duration_us == us
            &&& record.len() <= 14 ==> e.sql == sql
        },
{
}

/// A statement without a dollar sign is kept as it is, whatever the parameters.
pub proof fn law_statement_without_placeholders_is_kept(
    record: Seq<Seq<char>>,
    time: Timestamp,
    session: u64,
    us: u64,
    sql: Seq<char>,
)
    requires
        record.len() > 13,
        record[11] == "LOG"@,
        duration_statement(record[13]) == Some((us, sql)),
        forall|i: int| 0 <= i < sql.len() ==> #[trigger] sql[i] != '$',
    ensures
        record_entry(record, time, session) is Some,
        record_entry(record, time, session)->0.sql == sql,
{
    reveal_strlit("$");
    assert forall|i: int| !match_at(sql, "$"@, i) by {
        if match_at(sql, "$"@, i) {
            assert(sql.subrange(i, i + 1)[0] == '$');
            assert(sql[i] == '$');
        }
    }
}

} // verus!
