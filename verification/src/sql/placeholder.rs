//! Numbered placeholders, `$1`, `$2` and so on, replaced by values.

use crate::number::{all_digits, digits_to_u64, digits_value};
use crate::text::{char_is_digit, is_digit, to_chars};
use vstd::prelude::*;
use vstd::slice::slice_subrange;

verus! {

/// The end of the digits from `i` on.
pub open spec fn digits_until(c: Seq<char>, i: int) -> int
    decreases c.len() - i,
{
    if 0 <= i < c.len() && is_digit(c[i]) {
        digits_until(c, i + 1)
    } else {
        i
    }
}

/// The value with a number, the first of several.
pub open spec fn value_of(ps: Seq<(nat, Seq<char>)>, n: nat) -> Option<Seq<char>>
    decreases ps.len(),
{
    if ps.len() == 0 {
        None
    } else if ps[0].0 == n {
        Some(ps[0].1)
    } else {
        value_of(ps.skip(1), n)
    }
}

/// Whether the digits from `i` to `e` are a number without needless zeros.
pub open spec fn is_number(c: Seq<char>, i: int, e: int) -> bool {
    i < e && (c[i] != '0' || e == i + 1)
}

/// The value for the placeholder at `i`: a `$` and all digits that follow it,
/// whose number has a value. A number does not begin with a needless zero.
pub open spec fn placeholder_at(c: Seq<char>, i: int, ps: Seq<(nat, Seq<char>)>) -> Option<Seq<char>> {
    if 0 <= i < c.len() && c[i] == '$' && is_number(c, i + 1, digits_until(c, i + 1)) {
        value_of(ps, digits_value(c.subrange(i + 1, digits_until(c, i + 1))))
    } else {
        None
    }
}

/// A text from `i` on with its placeholders replaced, in one pass from left to
/// right: what is put in is not looked at again.
pub open spec fn filled_from(c: Seq<char>, i: int, ps: Seq<(nat, Seq<char>)>) -> Seq<char>
    decreases c.len() - i,
    via filled_from_ends
{
    if i < 0 || i >= c.len() {
        Seq::empty()
    } else {
        match placeholder_at(c, i, ps) {
            Some(v) => v + filled_from(c, digits_until(c, i + 1), ps),
            None => seq![c[i]] + filled_from(c, i + 1, ps),
        }
    }
}

#[via_fn]
proof fn filled_from_ends(c: Seq<char>, i: int, ps: Seq<(nat, Seq<char>)>) {
    if 0 <= i < c.len() {
        lemma_digits_until(c, i + 1);
    }
}

/// A text with its placeholders replaced.
pub open spec fn filled(c: Seq<char>, ps: Seq<(nat, Seq<char>)>) -> Seq<char> {
    filled_from(c, 0, ps)
}

proof fn lemma_digits_until(c: Seq<char>, i: int)
    requires
        0 <= i <= c.len(),
    ensures
        i <= digits_until(c, i) <= c.len(),
        all_digits(c.subrange(i, digits_until(c, i))),
    decreases c.len() - i,
{
    if i < c.len() && is_digit(c[i]) {
        lemma_digits_until(c, i + 1);
        let e = digits_until(c, i + 1);
        assert forall|k: int| 0 <= k < e - i implies is_digit(#[trigger] c.subrange(i, e)[k]) by {
            if k > 0 {
                assert(c.subrange(i + 1, e)[k - 1] == c.subrange(i, e)[k]);
            }
        }
    }
}

proof fn lemma_without_placeholders(c: Seq<char>, i: int, ps: Seq<(nat, Seq<char>)>)
    requires
        0 <= i <= c.len(),
        forall|k: int| i <= k < c.len() ==> placeholder_at(c, k, ps) is None,
    ensures
        filled_from(c, i, ps) == c.skip(i),
    decreases c.len() - i,
{
    if i < c.len() {
        lemma_without_placeholders(c, i + 1, ps);
        assert(placeholder_at(c, i, ps) is None);
        assert(seq![c[i]] + c.skip(i + 1) =~= c.skip(i));
    } else {
        assert(c.skip(i) =~= Seq::<char>::empty());
    }
}

/// A text without placeholders that have a value stays as it is.
pub proof fn law_without_placeholders_unchanged(c: Seq<char>, ps: Seq<(nat, Seq<char>)>)
    requires
        forall|k: int| 0 <= k < c.len() ==> placeholder_at(c, k, ps) is None,
    ensures
        filled(c, ps) == c,
{
    lemma_without_placeholders(c, 0, ps);
    assert(c.skip(0) =~= c);
}

proof fn lemma_prefix_without_dollar(a: Seq<char>, b: Seq<char>, i: int, ps: Seq<(nat, Seq<char>)>)
    requires
        0 <= i <= a.len(),
        forall|k: int| 0 <= k < a.len() ==> (#[trigger] a[k]) != '$',
    ensures
        filled_from(a + b, i, ps) == a.skip(i) + filled_from(a + b, a.len() as int, ps),
    decreases a.len() - i,
{
    let c = a + b;
    if i < a.len() {
        assert(c[i] == a[i]);
        assert(placeholder_at(c, i, ps) is None);
        lemma_prefix_without_dollar(a, b, i + 1, ps);
        assert(seq![a[i]] + (a.skip(i + 1) + filled_from(c, a.len() as int, ps)) =~= a.skip(i) + filled_from(
            c,
            a.len() as int,
            ps,
        ));
    } else {
        assert(a.skip(i) + filled_from(c, i, ps) =~= filled_from(c, i, ps));
    }
}

/// What is put in for a placeholder stands in the result as it is, whatever it
/// holds: behind it the text goes on behind the placeholder.
pub proof fn law_values_are_not_searched(a: Seq<char>, b: Seq<char>, ps: Seq<(nat, Seq<char>)>)
    requires
        forall|k: int| 0 <= k < a.len() ==> (#[trigger] a[k]) != '$',
        placeholder_at(a + b, a.len() as int, ps) is Some,
    ensures
        filled(a + b, ps) == a + placeholder_at(a + b, a.len() as int, ps)->0 + filled_from(
            a + b,
            digits_until(a + b, a.len() as int + 1),
            ps,
        ),
{
    let c = a + b;
    let n = a.len() as int;
    lemma_prefix_without_dollar(a, b, 0, ps);
    assert(a.skip(0) =~= a);
    let v = placeholder_at(c, n, ps)->0;
    assert(a + (v + filled_from(c, digits_until(c, n + 1), ps)) =~= a + v + filled_from(
        c,
        digits_until(c, n + 1),
        ps,
    ));
}

/// The models of numbered values.
pub open spec fn numbered_views(v: Seq<(usize, String)>) -> Seq<(nat, Seq<char>)> {
    Seq::new(v.len(), |i: int| (v[i].0 as nat, v[i].1@))
}

fn find_value(params: &[(usize, String)], n: u64) -> (r: Option<usize>)
    ensures
        match r {
            Some(k) => k < params@.len() && value_of(numbered_views(params@), n as nat) == Some(params@[k as int].1@),
            None => value_of(numbered_views(params@), n as nat) is None,
        },
{
    let ghost ps = numbered_views(params@);
    proof {
        assert(ps.skip(0) =~= ps);
    }
    for k in 0..params.len()
        invariant
            ps == numbered_views(params@),
            value_of(ps, n as nat) == value_of(ps.skip(k as int), n as nat),
    {
        proof {
            assert(ps.skip(k as int)[0] == ps[k as int]);
            assert(ps.skip(k as int).skip(1) =~= ps.skip(k + 1));
        }
        if params[k].0 as u64 == n {
            return Some(k);
        }
    }
    None
}

proof fn lemma_no_great_number(ps: Seq<(nat, Seq<char>)>, n: nat)
    requires
        forall|k: int| 0 <= k < ps.len() ==> (#[trigger] ps[k]).0 < n,
    ensures
        value_of(ps, n) is None,
    decreases ps.len(),
{
    if ps.len() > 0 {
        let t = ps.skip(1);
        assert forall|k: int| 0 <= k < t.len() implies (#[trigger] t[k]).0 < n by {
            assert(t[k] == ps[k + 1]);
        }
        lemma_no_great_number(t, n);
        assert(ps[0].0 < n);
    }
}

/// Replaces the placeholders of a text by values.
pub fn fill(sql: &str, params: &[(usize, String)]) -> (r: String)
    ensures
        r@ == filled(sql@, numbered_views(params@)),
{
    let c = to_chars(sql);
    let n: usize = c.len();
    let ghost ps = numbered_views(params@);
    let mut out = String::new();
    let mut i: usize = 0;
    proof {
        assert(out@ + filled(c@, ps) =~= filled(c@, ps));
    }
    while i < n
        invariant
            i <= n,
            n == c@.len(),
            c@ == sql@,
            ps == numbered_views(params@),
            out@ + filled_from(c@, i as int, ps) == filled(c@, ps),
        decreases n - i,
    {
        let ghost before = out@;
        let mut end: usize = i + 1;
        while end < n && char_is_digit(c[end])
            invariant
                i < end <= n,
                n == c@.len(),
                digits_until(c@, i + 1) == digits_until(c@, end as int),
            decreases n - end,
        {
            end = end + 1;
        }
        let mut value: Option<usize> = None;
        proof {
            lemma_digits_until(c@, i + 1);
        }
        if c[i] == '$' && end > i + 1 && (c[i + 1] != '0' || end == i + 2) {
            let digits = slice_subrange(c.as_slice(), i + 1, end);
            match digits_to_u64(digits, u64::MAX) {
                Some(number) => {
                    value = find_value(params, number);
                },
                None => {
                    proof {
                        assert forall|k: int| 0 <= k < ps.len() implies (#[trigger] ps[k]).0 < digits_value(
                            digits@,
                        ) by {}
                        lemma_no_great_number(ps, digits_value(digits@));
                    }
                },
            }
        }
        match value {
            Some(k) => {
                out.push_str(params[k].1.as_str());
                proof {
                    assert(out@ + filled_from(c@, end as int, ps) =~= before + (params@[k as int].1@ + filled_from(
                        c@,
                        end as int,
                        ps,
                    )));
                }
                i = end;
            },
            None => {
                out.push(c[i]);
                proof {
                    assert(out@ + filled_from(c@, i + 1, ps) =~= before + (seq![c@[i as int]] + filled_from(
                        c@,
                        i + 1,
                        ps,
                    )));
                }
                i = i + 1;
            },
        }
    }
    proof {
        assert(out@ + filled_from(c@, n as int, ps) =~= out@);
    }
    out
}

} // verus!
