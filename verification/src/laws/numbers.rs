//! Laws of numbers as text: decimals, and PostgreSQL's binary numerics.

use crate::capture::fraction::{lemma_value_below, ten_to};
use crate::number::{
    all_digits, decimal, digits_value, law_decimal_value, lemma_zeros_value, signed_decimal, zeros,
};
use crate::proxy::pg_binary::{
    are_groups, fitted, fraction_digits, group, groups_number, integer_part, law_numeric_has_value_of_groups,
    leading_groups, numeric_groups, numeric_value,
};
use crate::proxy::wire::{be_int, be_uint, field};
use crate::text::is_digit;
use vstd::prelude::*;

verus! {

// ── Decimals ────────────────────────────────────────────────────────

/// A number in decimal has no needless zero in front.
pub proof fn law_decimal_begins_without_zero(n: nat)
    ensures
        n > 0 ==> decimal(n)[0] != '0',
        n < 10 ==> decimal(n).len() == 1,
    decreases n,
{
    law_decimal_value(n);
    if n >= 10 {
        law_decimal_begins_without_zero(n / 10);
        law_decimal_value(n / 10);
        assert(decimal(n)[0] == decimal(n / 10)[0]);
    }
}

/// An integer is written as its digits, with a minus sign just where it is
/// negative.
pub proof fn law_signed_decimal_value(n: int)
    ensures
        n < 0 <==> signed_decimal(n)[0] == '-',
        n < 0 ==> all_digits(signed_decimal(n).skip(1)) && digits_value(signed_decimal(n).skip(1)) == -n,
        n >= 0 ==> all_digits(signed_decimal(n)) && digits_value(signed_decimal(n)) == n,
{
    let m = (if n < 0 { -n } else { n }) as nat;
    law_decimal_value(m);
    if n < 0 {
        assert(signed_decimal(n).skip(1) =~= decimal(m));
    } else {
        assert(is_digit(decimal(m)[0]));
    }
}

pub(crate) proof fn lemma_ten_adds(a: int, b: int)
    requires
        0 <= a,
        0 <= b,
    ensures
        ten_to(a + b) == ten_to(a) * ten_to(b),
        ten_to(a) > 0,
    decreases b,
{
    if b > 0 {
        lemma_ten_adds(a, b - 1);
        let x = ten_to(a) as int;
        let y = ten_to(b - 1) as int;
        assert(10 * (x * y) == x * (10 * y)) by (nonlinear_arith);
    } else {
        assert(ten_to(a) * 1 == ten_to(a));
        lemma_ten_positive(a);
    }
}

pub(crate) proof fn lemma_ten_positive(a: int)
    ensures
        ten_to(a) > 0,
    decreases a,
{
    if a > 0 {
        lemma_ten_positive(a - 1);
    }
}

/// Digits behind others move those by as many powers of ten.
pub proof fn law_digits_behind_digits(a: Seq<char>, b: Seq<char>)
    ensures
        digits_value(a + b) == digits_value(a) * ten_to(b.len() as int) + digits_value(b),
    decreases b.len(),
{
    if b.len() == 0 {
        assert(a + b =~= a);
        assert(digits_value(a) * 1 == digits_value(a));
    } else {
        let p = b.drop_last();
        assert((a + b).drop_last() =~= a + p);
        law_digits_behind_digits(a, p);
        let x = digits_value(a) as int;
        let t = ten_to(p.len() as int) as int;
        assert((x * t) * 10 == x * (10 * t)) by (nonlinear_arith);
    }
}

proof fn lemma_fill(a: Seq<char>, k: nat)
    ensures
        digits_value(a + zeros(k)) == digits_value(a) * ten_to(k as int),
{
    law_digits_behind_digits(a, zeros(k));
    lemma_zeros_value(k, Seq::empty());
    assert(zeros(k) + Seq::<char>::empty() =~= zeros(k));
    assert(digits_value(Seq::<char>::empty()) == 0);
}

// ── Binary numerics ─────────────────────────────────────────────────

proof fn lemma_groups_split(g: Seq<nat>, m: int, n: int)
    requires
        0 <= m <= n,
    ensures
        groups_number(g, 0, n) == groups_number(g, 0, m) * ten_to(4 * (n - m)) + groups_number(g, m, n),
    decreases n - m,
{
    if m < n {
        lemma_groups_split(g, m, n - 1);
        let x = groups_number(g, 0, m) as int;
        let t = ten_to(4 * (n - 1 - m)) as int;
        let k = 4 * (n - 1 - m);
        assert(ten_to(k + 4) == 10000 * ten_to(k)) by {
            assert(ten_to(k + 1) == 10 * ten_to(k));
            assert(ten_to(k + 2) == 10 * ten_to(k + 1));
            assert(ten_to(k + 3) == 10 * ten_to(k + 2));
            assert(ten_to(k + 4) == 10 * ten_to(k + 3));
        }
        assert((x * t) * 10000 == x * (10000 * t)) by (nonlinear_arith);
        assert(groups_number(g, m, n) == groups_number(g, m, n - 1) * 10000 + group(g, n - 1));
    } else {
        assert(groups_number(g, 0, m) * 1 == groups_number(g, 0, m));
    }
}

proof fn lemma_groups_behind(g: Seq<nat>, from: int, to: int)
    requires
        g.len() <= from,
    ensures
        groups_number(g, from, to) == 0,
    decreases to - from,
{
    if from < to {
        lemma_groups_behind(g, from, to - 1);
    }
}

/// The number of units of the last place, `d` digits behind the point, that the
/// groups of a numeric with this weight hold: the rest is cut off.
pub open spec fn in_last_place(g: Seq<nat>, weight: int, d: int) -> nat {
    let all = groups_number(g, 0, g.len() as int);
    let e = 4 * (weight + 1 - g.len()) + d;
    if e >= 0 {
        all * ten_to(e)
    } else {
        all / ten_to(-e)
    }
}

proof fn lemma_parts_value(g: Seq<nat>, weight: int, d: nat)
    requires
        are_groups(g),
        g.len() > 0,
    ensures
        ({
            let w = integer_part(g, weight);
            let f = fitted(fraction_digits(g, weight), d);
            &&& all_digits(w)
            &&& all_digits(f)
            &&& f.len() == d
            &&& digits_value(w) * ten_to(d as int) + digits_value(f) == in_last_place(g, weight, d as int)
        }),
{
    law_numeric_has_value_of_groups(g, weight);
    let n = g.len() as int;
    let w = integer_part(g, weight);
    let ff = fraction_digits(g, weight);
    let f = fitted(ff, d);
    let all = groups_number(g, 0, n) as int;
    let vw = digits_value(w) as int;
    let vf = digits_value(ff) as int;
    let len = ff.len() as int;
    if weight < n {
        assert(len == 4 * (n - 1 - weight));
        assert(vw * ten_to(len) + vf == all) by {
            if weight < 0 {
                assert(vw == 0);
                assert(0 * ten_to(len) == 0);
            } else {
                lemma_groups_split(g, weight + 1, n);
            }
        }
    } else {
        assert(len == 0 && vf == 0) by {
            assert(ff =~= Seq::<char>::empty());
            assert(digits_value(Seq::<char>::empty()) == 0);
        }
        lemma_groups_split(g, n, weight + 1);
        lemma_groups_behind(g, n, weight + 1);
        assert(vw == all * ten_to(4 * (weight + 1 - n)));
    }
    if len > d {
        let keep = ff.take(d as int);
        let cut = ff.skip(d as int);
        assert(keep + cut =~= ff);
        law_digits_behind_digits(keep, cut);
        assert(all_digits(keep)) by {
            assert forall|i: int| 0 <= i < keep.len() implies is_digit(#[trigger] keep[i]) by {
                assert(is_digit(ff[i]));
            }
        }
        assert(all_digits(cut)) by {
            assert forall|i: int| 0 <= i < cut.len() implies is_digit(#[trigger] cut[i]) by {
                assert(is_digit(ff[i + d]));
            }
        }
        lemma_value_below(cut);
        let t = ten_to(len - d) as int;
        let u = ten_to(d as int) as int;
        lemma_ten_adds(d as int, len - d);
        lemma_ten_positive(len - d);
        let vk = digits_value(keep) as int;
        let r = digits_value(cut) as int;
        let v = vw * u + vk;
        assert(ten_to(len) == u * t);
        assert(all == v * t + r) by (nonlinear_arith)
            requires
                all == vw * (u * t) + (vk * t + r),
                v == vw * u + vk,
        ;
        assert(all / t == v) by (nonlinear_arith)
            requires
                all == v * t + r,
                0 <= r < t,
        ;
        assert(4 * (weight + 1 - n) + d == -(len - d));
    } else {
        let k = (d - len) as nat;
        lemma_fill(ff, k);
        assert(f == ff + zeros(k));
        assert(all_digits(f)) by {
            assert forall|i: int| 0 <= i < f.len() implies is_digit(#[trigger] f[i]) by {
                if i < len {
                    assert(is_digit(ff[i]));
                }
            }
        }
        lemma_ten_adds(len, k as int);
        let t = ten_to(k as int) as int;
        let u = ten_to(len) as int;
        assert(ten_to(d as int) == u * t);
        assert(vw * (u * t) + vf * t == (vw * u + vf) * t) by (nonlinear_arith);
        if weight >= n {
            let e = 4 * (weight + 1 - n);
            lemma_ten_adds(e, d as int);
            let x = ten_to(e) as int;
            assert((all * x) * t == all * (x * t)) by (nonlinear_arith);
            assert(u == 1);
            assert((vw * 1 + 0) * t == vw * t);
        }
    }
}

/// A binary numeric with digits is written as its sign, its whole part and, with
/// a scale, a point and as many digits as the scale says. The minus sign stands
/// there just where the sign field says so, and the digits are those of the
/// number that the groups make up, each of a power of 10000, cut off behind the
/// last place.
pub proof fn law_numeric_is_its_value(b: Seq<u8>) -> (r: (Seq<char>, Seq<char>))
    requires
        b.len() >= 8,
        be_int(field(b, 0, 2)) > 0,
        b.len() >= 8 + 2 * be_int(field(b, 0, 2)),
        be_uint(field(b, 4, 2)) != 0xC000,
        be_uint(field(b, 4, 2)) != 0xD000,
        be_uint(field(b, 4, 2)) != 0xF000,
        are_groups(numeric_groups(b, be_int(field(b, 0, 2)) as nat)),
    ensures
        ({
            let g = numeric_groups(b, be_int(field(b, 0, 2)) as nat);
            let weight = be_int(field(b, 2, 2));
            let d = if be_int(field(b, 6, 2)) < 0 { 0 } else { be_int(field(b, 6, 2)) };
            let sign = if be_uint(field(b, 4, 2)) == 0x4000 { seq!['-'] } else { Seq::empty() };
            let point = if d == 0 { Seq::empty() } else { seq!['.'] };
            &&& numeric_value(b) == Some(sign + r.0 + point + r.1)
            &&& numeric_value(b)->0[0] == '-' <==> be_uint(field(b, 4, 2)) == 0x4000
            &&& r.0.len() > 0
            &&& all_digits(r.0)
            &&& all_digits(r.1)
            &&& r.1.len() == d
            &&& digits_value(r.0) * ten_to(d) + digits_value(r.1) == in_last_place(g, weight, d)
            &&& weight < 0 ==> r.0 == seq!['0']
            &&& weight >= 0 && g[0] > 0 ==> r.0[0] != '0'
        }),
{
    let n = be_int(field(b, 0, 2));
    let g = numeric_groups(b, n as nat);
    let weight = be_int(field(b, 2, 2));
    let d = (if be_int(field(b, 6, 2)) < 0 { 0 } else { be_int(field(b, 6, 2)) }) as nat;
    let w = integer_part(g, weight);
    let f = fitted(fraction_digits(g, weight), d);
    lemma_parts_value(g, weight, d);
    if weight >= 0 {
        lemma_leading(g, weight + 1);
    }
    assert(is_digit(w[0]));
    let t = numeric_value(b)->0;
    let sign: Seq<char> = if be_uint(field(b, 4, 2)) == 0x4000 { seq!['-'] } else { Seq::empty() };
    let point: Seq<char> = if d == 0 { Seq::empty() } else { seq!['.'] };
    assert(t =~= sign + w + point + f);
    assert(be_uint(field(b, 4, 2)) != 0x4000 ==> t[0] == w[0]);
    (w, f)
}

proof fn lemma_leading(g: Seq<nat>, n: int)
    requires
        g.len() > 0,
        n >= 1,
    ensures
        leading_groups(g, n).len() > 0,
        leading_groups(g, n)[0] == decimal(g[0])[0],
        g[0] > 0 ==> leading_groups(g, n)[0] != '0',
    decreases n,
{
    law_decimal_value(g[0]);
    law_decimal_begins_without_zero(g[0]);
    if n > 1 {
        lemma_leading(g, n - 1);
    }
}

/// A binary numeric without digits is zero with as many digits behind the point
/// as its scale says; the other sign fields are those of what is no number and
/// of the infinities; bytes that hold fewer digits than they say are no numeric.
pub proof fn law_numeric_without_value(b: Seq<u8>)
    ensures
        b.len() < 8 ==> numeric_value(b) is None,
        b.len() >= 8 ==> ({
            let n = be_int(field(b, 0, 2));
            let sign = be_uint(field(b, 4, 2));
            let d = be_int(field(b, 6, 2));
            let finite = sign != 0xC000 && sign != 0xD000 && sign != 0xF000;
            &&& sign == 0xC000 ==> numeric_value(b) == Some("NaN"@)
            &&& sign == 0xD000 ==> numeric_value(b) == Some("Infinity"@)
            &&& sign == 0xF000 ==> numeric_value(b) == Some("-Infinity"@)
            &&& finite && (n < 0 || b.len() < 8 + 2 * n) ==> numeric_value(b) is None
            &&& finite && n == 0 && d <= 0 ==> numeric_value(b) == Some(seq!['0'])
            &&& finite && n == 0 && d > 0 ==> numeric_value(b) is Some && numeric_value(b)->0.len() == d + 2
                && numeric_value(b)->0[0] == '0' && numeric_value(b)->0[1] == '.' && forall|i: int|
                2 <= i < d + 2 ==> #[trigger] numeric_value(b)->0[i] == '0'
        }),
{
}

} // verus!
