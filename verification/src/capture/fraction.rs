//! Decimal fractions in logs, read as whole numbers of a smaller unit.

use crate::number::{all_digits, digits_to_u64, digits_value};
use crate::text::{ascii_uppercase, char_is_digit, chars_are, is_digit, to_ascii_uppercase};
use vstd::prelude::*;
use vstd::slice::slice_subrange;

verus! {

/// Where the digits from `i` on end.
pub open spec fn digits_end(s: Seq<char>, i: int) -> int
    decreases s.len() - i,
{
    if 0 <= i < s.len() && is_digit(s[i]) {
        digits_end(s, i + 1)
    } else {
        i
    }
}

/// A decimal number: its digits without the point, and how many of them stand
/// before the point (fewer than none, or more than there are, by an exponent).
pub struct Decimal {
    pub digits: Seq<char>,
    pub point: int,
}

/// The exponent that begins at `i`, if it reaches to the end of the text.
pub open spec fn exponent(s: Seq<char>, i: int) -> Option<int> {
    if i == s.len() {
        Some(0)
    } else if s[i] != 'e' && s[i] != 'E' {
        None
    } else {
        let signed = i + 1 < s.len() && (s[i + 1] == '+' || s[i + 1] == '-');
        let from = if signed { i + 2 } else { i + 1 };
        if from < s.len() && digits_end(s, from) == s.len() {
            let n = digits_value(s.skip(from)) as int;
            Some(if signed && s[i + 1] == '-' { -n } else { n })
        } else {
            None
        }
    }
}

/// A number without a sign: digits with a point before, among or behind them,
/// and an exponent.
pub open spec fn unsigned_decimal(s: Seq<char>) -> Option<Decimal> {
    let w = digits_end(s, 0);
    let f = if w < s.len() && s[w] == '.' { digits_end(s, w + 1) } else { w };
    let fraction = if w < f { s.subrange(w + 1, f) } else { Seq::empty() };
    let digits = s.take(w) + fraction;
    if digits.len() == 0 {
        None
    } else {
        match exponent(s, f) {
            Some(e) => Some(Decimal { digits, point: w + e }),
            None => None,
        }
    }
}

/// Ten to the power `n`.
pub open spec fn ten_to(n: int) -> nat
    decreases n,
{
    if n <= 0 {
        1
    } else {
        10 * ten_to(n - 1)
    }
}

/// The whole part of a decimal number whose point is moved `places` to the
/// right.
pub open spec fn whole_part(d: Decimal, places: int) -> nat {
    let p = d.point + places;
    if p <= 0 {
        0
    } else if p <= d.digits.len() {
        digits_value(d.digits.take(p))
    } else {
        digits_value(d.digits) * ten_to(p - d.digits.len())
    }
}

/// Whether the part behind the moved point is a half or more.
pub open spec fn rounds_up(d: Decimal, places: int) -> bool {
    let p = d.point + places;
    0 <= p < d.digits.len() && d.digits[p] >= '5'
}

/// The greatest number if the number is greater.
pub open spec fn saturated(n: nat) -> u64 {
    if n > u64::MAX {
        u64::MAX
    } else {
        n as u64
    }
}

/// A decimal number in a unit `places` powers of ten smaller, rounded to the
/// nearest, halves upward, or cut off.
pub open spec fn in_smaller_unit(d: Decimal, places: int, round: bool) -> u64 {
    saturated(whole_part(d, places) + (if round && rounds_up(d, places) { 1nat } else { 0nat }))
}

/// Whether a text is a word for infinity.
pub open spec fn is_infinite(s: Seq<char>) -> bool {
    ascii_uppercase(s) == "INF"@ || ascii_uppercase(s) == "INFINITY"@
}

/// A fraction read as a whole number of a unit `places` powers of ten smaller:
/// zero if it is negative or not a number, the greatest number if it is too
/// great. `None` if the text is no number.
pub open spec fn fraction_value(s: Seq<char>, places: int, round: bool) -> Option<u64> {
    let signed = s.len() > 0 && (s[0] == '+' || s[0] == '-');
    let negative = s.len() > 0 && s[0] == '-';
    let body = if signed { s.skip(1) } else { s };
    if is_infinite(body) {
        Some(if negative { 0u64 } else { u64::MAX })
    } else if ascii_uppercase(body) == "NAN"@ {
        Some(0u64)
    } else {
        match unsigned_decimal(body) {
            Some(d) => Some(if negative { 0u64 } else { in_smaller_unit(d, places, round) }),
            None => None,
        }
    }
}

proof fn lemma_digits_end(s: Seq<char>, i: int)
    requires
        0 <= i <= s.len(),
    ensures
        i <= digits_end(s, i) <= s.len(),
        forall|k: int| i <= k < digits_end(s, i) ==> is_digit(#[trigger] s[k]),
    decreases s.len() - i,
{
    if i < s.len() && is_digit(s[i]) {
        lemma_digits_end(s, i + 1);
    }
}

fn scan_digits(s: &[char], i: usize) -> (r: usize)
    requires
        i <= s@.len(),
    ensures
        r == digits_end(s@, i as int),
        i <= r <= s@.len(),
        forall|k: int| i <= k < r ==> is_digit(#[trigger] s@[k]),
{
    proof {
        lemma_digits_end(s@, i as int);
    }
    let mut j: usize = i;
    while j < s.len() && char_is_digit(s[j])
        invariant
            i <= j <= s@.len(),
            digits_end(s@, j as int) == digits_end(s@, i as int),
        decreases s@.len() - j,
    {
        j = j + 1;
    }
    j
}

/// An exponent, or that it exceeds 64 bits.
enum Exponent {
    Small(i128),
    Large,
    VerySmall,
}

spec fn exponent_is(e: Exponent, n: int) -> bool {
    match e {
        Exponent::Small(k) => k == n && -u64::MAX <= n <= u64::MAX,
        Exponent::Large => n > u64::MAX,
        Exponent::VerySmall => n < -u64::MAX,
    }
}

pub(crate) proof fn lemma_value_below(d: Seq<char>)
    requires
        all_digits(d),
    ensures
        digits_value(d) < ten_to(d.len() as int),
    decreases d.len(),
{
    if d.len() > 0 {
        let p = d.drop_last();
        assert(all_digits(p)) by {
            assert forall|k: int| 0 <= k < p.len() implies is_digit(#[trigger] p[k]) by {
                assert(is_digit(d[k]));
            }
        }
        lemma_value_below(p);
        assert(is_digit(d[d.len() - 1]));
    }
}

proof fn lemma_many_digits(d: Seq<char>)
    requires
        all_digits(d),
        digits_value(d) > u64::MAX,
    ensures
        d.len() >= 20,
{
    lemma_value_below(d);
    if d.len() < 20 {
        lemma_ten_grows(1, d.len() as int, 19);
        reveal_with_fuel(ten_to, 21);
    }
}

fn read_exponent(s: &[char], i: usize) -> (r: Option<Exponent>)
    requires
        i <= s@.len(),
    ensures
        r is Some <==> exponent(s@, i as int) is Some,
        r is Some ==> exponent_is(r->0, exponent(s@, i as int)->0),
        r is Some ==> (r->0 is Small || i + 21 <= s@.len()),
{
    let n: usize = s.len();
    if i == n {
        return Some(Exponent::Small(0));
    }
    if s[i] != 'e' && s[i] != 'E' {
        return None;
    }
    let signed: bool = n - i > 1 && (s[i + 1] == '+' || s[i + 1] == '-');
    let negative: bool = signed && s[i + 1] == '-';
    let from: usize = if signed { i + 2 } else { i + 1 };
    if from >= n || scan_digits(s, from) != n {
        return None;
    }
    let body = slice_subrange(s, from, n);
    proof {
        lemma_digits_end(s@, from as int);
        assert(body@ =~= s@.skip(from as int));
        assert forall|k: int| 0 <= k < body@.len() implies is_digit(#[trigger] body@[k]) by {
            assert(body@[k] == s@[k + from]);
        }
        if digits_value(body@) > u64::MAX {
            lemma_many_digits(body@);
        }
    }
    match digits_to_u64(body, u64::MAX) {
        Some(v) => if negative {
            Some(Exponent::Small(-(v as i128)))
        } else {
            Some(Exponent::Small(v as i128))
        },
        None => if negative {
            Some(Exponent::VerySmall)
        } else {
            Some(Exponent::Large)
        },
    }
}

proof fn lemma_ten_to(n: int)
    ensures
        ten_to(n) >= 1,
        n >= 20 ==> ten_to(n) > u64::MAX,
    decreases n,
{
    if n > 0 {
        lemma_ten_to(n - 1);
        if n == 20 {
            reveal_with_fuel(ten_to, 21);
        }
    }
}

/// The whole part when the point lies behind all digits.
fn scale_up(d: &[char], zeros: u128) -> (r: u64)
    requires
        all_digits(d@),
    ensures
        r == saturated(digits_value(d@) * ten_to(zeros as int)),
{
    proof {
        lemma_ten_to(zeros as int);
        let v = digits_value(d@);
        let t = ten_to(zeros as int);
        assert(v > u64::MAX ==> v * t > u64::MAX) by (nonlinear_arith)
            requires
                t >= 1,
        ;
        assert(v >= 1 && t > u64::MAX ==> v * t > u64::MAX) by (nonlinear_arith);
        assert(v == 0 ==> v * t == 0) by (nonlinear_arith);
    }
    let v = match digits_to_u64(d, u64::MAX) {
        Some(v) => v,
        None => {
            return u64::MAX;
        },
    };
    if v == 0 {
        return 0;
    }
    if zeros >= 20 {
        return u64::MAX;
    }
    let mut r: u64 = v;
    let mut k: u128 = 0;
    proof {
        assert(digits_value(d@) * ten_to(0) == v) by {
            assert(ten_to(0) == 1);
        }
    }
    while k < zeros
        invariant
            k <= zeros,
            zeros < 20,
            v == digits_value(d@),
            r == v * ten_to(k as int),
        decreases zeros - k,
    {
        proof {
            assert(ten_to(k + 1) == 10 * ten_to(k as int));
            assert(v * ten_to(k + 1) == 10 * (v * ten_to(k as int))) by (nonlinear_arith)
                requires
                    ten_to(k + 1) == 10 * ten_to(k as int),
            ;
            lemma_ten_grows(v as nat, k + 1, zeros as int);
        }
        match r.checked_mul(10) {
            Some(n) => {
                r = n;
            },
            None => {
                return u64::MAX;
            },
        }
        k = k + 1;
    }
    r
}

proof fn lemma_ten_grows(v: nat, m: int, n: int)
    requires
        m <= n,
    ensures
        v * ten_to(m) <= v * ten_to(n),
    decreases n - m,
{
    if m < n {
        lemma_ten_grows(v, m, n - 1);
        lemma_ten_to(n - 1);
        if n > 0 {
            assert(v * ten_to(n - 1) <= v * (10 * ten_to(n - 1))) by (nonlinear_arith);
        }
    }
}

fn convert(d: &[char], point: i128, places: i128, round: bool) -> (r: u64)
    requires
        all_digits(d@),
        -u64::MAX <= point <= 2 * u64::MAX,
        0 <= places <= 20,
    ensures
        r == in_smaller_unit((Decimal { digits: d@, point: point as int }), places as int, round),
{
    let ghost dec = Decimal { digits: d@, point: point as int };
    let n: usize = d.len();
    let p: i128 = point + places;
    if p < 0 {
        return 0;
    }
    if p > (n as i128) {
        let zeros: i128 = p - (n as i128);
        return scale_up(d, zeros as u128);
    }
    let at: usize = p as usize;
    let head = slice_subrange(d, 0, at);
    proof {
        assert(head@ =~= d@.take(at as int));
        assert forall|k: int| 0 <= k < head@.len() implies is_digit(#[trigger] head@[k]) by {
            assert(is_digit(d@[k]));
        }
        assert(at == 0 ==> digits_value(head@) == 0);
    }
    let up: bool = round && at < n && d[at] >= '5';
    proof {
        assert(up == (round && rounds_up(dec, places as int)));
        assert(whole_part(dec, places as int) == digits_value(head@));
    }
    match digits_to_u64(head, u64::MAX) {
        Some(v) => if up {
            v.saturating_add(1)
        } else {
            v
        },
        None => u64::MAX,
    }
}

fn read_unsigned(s: &[char], places: i128, round: bool) -> (r: Option<u64>)
    requires
        0 <= places <= 20,
    ensures
        r is Some <==> unsigned_decimal(s@) is Some,
        r is Some ==> r->0 == in_smaller_unit(unsigned_decimal(s@)->0, places as int, round),
{
    let n: usize = s.len();
    let w = scan_digits(s, 0);
    let f: usize = if w < n && s[w] == '.' { scan_digits(s, w + 1) } else { w };
    let mut digits: Vec<char> = Vec::new();
    for i in 0..w
        invariant
            w <= s@.len(),
            digits@ == s@.take(i as int),
    {
        digits.push(s[i]);
        proof {
            assert(s@.take(i + 1) =~= s@.take(i as int).push(s@[i as int]));
        }
    }
    let ghost whole = digits@;
    let start: usize = if w < f { w + 1 } else { f };
    let mut i: usize = start;
    proof {
        assert(s@.subrange(start as int, start as int) =~= Seq::<char>::empty());
        assert(whole + s@.subrange(start as int, start as int) =~= whole);
    }
    while i < f
        invariant
            start <= i <= f <= s@.len(),
            digits@ == whole + s@.subrange(start as int, i as int),
        decreases f - i,
    {
        digits.push(s[i]);
        proof {
            assert(whole + s@.subrange(start as int, i + 1) =~= (whole + s@.subrange(start as int, i as int)).push(
                s@[i as int],
            ));
        }
        i = i + 1;
    }
    let ghost fraction = if w < f { s@.subrange(w + 1, f as int) } else { Seq::<char>::empty() };
    proof {
        assert(s@.subrange(start as int, f as int) =~= fraction);
        assert(digits@ =~= s@.take(w as int) + fraction);
        lemma_digits_end(s@, 0);
        if w < n {
            lemma_digits_end(s@, w + 1);
        }
        assert(all_digits(digits@)) by {
            assert forall|k: int| 0 <= k < digits@.len() implies is_digit(#[trigger] digits@[k]) by {
                if k < w {
                    assert(digits@[k] == s@[k]);
                } else {
                    assert(digits@[k] == s@[w + 1 + (k - w)]);
                }
            }
        }
    }
    if digits.len() == 0 {
        return None;
    }
    let e = match read_exponent(s, f) {
        None => {
            return None;
        },
        Some(e) => e,
    };
    let ghost dec = unsigned_decimal(s@)->0;
    proof {
        assert(dec.digits == digits@);
        assert(dec.point == w + exponent(s@, f as int)->0);
    }
    match e {
        Exponent::Small(k) => Some(convert(&digits, (w as i128) + k, places, round)),
        Exponent::VerySmall => Some(0),
        Exponent::Large => {
            proof {
                let zeros = dec.point + places - digits@.len();
                assert(zeros >= 20);
                lemma_ten_to(zeros);
                lemma_ten_to(20);
                let v = digits_value(digits@);
                let t = ten_to(zeros);
                let u = ten_to(20);
                assert(v == 0 ==> v * t == 0 && v * u == 0) by (nonlinear_arith);
                assert(v >= 1 && t > u64::MAX && u > u64::MAX ==> v * t > u64::MAX && v * u > u64::MAX)
                    by (nonlinear_arith);
            }
            Some(scale_up(&digits, 20))
        },
    }
}

/// Reads a fraction as a whole number of a unit `places` powers of ten
/// smaller.
pub fn parse_fraction(s: &[char], places: u8, round: bool) -> (r: Option<u64>)
    requires
        places <= 20,
    ensures
        r == fraction_value(s@, places as int, round),
{
    let n: usize = s.len();
    let signed: bool = n > 0 && (s[0] == '+' || s[0] == '-');
    let negative: bool = n > 0 && s[0] == '-';
    let body = slice_subrange(s, if signed { 1 } else { 0 }, n);
    proof {
        assert(body@ =~= (if signed { s@.skip(1) } else { s@ }));
    }
    let word = to_ascii_uppercase(body);
    if chars_are(&word, "INF") || chars_are(&word, "INFINITY") {
        return Some(if negative { 0 } else { u64::MAX });
    }
    if chars_are(&word, "NAN") {
        return Some(0);
    }
    match read_unsigned(body, places as i128, round) {
        Some(v) => Some(if negative { 0 } else { v }),
        None => None,
    }
}

} // verus!
