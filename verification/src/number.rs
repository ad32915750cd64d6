//! Numbers as text: decimal, zero-padded decimal and hexadecimal.

use crate::text::is_digit;
use vstd::prelude::*;

verus! {

/// The character of a digit below sixteen.
pub open spec fn digit_char(d: nat) -> char {
    if d < 10 {
        (48 + d) as char
    } else {
        (87 + d) as char
    }
}

/// The digits of a number in a base from two to sixteen, without leading zeros.
pub open spec fn base_digits(n: nat, base: nat) -> Seq<char>
    decreases n,
{
    if base < 2 || n < base {
        seq![digit_char(n)]
    } else {
        proof {
            assert(n / base < n) by (nonlinear_arith)
                requires
                    n >= base,
                    base >= 2,
            ;
        }
        base_digits(n / base, base).push(digit_char(n % base))
    }
}

/// A number in decimal.
pub open spec fn decimal(n: nat) -> Seq<char> {
    base_digits(n, 10)
}

/// An integer in decimal, with a minus sign if it is negative.
pub open spec fn signed_decimal(n: int) -> Seq<char> {
    if n < 0 {
        seq!['-'] + decimal((-n) as nat)
    } else {
        decimal(n as nat)
    }
}

/// A number in hexadecimal, in lower case.
pub open spec fn hexadecimal(n: nat) -> Seq<char> {
    base_digits(n, 16)
}

/// `n` times the character `0`.
pub open spec fn zeros(n: nat) -> Seq<char> {
    Seq::new(n, |i: int| '0')
}

/// A text filled up with leading zeros to a width.
pub open spec fn zero_pad(s: Seq<char>, width: nat) -> Seq<char> {
    if s.len() < width {
        zeros((width - s.len()) as nat) + s
    } else {
        s
    }
}

/// A number in decimal with at least `width` digits.
pub open spec fn padded_decimal(n: nat, width: nat) -> Seq<char> {
    zero_pad(decimal(n), width)
}

/// An integer in decimal filled up with zeros behind the sign, so that sign and
/// digits together are at least `width` characters.
pub open spec fn padded_signed(n: int, width: nat) -> Seq<char> {
    if n < 0 {
        seq!['-'] + zero_pad(decimal((-n) as nat), if width > 0 { (width - 1) as nat } else { 0 })
    } else {
        padded_decimal(n as nat, width)
    }
}

/// Whether all characters are decimal digits.
pub open spec fn all_digits(s: Seq<char>) -> bool {
    forall|i: int| 0 <= i < s.len() ==> is_digit(#[trigger] s[i])
}

/// The value of a string of decimal digits.
pub open spec fn digits_value(s: Seq<char>) -> nat
    decreases s.len(),
{
    if s.len() == 0 {
        0
    } else {
        digits_value(s.drop_last()) * 10 + ((s.last() as u32) - 48) as nat
    }
}

/// What an unsigned integer with maximum `max` reads from a text: an optional
/// plus sign and one or more digits whose value does not exceed `max`.
pub open spec fn parse_unsigned(s: Seq<char>, max: nat) -> Option<nat> {
    let body = if s.len() > 0 && s[0] == '+' { s.skip(1) } else { s };
    if body.len() > 0 && all_digits(body) && digits_value(body) <= max {
        Some(digits_value(body))
    } else {
        None
    }
}

fn digit_to_char(d: u8) -> (r: char)
    requires
        d < 16,
    ensures
        r == digit_char(d as nat),
{
    if d < 10 {
        (48 + d) as char
    } else {
        (87 + d) as char
    }
}

/// Appends the digits of `n` in `base`.
fn push_base(out: &mut String, n: u64, base: u64)
    requires
        2 <= base <= 16,
    ensures
        final(out)@ == old(out)@ + base_digits(n as nat, base as nat),
    decreases n,
{
    let ghost before = out@;
    if n < base {
        out.push(digit_to_char(n as u8));
        proof {
            assert(before.push(digit_char(n as nat)) =~= before + seq![digit_char(n as nat)]);
        }
    } else {
        proof {
            assert(n / base < n) by (nonlinear_arith)
                requires
                    n >= base,
                    base >= 2,
            ;
            assert((n / base) as nat == (n as nat) / (base as nat));
            assert((n % base) as nat == (n as nat) % (base as nat));
            assert(n % base < base) by (nonlinear_arith)
                requires
                    base >= 2,
            ;
        }
        push_base(out, n / base, base);
        out.push(digit_to_char((n % base) as u8));
        proof {
            assert(out@ =~= before + base_digits(n as nat, base as nat));
        }
    }
}

/// Appends a number in decimal.
pub fn push_decimal(out: &mut String, n: u64)
    ensures
        final(out)@ == old(out)@ + decimal(n as nat),
{
    push_base(out, n, 10);
}

/// Appends a number in hexadecimal.
pub fn push_hexadecimal(out: &mut String, n: u64)
    ensures
        final(out)@ == old(out)@ + hexadecimal(n as nat),
{
    push_base(out, n, 16);
}

/// The magnitude of an integer.
pub fn magnitude(n: i64) -> (r: u64)
    ensures
        r == (if n < 0 { -n as int } else { n as int }),
{
    if n == i64::MIN {
        9223372036854775808
    } else if n < 0 {
        (-n) as u64
    } else {
        n as u64
    }
}

/// Appends an integer in decimal.
pub fn push_signed(out: &mut String, n: i64)
    ensures
        final(out)@ == old(out)@ + signed_decimal(n as int),
{
    let ghost before = out@;
    if n < 0 {
        out.push('-');
    }
    push_decimal(out, magnitude(n));
    proof {
        assert(out@ =~= before + signed_decimal(n as int));
    }
}

/// Appends `n` zeros.
pub fn push_zeros(out: &mut String, n: usize)
    ensures
        final(out)@ == old(out)@ + zeros(n as nat),
{
    let ghost before = out@;
    proof {
        assert(before + zeros(0) =~= before);
    }
    for i in 0..n
        invariant
            out@ == before + zeros(i as nat),
    {
        out.push('0');
        proof {
            assert(before + zeros((i + 1) as nat) =~= (before + zeros(i as nat)).push('0'));
        }
    }
}

/// Appends a number in decimal with at least `width` digits.
pub fn push_padded(out: &mut String, n: u64, width: usize)
    ensures
        final(out)@ == old(out)@ + padded_decimal(n as nat, width as nat),
{
    let ghost before = out@;
    let mut digits = String::new();
    push_decimal(&mut digits, n);
    proof {
        assert(Seq::<char>::empty() + decimal(n as nat) =~= decimal(n as nat));
    }
    let have: usize = vstd::string::StrSliceExecFns::unicode_len(digits.as_str());
    if have < width {
        push_zeros(out, width - have);
    }
    out.push_str(digits.as_str());
    proof {
        assert(out@ =~= before + padded_decimal(n as nat, width as nat));
    }
}

/// Appends an integer in decimal, zero-padded behind the sign to `width`.
pub fn push_padded_signed(out: &mut String, n: i64, width: usize)
    ensures
        final(out)@ == old(out)@ + padded_signed(n as int, width as nat),
{
    let ghost before = out@;
    if n < 0 {
        out.push('-');
        push_padded(out, magnitude(n), if width > 0 { width - 1 } else { 0 });
    } else {
        push_padded(out, magnitude(n), width);
    }
    proof {
        assert(out@ =~= before + padded_signed(n as int, width as nat));
    }
}

/// The text of a number in decimal.
pub fn decimal_string(n: u64) -> (r: String)
    ensures
        r@ == decimal(n as nat),
{
    let mut out = String::new();
    push_decimal(&mut out, n);
    proof {
        assert(Seq::<char>::empty() + decimal(n as nat) =~= decimal(n as nat));
    }
    out
}

/// The text of an integer in decimal.
pub fn signed_string(n: i64) -> (r: String)
    ensures
        r@ == signed_decimal(n as int),
{
    let mut out = String::new();
    push_signed(&mut out, n);
    proof {
        assert(Seq::<char>::empty() + signed_decimal(n as int) =~= signed_decimal(n as int));
    }
    out
}

proof fn lemma_digits_value_prefix(s: Seq<char>, k: int)
    requires
        all_digits(s),
        0 <= k <= s.len(),
    ensures
        digits_value(s.take(k)) <= digits_value(s),
    decreases s.len() - k,
{
    if k == s.len() {
        assert(s.take(k) =~= s);
    } else {
        lemma_digits_value_prefix(s, k + 1);
        assert(s.take(k + 1).drop_last() =~= s.take(k));
        assert(is_digit(s[k]));
        assert(s.take(k + 1).last() == s[k]);
    }
}

/// The value of a string of digits, if it does not exceed `max`.
pub fn digits_to_u64(s: &[char], max: u64) -> (r: Option<u64>)
    requires
        all_digits(s@),
    ensures
        r is Some <==> digits_value(s@) <= max,
        r is Some ==> r->0 == digits_value(s@),
{
    let mut n: u64 = 0;
    for i in 0..s.len()
        invariant
            all_digits(s@),
            n == digits_value(s@.take(i as int)),
            n <= max,
    {
        let c = s[i];
        proof {
            assert(is_digit(s@[i as int]));
            assert(s@.take(i + 1).drop_last() =~= s@.take(i as int));
            assert(s@.take(i + 1).last() == s@[i as int]);
            lemma_digits_value_prefix(s@, i + 1);
        }
        let d: u64 = (c as u64) - 48;
        if n > max / 10 {
            return None;
        }
        let t: u64 = n * 10;
        if d > max - t {
            return None;
        }
        n = t + d;
    }
    proof {
        assert(s@.take(s@.len() as int) =~= s@);
    }
    Some(n)
}

/// Reads an unsigned integer of at most `max` as the standard library does.
pub fn parse_u64(s: &[char], max: u64) -> (r: Option<u64>)
    ensures
        r is Some <==> parse_unsigned(s@, max as nat) is Some,
        r is Some ==> parse_unsigned(s@, max as nat) == Some(r->0 as nat),
{
    let start: usize = if s.len() > 0 && s[0] == '+' { 1 } else { 0 };
    let body = vstd::slice::slice_subrange(s, start, s.len());
    proof {
        assert(start == 0 ==> body@ =~= s@);
        assert(start == 1 ==> body@ =~= s@.skip(1));
    }
    if body.len() == 0 {
        return None;
    }
    for i in 0..body.len()
        invariant
            forall|k: int| 0 <= k < i ==> is_digit(#[trigger] body@[k]),
            body@ == (if s@.len() > 0 && s@[0] == '+' { s@.skip(1) } else { s@ }),
    {
        if !crate::text::char_is_digit(body[i]) {
            proof {
                assert(!all_digits(body@));
            }
            return None;
        }
    }
    digits_to_u64(body, max)
}

// ── Laws ────────────────────────────────────────────────────────────

/// A number in decimal consists of digits, and their value is the number.
pub proof fn law_decimal_value(n: nat)
    ensures
        decimal(n).len() > 0,
        all_digits(decimal(n)),
        digits_value(decimal(n)) == n,
    decreases n,
{
    let s = decimal(n);
    if n < 10 {
        assert(s.drop_last() =~= Seq::<char>::empty());
        assert(s.last() == digit_char(n));
        assert((digit_char(n) as u32) - 48 == n);
        assert(digits_value(Seq::<char>::empty()) == 0);
    } else {
        law_decimal_value(n / 10);
        let p = decimal(n / 10);
        assert(s =~= p.push(digit_char(n % 10)));
        assert(s.drop_last() =~= p);
        assert(s.last() == digit_char(n % 10));
        assert((digit_char(n % 10) as u32) - 48 == n % 10);
        assert forall|i: int| 0 <= i < s.len() implies is_digit(#[trigger] s[i]) by {
            if i < p.len() {
                assert(s[i] == p[i]);
            }
        }
    }
}

/// What is written in decimal is read back.
pub proof fn law_decimal_read_back(n: nat, max: nat)
    requires
        n <= max,
    ensures
        parse_unsigned(decimal(n), max) == Some(n),
{
    law_decimal_value(n);
    assert(is_digit(decimal(n)[0]));
}

pub(crate) proof fn lemma_zeros_value(k: nat, s: Seq<char>)
    ensures
        digits_value(zeros(k) + s) == digits_value(s),
    decreases k + s.len(),
{
    let t = zeros(k) + s;
    if s.len() > 0 {
        assert(t.drop_last() =~= zeros(k) + s.drop_last());
        lemma_zeros_value(k, s.drop_last());
    } else if k > 0 {
        assert(t.drop_last() =~= zeros((k - 1) as nat) + s);
        lemma_zeros_value((k - 1) as nat, s);
        assert(t.last() == '0');
    } else {
        assert(t =~= s);
    }
}

/// Four digits behind a number move it by a factor of 10000.
pub(crate) proof fn lemma_four_digits(a: Seq<char>, b: Seq<char>)
    requires
        b.len() == 4,
    ensures
        digits_value(a + b) == digits_value(a) * 10000 + digits_value(b),
{
    let t = a + b;
    let b1 = b.drop_last();
    let b2 = b1.drop_last();
    let b3 = b2.drop_last();
    assert(b3.drop_last() =~= Seq::<char>::empty());
    assert(t.drop_last() =~= a + b1);
    assert((a + b1).drop_last() =~= a + b2);
    assert((a + b2).drop_last() =~= a + b3);
    assert((a + b3).drop_last() =~= a);
    assert((a + b3).last() == b3.last());
    assert((a + b2).last() == b2.last());
    assert((a + b1).last() == b1.last());
    assert(digits_value(b3) == digits_value(Seq::<char>::empty()) * 10 + ((b3.last() as u32) - 48) as nat);
    assert(digits_value(b2) == digits_value(b3) * 10 + ((b2.last() as u32) - 48) as nat);
    assert(digits_value(b1) == digits_value(b2) * 10 + ((b1.last() as u32) - 48) as nat);
    assert(digits_value(a + b3) == digits_value(a) * 10 + ((b3.last() as u32) - 48) as nat);
    assert(digits_value(a + b2) == digits_value(a + b3) * 10 + ((b2.last() as u32) - 48) as nat);
    assert(digits_value(a + b1) == digits_value(a + b2) * 10 + ((b1.last() as u32) - 48) as nat);
}

/// A number below 10000 padded to four digits.
pub(crate) proof fn lemma_padded_four(n: nat)
    requires
        n < 10000,
    ensures
        padded_decimal(n, 4).len() == 4,
        all_digits(padded_decimal(n, 4)),
        digits_value(padded_decimal(n, 4)) == n,
{
    law_decimal_value(n);
    reveal_with_fuel(base_digits, 5);
    let d = decimal(n);
    assert(d.len() <= 4);
    if d.len() < 4 {
        lemma_zeros_value((4 - d.len()) as nat, d);
    }
}

} // verus!
