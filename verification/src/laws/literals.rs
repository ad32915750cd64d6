//! Laws of binary values as SQL literals.

use crate::capture::fraction::ten_to;
use crate::number::{
    all_digits, decimal, digit_char, digits_value, hexadecimal, law_decimal_value, lemma_zeros_value,
    padded_decimal, signed_decimal, zero_pad,
};
use crate::proxy::calendar::{
    clock_text, date_of, date_text, day_number, is_date, law_day_number_unique, law_every_day_has_a_date,
    timestamp_text,
};
use crate::proxy::pg_binary::{
    array_cast_name, array_elements, array_escaped, array_quoted, array_value, bit_at, bit_string_value,
    colon_hex, element_at, element_value, hex_groups, hex_text, inet_value, interval_text, interval_value,
    ipv6_groups, ipv6_text, join_pieces, literal_value, longest_run, money_text, no_extensions, numeric_value,
    pg_timestamp_text, plain, power_of_two, quoted, quotes_doubled, scalar_value, timetz_value, uuid_text,
    zero_run, FloatBits, Piece,
};
use crate::proxy::wire::{be_int, be_uint, field};
use crate::text::{ascii_uppercase, is_digit, is_space};
use vstd::prelude::*;
use vstd::utf8::{encode_utf8, encode_utf8_decode_utf8, encode_utf8_valid_utf8, valid_utf8};

verus! {

// ── Digits ──────────────────────────────────────────────────────────

proof fn lemma_decimal_len(n: nat, w: int)
    requires
        n < ten_to(w),
        w >= 1,
    ensures
        decimal(n).len() <= w,
    decreases w,
{
    if n >= 10 {
        if w == 1 {
            assert(ten_to(1) == 10 * ten_to(0));
        } else {
            assert(n / 10 < ten_to(w - 1));
            lemma_decimal_len(n / 10, w - 1);
        }
    }
}

/// A number that is filled up with zeros has the given width, and its digits have
/// its value.
pub proof fn law_padded_number(n: nat, w: int)
    requires
        n < ten_to(w),
        w >= 1,
    ensures
        padded_decimal(n, w as nat).len() == w,
        all_digits(padded_decimal(n, w as nat)),
        digits_value(padded_decimal(n, w as nat)) == n,
{
    law_decimal_value(n);
    lemma_decimal_len(n, w);
    let d = decimal(n);
    if d.len() < w {
        lemma_zeros_value((w - d.len()) as nat, d);
        let p = padded_decimal(n, w as nat);
        assert forall|i: int| 0 <= i < p.len() implies is_digit(#[trigger] p[i]) by {
            if i >= w - d.len() {
                assert(is_digit(d[i - (w - d.len())]));
            }
        }
    }
}

proof fn lemma_two(n: nat)
    requires
        n < 100,
    ensures
        padded_decimal(n, 2).len() == 2,
        all_digits(padded_decimal(n, 2)),
        digits_value(padded_decimal(n, 2)) == n,
{
    assert(ten_to(2) == 100) by {
        reveal_with_fuel(ten_to, 3);
    }
    law_padded_number(n, 2);
}

// ── Dates and times ─────────────────────────────────────────────────

/// A date of the years 0 to 9999 is written as four digits of the year, two of
/// the month and two of the day.
pub proof fn law_date_is_written(y: int, m: int, d: int)
    requires
        is_date(y, m, d),
        0 <= y <= 9999,
    ensures
        ({
            let t = date_text(day_number(y, m, d));
            &&& t.len() == 10
            &&& t[4] == '-'
            &&& t[7] == '-'
            &&& digits_value(t.subrange(0, 4)) == y
            &&& digits_value(t.subrange(5, 7)) == m
            &&& digits_value(t.subrange(8, 10)) == d
        }),
{
    let n = day_number(y, m, d);
    law_every_day_has_a_date(n);
    let (a, b, c) = date_of(n);
    law_day_number_unique(a, b, c, y, m, d);
    assert(ten_to(4) == 10000) by {
        reveal_with_fuel(ten_to, 5);
    }
    law_padded_number(y as nat, 4);
    lemma_two(m as nat);
    lemma_two(d as nat);
    let t = date_text(n);
    assert(t.subrange(0, 4) =~= padded_decimal(y as nat, 4));
    assert(t.subrange(5, 7) =~= padded_decimal(m as nat, 2));
    assert(t.subrange(8, 10) =~= padded_decimal(d as nat, 2));
}

/// A time of day is written as two digits each of hours, minutes and seconds,
/// and six of microseconds unless those are zero.
pub proof fn law_time_is_written(h: nat, m: nat, s: nat, us: nat)
    requires
        h < 100,
        m < 60,
        s < 60,
        us < 1_000_000,
    ensures
        ({
            let t = clock_text((((h * 60 + m) * 60 + s) * 1_000_000 + us) as nat);
            &&& t.len() == (if us == 0 { 8 } else { 15int })
            &&& t[2] == ':'
            &&& t[5] == ':'
            &&& digits_value(t.subrange(0, 2)) == h
            &&& digits_value(t.subrange(3, 5)) == m
            &&& digits_value(t.subrange(6, 8)) == s
            &&& us > 0 ==> t[8] == '.' && digits_value(t.subrange(9, 15)) == us
        }),
{
    let x = (((h * 60 + m) * 60 + s) * 1_000_000 + us) as nat;
    assert(x / 1_000_000 == (h * 60 + m) * 60 + s);
    assert(x % 1_000_000 == us);
    let z = x / 1_000_000;
    assert(z / 3600 == h);
    assert((z / 60) % 60 == m);
    assert(z % 60 == s);
    lemma_two(h);
    lemma_two(m);
    lemma_two(s);
    assert(ten_to(6) == 1_000_000) by {
        reveal_with_fuel(ten_to, 7);
    }
    law_padded_number(us, 6);
    let t = clock_text(x);
    assert(t.subrange(0, 2) =~= padded_decimal(h, 2));
    assert(t.subrange(3, 5) =~= padded_decimal(m, 2));
    assert(t.subrange(6, 8) =~= padded_decimal(s, 2));
    if us > 0 {
        assert(t.subrange(9, 15) =~= padded_decimal(us, 6));
    }
}

/// A point in time is written as its date and its time of day, before 2000 too.
pub proof fn law_timestamp_is_written(days: int, micros: int)
    requires
        0 <= micros < 86_400_000_000,
    ensures
        timestamp_text(days * 86_400_000_000 + micros) == date_text(days) + seq![' '] + clock_text(micros as nat),
        pg_timestamp_text(days * 86_400_000_000 + micros, false) == date_text(days) + seq![' '] + clock_text(
            micros as nat,
        ),
        pg_timestamp_text(days * 86_400_000_000 + micros, true) == date_text(days) + seq![' '] + clock_text(
            micros as nat,
        ) + "+00"@,
{
    let x = days * 86_400_000_000 + micros;
    assert(x / 86_400_000_000 == days && x % 86_400_000_000 == micros);
}

/// An interval is written as its months and its days, where there are any, and
/// its time with a sign; one of nothing is zero.
pub proof fn law_interval_is_written(months: int, days: int, micros: nat)
    ensures
        interval_text(0, 0, 0) == seq!['0'],
        micros > 0 ==> interval_text(0, 0, micros as int) == clock_text(micros),
        micros > 0 ==> interval_text(0, 0, -(micros as int)) == seq!['-'] + clock_text(micros),
        days != 0 ==> interval_text(0, days, micros as int) == signed_decimal(days) + " days "@ + clock_text(micros),
        days != 0 && micros > 0 ==> interval_text(0, days, -(micros as int)) == signed_decimal(days) + " days "@
            + seq!['-'] + clock_text(micros),
        months != 0 ==> interval_text(months, 0, micros as int) == signed_decimal(months) + " mons "@ + clock_text(
            micros,
        ),
        months != 0 && days != 0 ==> interval_text(months, days, micros as int) == signed_decimal(months) + " mons "@
            + (signed_decimal(days) + " days "@) + clock_text(micros),
{
    let c = clock_text(micros);
    let e = Seq::<char>::empty();
    assert(e + e + c =~= c);
    assert(e + e + seq!['-'] + c =~= seq!['-'] + c);
    assert(e + (signed_decimal(days) + " days "@) + c =~= signed_decimal(days) + " days "@ + c);
    assert(e + (signed_decimal(days) + " days "@) + seq!['-'] + c =~= signed_decimal(days) + " days "@ + seq!['-'] + c);
    assert((signed_decimal(months) + " mons "@) + e + c =~= signed_decimal(months) + " mons "@ + c);
}

/// A binary interval holds microseconds, days and months in this order; it has
/// sixteen bytes.
pub proof fn law_interval_is_read(b: Seq<u8>)
    ensures
        b.len() == 16 ==> interval_value(b) == Some(
            interval_text(be_int(b.subrange(12, 16)), be_int(b.subrange(8, 12)), be_int(b.subrange(0, 8))),
        ),
        b.len() != 16 ==> interval_value(b) is None,
{
}

/// A time with a zone has the hours of its offset behind it, the minutes unless
/// they are zero, and a minus sign just where the zone lies west.
pub proof fn law_zone_is_written(b: Seq<u8>, h: nat, m: nat)
    requires
        b.len() == 12,
        0 <= be_int(b.subrange(0, 8)) < 86_400_000_000,
        h < 100,
        m < 60,
    ensures
        ({
            let t = clock_text(be_int(b.subrange(0, 8)) as nat);
            let west = be_int(b.subrange(8, 12));
            let off = h * 3600 + m * 60;
            &&& west == off && off > 0 && m == 0 ==> timetz_value(b) == Some(t + seq!['-'] + padded_decimal(h, 2))
            &&& west == -off && m == 0 ==> timetz_value(b) == Some(t + seq!['+'] + padded_decimal(h, 2))
            &&& west == off && m > 0 ==> timetz_value(b) == Some(
                t + seq!['-'] + padded_decimal(h, 2) + seq![':'] + padded_decimal(m, 2),
            )
            &&& west == -off && m > 0 ==> timetz_value(b) == Some(
                t + seq!['+'] + padded_decimal(h, 2) + seq![':'] + padded_decimal(m, 2),
            )
        }),
{
    let t = clock_text(be_int(b.subrange(0, 8)) as nat);
    let off = (h * 3600 + m * 60) as nat;
    assert(off / 3600 == h);
    assert((off % 3600) / 60 == m);
    assert(t.push('-') =~= t + seq!['-']);
    assert(t.push('+') =~= t + seq!['+']);
    assert(field(b, 0, 8) =~= b.subrange(0, 8));
    assert(field(b, 8, 4) =~= b.subrange(8, 12));
}

// ── Bytes ───────────────────────────────────────────────────────────

/// Bytes are written as two hexadecimal digits each, the higher first.
pub proof fn law_bytes_in_hexadecimal(b: Seq<u8>, i: int)
    requires
        0 <= i < b.len(),
    ensures
        hex_text(b).len() == 2 * b.len(),
        hex_text(b)[2 * i] == digit_char((b[i] / 16) as nat),
        hex_text(b)[2 * i + 1] == digit_char((b[i] % 16) as nat),
    decreases b.len(),
{
    let p = b.drop_last();
    let x = b.last() as nat;
    let one = zero_pad(hexadecimal(x), 2);
    reveal_with_fuel(crate::number::base_digits, 3);
    assert(one =~= seq![digit_char(x / 16), digit_char(x % 16)]);
    if p.len() > 0 {
        law_bytes_in_hexadecimal(p, if i < p.len() { i } else { 0 });
    } else {
        assert(hex_text(p) =~= Seq::<char>::empty());
    }
}

/// A hexadecimal digit is one of `0` to `9` and `a` to `f`, in order.
pub proof fn law_hexadecimal_digits(d: nat)
    requires
        d < 16,
    ensures
        d < 10 ==> digit_char(d) as u32 == '0' as u32 + d,
        d >= 10 ==> digit_char(d) as u32 == 'a' as u32 + (d - 10),
{
}

/// A UUID is written as its bytes in hexadecimal with dashes behind the fourth,
/// the sixth, the eighth and the tenth.
pub proof fn law_uuid_is_written(b: Seq<u8>)
    requires
        b.len() == 16,
    ensures
        uuid_text(b) == hex_text(b.subrange(0, 4)) + seq!['-'] + hex_text(b.subrange(4, 6)) + seq!['-'] + hex_text(
            b.subrange(6, 8),
        ) + seq!['-'] + hex_text(b.subrange(8, 10)) + seq!['-'] + hex_text(b.subrange(10, 16)),
        uuid_text(b).len() == 36,
{
    law_bytes_in_hexadecimal(b.subrange(0, 4), 0);
    law_bytes_in_hexadecimal(b.subrange(4, 6), 0);
    law_bytes_in_hexadecimal(b.subrange(6, 8), 0);
    law_bytes_in_hexadecimal(b.subrange(8, 10), 0);
    law_bytes_in_hexadecimal(b.subrange(10, 16), 0);
}

/// A hardware address is written as its bytes in hexadecimal with colons
/// between them.
pub proof fn law_hardware_address(b: Seq<u8>, x: u8)
    ensures
        colon_hex(seq![x]) == hex_text(seq![x]),
        b.len() > 0 ==> colon_hex(b.push(x)) == colon_hex(b) + seq![':'] + hex_text(seq![x]),
{
    assert(seq![x].drop_last() =~= Seq::<u8>::empty());
    assert(hex_text(Seq::<u8>::empty()) =~= Seq::<char>::empty());
    let one = zero_pad(hexadecimal(x as nat), 2);
    assert(hex_text(seq![x]) =~= one);
    assert(b.push(x).drop_last() =~= b);
}

/// Eight digits of a bit string are the bits of a byte, the most significant
/// first.
pub proof fn law_bits_are_those_of_the_bytes(b: Seq<u8>, k: int)
    requires
        0 <= k < b.len(),
    ensures
        128 * bit_at(b, 8 * k) + 64 * bit_at(b, 8 * k + 1) + 32 * bit_at(b, 8 * k + 2) + 16 * bit_at(b, 8 * k + 3) + 8
            * bit_at(b, 8 * k + 4) + 4 * bit_at(b, 8 * k + 5) + 2 * bit_at(b, 8 * k + 6) + bit_at(b, 8 * k + 7)
            == b[k],
{
    reveal_with_fuel(power_of_two, 9);
    assert(forall|j: int| 0 <= j < 8 ==> #[trigger] (8 * k + j) / 8 == k);
    assert(forall|j: int| 0 <= j < 8 ==> #[trigger] (8 * k + j) % 8 == j);
    assert((8 * k + 0) / 8 == k && (8 * k + 1) / 8 == k && (8 * k + 2) / 8 == k && (8 * k + 3) / 8 == k);
    assert((8 * k + 4) / 8 == k && (8 * k + 5) / 8 == k && (8 * k + 6) / 8 == k && (8 * k + 7) / 8 == k);
    assert((8 * k + 0) % 8 == 0 && (8 * k + 1) % 8 == 1 && (8 * k + 2) % 8 == 2 && (8 * k + 3) % 8 == 3);
    assert((8 * k + 4) % 8 == 4 && (8 * k + 5) % 8 == 5 && (8 * k + 6) % 8 == 6 && (8 * k + 7) % 8 == 7);
    let x = b[k] as int;
    assert(power_of_two(7) == 128 && power_of_two(6) == 64 && power_of_two(5) == 32 && power_of_two(4) == 16);
    assert(power_of_two(3) == 8 && power_of_two(2) == 4 && power_of_two(1) == 2 && power_of_two(0) == 1);
    assert(x / 128 == (x / 64) / 2);
    assert(x / 64 == (x / 32) / 2);
    assert(x / 32 == (x / 16) / 2);
    assert(x / 16 == (x / 8) / 2);
    assert(x / 8 == (x / 4) / 2);
    assert(x / 4 == (x / 2) / 2);
    assert(x / 128 <= 1);
}

/// A bit string has as many digits as it says, each `1` for a set bit.
pub proof fn law_bit_string_is_read(b: Seq<u8>, i: int)
    requires
        b.len() >= 4,
        be_int(b.subrange(0, 4)) >= 0,
        8 * (b.len() - 4) >= be_int(b.subrange(0, 4)),
    ensures
        bit_string_value(b) is Some,
        bit_string_value(b)->0.len() == be_int(b.subrange(0, 4)),
        0 <= i < be_int(b.subrange(0, 4)) ==> bit_string_value(b)->0[i] == (if bit_at(b.skip(4), i) == 1 {
            '1'
        } else {
            '0'
        }),
{
    assert(field(b, 0, 4) =~= b.subrange(0, 4));
}

// ── Addresses and amounts ───────────────────────────────────────────

/// An IPv4 address is written as four decimal numbers with points, and its mask
/// unless that covers it whole.
pub proof fn law_ipv4_is_written(a: u8, b: u8, c: u8, d: u8, mask: u8, flag: u8)
    ensures
        ({
            let t = decimal(a as nat) + seq!['.'] + decimal(b as nat) + seq!['.'] + decimal(c as nat) + seq!['.']
                + decimal(d as nat);
            inet_value(seq![2u8, mask, flag, 4u8, a, b, c, d]) == Some(
                if mask == 32 {
                    t
                } else {
                    t + seq!['/'] + decimal(mask as nat)
                },
            )
        }),
{
    let t = decimal(a as nat) + seq!['.'] + decimal(b as nat) + seq!['.'] + decimal(c as nat) + seq!['.'] + decimal(
        d as nat,
    );
    assert(t + (seq!['/'] + decimal(mask as nat)) =~= t + seq!['/'] + decimal(mask as nat));
}

/// An IPv6 address is written as eight groups, of which the longest run of zero
/// groups is left out if it is longer than one, and its mask unless that covers
/// it whole.
pub proof fn law_ipv6_is_written(b: Seq<u8>)
    requires
        b.len() == 20,
        b[0] == 3,
        b[3] == 16,
    ensures
        b[1] == 128 ==> inet_value(b) == Some(ipv6_text(ipv6_groups(b))),
        b[1] != 128 ==> inet_value(b) == Some(ipv6_text(ipv6_groups(b)) + (seq!['/'] + decimal(b[1] as nat))),
{
}

proof fn lemma_longest(g: Seq<u16>, n: int, i: int)
    requires
        0 <= i < n,
    ensures
        zero_run(g, i) <= longest_run(g, n).1,
        longest_run(g, n).1 > 0 ==> 0 <= longest_run(g, n).0 < n && zero_run(g, longest_run(g, n).0) == longest_run(
            g,
            n,
        ).1,
        i < longest_run(g, n).0 ==> zero_run(g, i) < longest_run(g, n).1,
    decreases n,
{
    if n > 1 {
        lemma_longest(g, n - 1, if i < n - 1 { i } else { 0 });
    } else {
        assert(longest_run(g, 0) == (0int, 0nat));
    }
}

/// What is left out of an IPv6 address is the first of its longest runs of zero
/// groups, and nothing where no two zero groups stand together.
pub proof fn law_longest_run_is_left_out(g: Seq<u16>, start: int, len: int)
    requires
        0 <= start,
        start + len <= g.len(),
        zero_run(g, start) == len,
        forall|i: int| 0 <= i < g.len() ==> #[trigger] zero_run(g, i) <= len,
        forall|i: int| 0 <= i < start ==> #[trigger] zero_run(g, i) < len,
    ensures
        len >= 2 ==> ipv6_text(g) == hex_groups(g, 0, start) + seq![':', ':'] + hex_groups(
            g,
            start + len,
            g.len() as int,
        ),
        len < 2 ==> ipv6_text(g) == hex_groups(g, 0, g.len() as int),
{
    let n = g.len() as int;
    if n > 0 {
        if len >= 2 {
            lemma_longest(g, n, start);
            let (a, m) = longest_run(g, n);
            assert(zero_run(g, a) <= len);
            assert(m == len);
            if start < a {
                lemma_longest(g, n, start);
            }
            assert(a == start) by {
                if a < start {
                    assert(zero_run(g, a) < len);
                }
            }
        } else {
            lemma_longest(g, n, 0);
            let (a, m) = longest_run(g, n);
            if m > 0 {
                assert(zero_run(g, a) <= len);
            }
        }
    }
}

/// Groups are written in hexadecimal with colons between them.
pub proof fn law_groups_in_hexadecimal(g: Seq<u16>, from: int, to: int)
    ensures
        to <= from ==> hex_groups(g, from, to) == Seq::<char>::empty(),
        to == from + 1 ==> hex_groups(g, from, to) == hexadecimal(g[from] as nat),
        to > from + 1 ==> hex_groups(g, from, to) == hex_groups(g, from, to - 1) + seq![':'] + hexadecimal(
            g[to - 1] as nat,
        ),
{
}

/// A run of zero groups is counted up to the first other group.
pub proof fn law_zero_run(g: Seq<u16>, i: int)
    requires
        0 <= i < g.len(),
    ensures
        g[i] != 0 ==> zero_run(g, i) == 0,
        g[i] == 0 ==> zero_run(g, i) == 1 + zero_run(g, i + 1),
        zero_run(g, g.len() as int) == 0,
{
}

/// An amount of money is written as its whole units and two digits of
/// hundredths, with a minus sign just where it is negative.
pub proof fn law_money_is_written(cents: int) -> (r: (Seq<char>, Seq<char>))
    ensures
        money_text(cents) == (if cents < 0 { seq!['-'] } else { Seq::empty() }) + r.0 + seq!['.'] + r.1,
        all_digits(r.0),
        all_digits(r.1),
        r.1.len() == 2,
        digits_value(r.0) * 100 + digits_value(r.1) == (if cents < 0 { -cents } else { cents }),
{
    let abs = (if cents < 0 { -cents } else { cents }) as nat;
    let w = decimal(abs / 100);
    let f = padded_decimal(abs % 100, 2);
    law_decimal_value(abs / 100);
    lemma_two(abs % 100);
    let sign: Seq<char> = if cents < 0 { seq!['-'] } else { Seq::empty() };
    assert(money_text(cents) =~= sign + w + seq!['.'] + f);
    (w, f)
}

// ── Scalars ─────────────────────────────────────────────────────────

/// Integers, truth values and texts are literals in quotes; bytes of another
/// length are none.
pub proof fn law_plain_scalars(b: Seq<u8>, s: Seq<char>)
    ensures
        b.len() == 2 ==> scalar_value(21, b) == Some(seq!['\''] + signed_decimal(be_int(b)) + seq!['\'']),
        b.len() == 4 ==> scalar_value(23, b) == Some(seq!['\''] + signed_decimal(be_int(b)) + seq!['\'']),
        b.len() == 8 ==> scalar_value(20, b) == Some(seq!['\''] + signed_decimal(be_int(b)) + seq!['\'']),
        b.len() != 2 ==> scalar_value(21, b) is None,
        b.len() != 4 ==> scalar_value(23, b) is None,
        b.len() != 8 ==> scalar_value(20, b) is None,
        b.len() == 1 ==> scalar_value(16, b) == Some(
            if b[0] == 0 {
                seq!['\'', 'f', '\'']
            } else {
                seq!['\'', 't', '\'']
            },
        ),
        b.len() == 4 ==> scalar_value(26, b) == Some(seq!['\''] + decimal(be_uint(b)) + seq!['\'']),
        scalar_value(25, encode_utf8(s)) == Some(seq!['\''] + quotes_doubled(s) + seq!['\'']),
        scalar_value(1043, encode_utf8(s)) == Some(seq!['\''] + quotes_doubled(s) + seq!['\'']),
        scalar_value(1042, encode_utf8(s)) == Some(seq!['\''] + quotes_doubled(s) + seq!['\'']),
        scalar_value(19, encode_utf8(s)) == Some(seq!['\''] + quotes_doubled(s) + seq!['\'']),
        scalar_value(114, encode_utf8(s)) == Some(seq!['\''] + quotes_doubled(s) + seq!['\'']),
        scalar_value(142, encode_utf8(s)) == Some(seq!['\''] + quotes_doubled(s) + seq!['\''] + "::xml"@),
        scalar_value(3802, seq![1u8] + encode_utf8(s)) == Some(
            seq!['\''] + quotes_doubled(s) + seq!['\''] + "::jsonb"@,
        ),
        !valid_utf8(b) ==> scalar_value(25, b) is None && scalar_value(1043, b) is None && scalar_value(114, b) is None,
        numeric_value(b) is Some ==> scalar_value(1700, b) == Some(seq!['\''] + numeric_value(b)->0 + seq!['\'']),
        numeric_value(b) is None ==> scalar_value(1700, b) is None,
        scalar_value(17, b) == Some(seq!['E', '\'', '\\', '\\', 'x'] + hex_text(b) + seq!['\'']),
{
    encode_utf8_valid_utf8(s);
    encode_utf8_decode_utf8(s);
    assert((seq![1u8] + encode_utf8(s)).skip(1) =~= encode_utf8(s));
    reveal_strlit("E'\\\\x");
    assert("E'\\\\x"@ =~= seq!['E', '\'', '\\', '\\', 'x']);
    assert(quoted(seq!['f']) =~= seq!['\'', 'f', '\'']);
    assert(quoted(seq!['t']) =~= seq!['\'', 't', '\'']);
}

/// Values of the other types are literals in quotes with a cast.
pub proof fn law_cast_scalars(b: Seq<u8>)
    ensures
        b.len() == 4 ==> scalar_value(1082, b) == Some(seq!['\''] + date_text(be_int(b)) + seq!['\''] + "::date"@),
        b.len() == 8 && 0 <= be_int(b) < 86_400_000_000 ==> scalar_value(1083, b) == Some(
            seq!['\''] + clock_text(be_int(b) as nat) + seq!['\''] + "::time"@,
        ),
        b.len() == 8 && !(0 <= be_int(b) < 86_400_000_000) ==> scalar_value(1083, b) is None,
        b.len() == 8 ==> scalar_value(1114, b) == Some(
            seq!['\''] + timestamp_text(be_int(b)) + seq!['\''] + "::timestamp"@,
        ),
        b.len() == 8 ==> scalar_value(1184, b) == Some(
            seq!['\''] + (timestamp_text(be_int(b)) + "+00"@) + seq!['\''] + "::timestamptz"@,
        ),
        b.len() == 8 ==> scalar_value(790, b) == Some(seq!['\''] + money_text(be_int(b)) + seq!['\''] + "::money"@),
        b.len() == 16 ==> scalar_value(2950, b) == Some(seq!['\''] + uuid_text(b) + seq!['\'']),
        b.len() == 6 ==> scalar_value(829, b) == Some(seq!['\''] + colon_hex(b) + seq!['\''] + "::macaddr"@),
        b.len() == 8 ==> scalar_value(774, b) == Some(seq!['\''] + colon_hex(b) + seq!['\''] + "::macaddr8"@),
        interval_value(b) is Some ==> scalar_value(1186, b) == Some(
            seq!['\''] + interval_value(b)->0 + seq!['\''] + "::interval"@,
        ),
        timetz_value(b) is Some ==> scalar_value(1266, b) == Some(
            seq!['\''] + timetz_value(b)->0 + seq!['\''] + "::timetz"@,
        ),
        inet_value(b) is Some ==> scalar_value(869, b) == Some(seq!['\''] + inet_value(b)->0 + seq!['\''] + "::inet"@),
        inet_value(b) is Some ==> scalar_value(650, b) == Some(seq!['\''] + inet_value(b)->0 + seq!['\''] + "::cidr"@),
        bit_string_value(b) is Some ==> scalar_value(1560, b) == Some(
            seq!['B'] + (seq!['\''] + bit_string_value(b)->0 + seq!['\'']),
        ) && scalar_value(1562, b) == scalar_value(1560, b),
{
}

/// Without extensions a scalar is a literal without floating point, and a float
/// is its bits in quotes.
pub proof fn law_scalar_literals(oid: u32, b: Seq<u8>)
    ensures
        oid != 700 && oid != 701 && array_cast_name(oid) is None ==> literal_value(oid, b, no_extensions()) == (
        match scalar_value(oid, b) {
            Some(s) => Some(plain(s)),
            None => None,
        }),
        b.len() == 4 ==> literal_value(700, b, no_extensions()) == Some(
            seq![Piece::Char('\''), Piece::Float(FloatBits::Single(be_uint(b) as u32)), Piece::Char('\'')],
        ),
        b.len() == 8 ==> literal_value(701, b, no_extensions()) == Some(
            seq![Piece::Char('\''), Piece::Float(FloatBits::Double(be_uint(b) as u64)), Piece::Char('\'')],
        ),
{
    reveal_strlit("'");
    if b.len() == 4 {
        assert(literal_value(700, b, no_extensions())->0 =~= seq![
            Piece::Char('\''),
            Piece::Float(FloatBits::Single(be_uint(b) as u32)),
            Piece::Char('\''),
        ]);
    }
    if b.len() == 8 {
        assert(literal_value(701, b, no_extensions())->0 =~= seq![
            Piece::Char('\''),
            Piece::Float(FloatBits::Double(be_uint(b) as u64)),
            Piece::Char('\''),
        ]);
    }
}

// ── Arrays ──────────────────────────────────────────────────────────

/// An element of an array is quoted where it is empty, reads NULL, or holds a
/// comma, a brace, a quote, a backslash or white space; in quotes a backslash
/// stands before each quote and backslash.
pub proof fn law_array_elements_are_quoted(s: Seq<char>, i: int, a: Seq<char>, b: Seq<char>, x: char)
    ensures
        s.len() == 0 ==> array_quoted(s) == seq!['"', '"'],
        ascii_uppercase(s) == "NULL"@ ==> array_quoted(s) == seq!['"'] + array_escaped(s) + seq!['"'],
        0 <= i < s.len() && (s[i] == ',' || s[i] == '{' || s[i] == '}' || s[i] == '"' || s[i] == '\\' || is_space(s[i]))
            ==> array_quoted(s) == seq!['"'] + array_escaped(s) + seq!['"'],
        s.len() > 0 && ascii_uppercase(s) != "NULL"@ && (forall|k: int|
            0 <= k < s.len() ==> #[trigger] s[k] != ',' && s[k] != '{' && s[k] != '}' && s[k] != '"' && s[k] != '\\'
                && !is_space(s[k])) ==> array_quoted(s) == s,
        array_escaped(a + b) == array_escaped(a) + array_escaped(b),
        x != '"' && x != '\\' ==> array_escaped(seq![x]) == seq![x],
        array_escaped(seq!['"']) == seq!['\\', '"'],
        array_escaped(seq!['\\']) == seq!['\\', '\\'],
    decreases b.len(),
{
    let e = Seq::<char>::empty();
    assert(array_escaped(e) =~= e);
    if s.len() == 0 {
        assert(s =~= e);
        assert(array_quoted(s) =~= seq!['"', '"']);
    }
    if 0 <= i < s.len() && (s[i] == ',' || s[i] == '{' || s[i] == '}' || s[i] == '"' || s[i] == '\\' || is_space(s[i])) {
        assert(crate::proxy::pg_binary::needs_array_quote_char(s[i]));
    }
    assert(seq![x].drop_last() =~= e);
    assert(seq!['"'].drop_last() =~= e);
    assert(seq!['\\'].drop_last() =~= e);
    assert(array_escaped(seq!['"']) =~= seq!['\\', '"']);
    assert(array_escaped(seq!['\\']) =~= seq!['\\', '\\']);
    if x != '"' && x != '\\' {
        assert(array_escaped(seq![x]) =~= seq![x]);
    }
    if b.len() == 0 {
        assert(a + b =~= a);
        assert(array_escaped(a) + array_escaped(b) =~= array_escaped(a));
    } else {
        law_array_elements_are_quoted(s, i, a, b.drop_last(), x);
        assert((a + b).drop_last() =~= a + b.drop_last());
        assert(array_escaped(a + b) =~= array_escaped(a) + array_escaped(b));
    }
}

/// An element of an array is read by its length; one of length -1 is NULL.
pub proof fn law_array_element_is_read(b: Seq<u8>, pos: int, oid: u32, v: Seq<u8>)
    requires
        0 <= pos,
        pos + 4 <= b.len(),
    ensures
        be_int(b.subrange(pos, pos + 4)) == -1 ==> element_at(b, pos, oid) == Some((plain("NULL"@), pos + 4)),
        be_int(b.subrange(pos, pos + 4)) == v.len() && pos + 4 + v.len() <= b.len() && b.subrange(
            pos + 4,
            pos + 4 + v.len(),
        ) == v ==> element_at(b, pos, oid) == (match element_value(oid, v) {
            Some(p) => Some((p, pos + 4 + v.len())),
            None => None,
        }),
{
    reveal(element_at);
    assert(field(b, pos, 4) =~= b.subrange(pos, pos + 4));
    assert(field(b, pos + 4, v.len() as int) =~= b.subrange(pos + 4, pos + 4 + v.len()));
}

/// The elements of an array are those that its values stand for: integers and
/// numerics plain, texts quoted where they need it.
pub proof fn law_array_element_values(b: Seq<u8>, s: Seq<char>)
    ensures
        b.len() == 4 ==> element_value(23, b) == Some(plain(signed_decimal(be_int(b)))),
        b.len() == 8 ==> element_value(20, b) == Some(plain(signed_decimal(be_int(b)))),
        b.len() == 2 ==> element_value(21, b) == Some(plain(signed_decimal(be_int(b)))),
        b.len() == 16 ==> element_value(2950, b) == Some(plain(uuid_text(b))),
        numeric_value(b) is Some ==> element_value(1700, b) == Some(plain(numeric_value(b)->0)),
        element_value(25, encode_utf8(s)) == Some(plain(array_quoted(s))),
        element_value(1043, encode_utf8(s)) == Some(plain(array_quoted(s))),
        b.len() > 0 ==> element_value(16, b) == Some(plain(if b[0] == 0 { seq!['f'] } else { seq!['t'] })),
        b.len() == 4 ==> element_value(1082, b) == Some(plain(array_quoted(date_text(be_int(b))))),
        b.len() == 8 ==> element_value(1114, b) == Some(plain(array_quoted(timestamp_text(be_int(b))))),
        b.len() == 4 ==> element_value(700, b) == Some(seq![Piece::Float(FloatBits::Single(be_uint(b) as u32))]),
        b.len() == 8 ==> element_value(701, b) == Some(seq![Piece::Float(FloatBits::Double(be_uint(b) as u64))]),
{
    encode_utf8_valid_utf8(s);
    encode_utf8_decode_utf8(s);
}

/// Parts are joined with a separator between each two, in order.
pub proof fn law_pieces_are_joined(parts: Seq<Seq<Piece>>, x: Seq<Piece>, sep: Seq<Piece>)
    ensures
        join_pieces(Seq::<Seq<Piece>>::empty(), sep) == Seq::<Piece>::empty(),
        join_pieces(seq![x], sep) == x,
        parts.len() > 0 ==> join_pieces(parts.push(x), sep) == join_pieces(parts, sep) + sep + x,
{
    assert(parts.push(x).drop_last() =~= parts);
}

/// An array of one dimension that begins at one is its elements in braces with
/// commas; one without dimensions is empty, any other is not decoded.
pub proof fn law_array_is_read(b: Seq<u8>, parts: Seq<Seq<Piece>>)
    requires
        b.len() >= 20,
    ensures
        be_int(b.subrange(0, 4)) == 0 ==> array_value(b) == Some(plain("{}"@)),
        be_int(b.subrange(0, 4)) > 1 ==> array_value(b) is None,
        be_int(b.subrange(0, 4)) == 1 && be_int(b.subrange(16, 20)) != 1 ==> array_value(b) is None,
        be_int(b.subrange(0, 4)) == 1 && be_int(b.subrange(16, 20)) == 1 && be_int(b.subrange(12, 16)) >= 0
            && array_elements(b, 20, be_int(b.subrange(12, 16)), be_uint(b.subrange(8, 12)) as u32) == Some(parts)
            ==> array_value(b) == Some(plain("{"@) + join_pieces(parts, plain(","@)) + plain("}"@)),
{
    assert(field(b, 0, 4) =~= b.subrange(0, 4));
    assert(field(b, 8, 4) =~= b.subrange(8, 12));
    assert(field(b, 12, 4) =~= b.subrange(12, 16));
    assert(field(b, 16, 4) =~= b.subrange(16, 20));
}

/// An array's elements are read one behind the other.
pub proof fn law_array_elements_follow(b: Seq<u8>, pos: int, n: int, oid: u32)
    requires
        n > 0,
    ensures
        element_at(b, pos, oid) is None ==> array_elements(b, pos, n, oid) is None,
        element_at(b, pos, oid) matches Some((one, next)) ==> (array_elements(b, next, n - 1, oid) matches Some(rest)
            ==> array_elements(b, pos, n, oid) == Some(seq![one] + rest)),
        array_elements(b, pos, 0, oid) == Some(Seq::<Seq<Piece>>::empty()),
{
}

/// Arrays are cast to the types of their elements.
pub proof fn law_array_casts()
    ensures
        array_cast_name(1000) == Some("boolean[]"@),
        array_cast_name(1005) == Some("int2[]"@),
        array_cast_name(1007) == Some("int4[]"@),
        array_cast_name(1016) == Some("int8[]"@),
        array_cast_name(1009) == Some("text[]"@),
        array_cast_name(1015) == Some("varchar[]"@),
        array_cast_name(1021) == Some("float4[]"@),
        array_cast_name(1022) == Some("float8[]"@),
        array_cast_name(1182) == Some("date[]"@),
        array_cast_name(1115) == Some("timestamp[]"@),
        array_cast_name(1185) == Some("timestamptz[]"@),
        array_cast_name(1231) == Some("numeric[]"@),
        array_cast_name(2951) == Some("uuid[]"@),
        array_cast_name(3807) == Some("jsonb[]"@),
{
}

} // verus!
