//! PostgreSQL binary wire-format decoders.
//!
//! When a client uses the extended query protocol with binary format codes,
//! bind parameters arrive as raw bytes laid out according to PG's per-type
//! binary representation. The capture path substitutes bind parameters into
//! the captured SQL as text literals, so they are decoded here. Unknown OIDs
//! and malformed bytes decode to nothing, and the caller falls back to a
//! placeholder.
//!
//! The text of a floating-point number is not made here: a literal holds the
//! number's bits at its place, and `Literal::render` takes the texts.

use crate::number::{
    all_digits, decimal, digits_value, hexadecimal, law_decimal_value, lemma_four_digits, lemma_padded_four,
    lemma_zeros_value, padded_decimal, push_decimal, push_hexadecimal, push_padded, push_signed, push_zeros,
    signed_decimal, signed_string, zeros,
};
use crate::proxy::calendar::{
    clock_text, date_text, push_clock, push_date, push_timestamp, timestamp_text,
};
use crate::proxy::wire::{
    be_int, be_uint, field, read_i16, read_i32, read_i64, read_u16, read_u32, read_u64,
};
use crate::sql::lex::{lexemes, lexemes_from, quoted_end, token_at, Before, Lexeme, TokenKind};
use crate::text::{
    ascii_uppercase, char_is_space, chars_are, from_utf8, is_space, match_at, push_chars, to_ascii_uppercase,
    to_chars, views,
};
use vstd::prelude::*;
use vstd::slice::slice_subrange;
use vstd::utf8::{decode_utf8, valid_utf8};

verus! {

// ── Literals ────────────────────────────────────────────────────────

/// The bits of a floating-point number.
#[derive(Debug, Clone, Copy, PartialEq, Eq, Structural)]
pub enum FloatBits {
    /// IEEE-754 binary32.
    Single(u32),
    /// IEEE-754 binary64.
    Double(u64),
}

/// A character of a literal, or a number whose text stands at this place.
#[derive(Debug, Clone, Copy, PartialEq, Eq, Structural)]
pub enum Piece {
    Char(char),
    Float(FloatBits),
}

/// A SQL literal, quoted and escaped.
#[derive(Debug)]
pub struct Literal {
    pub pieces: Vec<Piece>,
}

/// A character as a piece.
pub open spec fn char_piece(c: char) -> Piece {
    Piece::Char(c)
}

/// The pieces of a plain text.
pub open spec fn plain(s: Seq<char>) -> Seq<Piece> {
    Seq::new(s.len(), |i: int| char_piece(s[i]))
}

/// The bits of the numbers among the pieces, in order.
pub open spec fn float_bits(p: Seq<Piece>) -> Seq<FloatBits>
    decreases p.len(),
{
    if p.len() == 0 {
        Seq::empty()
    } else {
        match p.last() {
            Piece::Char(_) => float_bits(p.drop_last()),
            Piece::Float(f) => float_bits(p.drop_last()).push(f),
        }
    }
}

/// The pieces as text, the numbers written as the given texts in order.
pub open spec fn rendered(p: Seq<Piece>, texts: Seq<Seq<char>>) -> Seq<char>
    decreases p.len(),
{
    if p.len() == 0 {
        Seq::empty()
    } else {
        match p.last() {
            Piece::Char(c) => rendered(p.drop_last(), texts).push(c),
            Piece::Float(_) => rendered(p.drop_last(), texts) + texts[float_bits(p).len() - 1],
        }
    }
}

/// A literal without numbers renders to its text.
pub proof fn law_plain_renders_to_itself(s: Seq<char>, texts: Seq<Seq<char>>)
    ensures
        rendered(plain(s), texts) == s,
        float_bits(plain(s)) == Seq::<FloatBits>::empty(),
    decreases s.len(),
{
    if s.len() > 0 {
        law_plain_renders_to_itself(s.drop_last(), texts);
        assert(plain(s).drop_last() =~= plain(s.drop_last()));
        assert(plain(s).last() == Piece::Char(s.last()));
        assert(rendered(plain(s), texts) =~= s);
    }
}

proof fn lemma_float_count(p: Seq<Piece>, k: int)
    requires
        0 <= k <= p.len(),
    ensures
        float_bits(p.take(k)).len() <= float_bits(p).len(),
    decreases p.len() - k,
{
    if k == p.len() {
        assert(p.take(k) =~= p);
    } else {
        lemma_float_count(p, k + 1);
        assert(p.take(k + 1).drop_last() =~= p.take(k));
    }
}

impl Literal {
    /// The bits of the floating-point numbers in the literal, in order.
    pub fn floats(&self) -> (r: Vec<FloatBits>)
        ensures
            r@ == float_bits(self.pieces@),
    {
        let mut out: Vec<FloatBits> = Vec::new();
        let ghost p = self.pieces@;
        for i in 0..self.pieces.len()
            invariant
                p == self.pieces@,
                out@ == float_bits(p.take(i as int)),
        {
            proof {
                assert(p.take(i + 1).drop_last() =~= p.take(i as int));
            }
            if let Piece::Float(f) = self.pieces[i] {
                out.push(f);
            }
        }
        proof {
            assert(p.take(p.len() as int) =~= p);
        }
        out
    }

    /// The text of the literal, given the texts of its floating-point numbers
    /// in order. `None` if there are not as many texts as numbers.
    pub fn render(&self, texts: &[String]) -> (r: Option<String>)
        ensures
            r is Some <==> texts@.len() == float_bits(self.pieces@).len(),
            r is Some ==> r->0@ == rendered(self.pieces@, views(texts@)),
    {
        if texts.len() != self.floats().len() {
            return None;
        }
        let mut out = String::new();
        let mut used: usize = 0;
        let ghost p = self.pieces@;
        for i in 0..self.pieces.len()
            invariant
                p == self.pieces@,
                texts@.len() == float_bits(p).len(),
                used == float_bits(p.take(i as int)).len(),
                out@ == rendered(p.take(i as int), views(texts@)),
        {
            proof {
                assert(p.take(i + 1).drop_last() =~= p.take(i as int));
                lemma_float_count(p, i + 1);
            }
            match self.pieces[i] {
                Piece::Char(c) => {
                    out.push(c);
                },
                Piece::Float(_) => {
                    out.push_str(texts[used].as_str());
                    used = used + 1;
                },
            }
        }
        proof {
            assert(p.take(p.len() as int) =~= p);
        }
        Some(out)
    }
}

fn push_plain(out: &mut Vec<Piece>, s: &str)
    ensures
        final(out)@ == old(out)@ + plain(s@),
{
    let v = to_chars(s);
    let ghost before = out@;
    proof {
        assert(before + plain(s@.take(0)) =~= before);
    }
    for i in 0..v.len()
        invariant
            v@ == s@,
            out@ == before + plain(s@.take(i as int)),
    {
        out.push(Piece::Char(v[i]));
        proof {
            assert(s@.take(i + 1).drop_last() =~= s@.take(i as int));
            assert(before + plain(s@.take(i + 1)) =~= (before + plain(s@.take(i as int))).push(
                char_piece(s@[i as int]),
            ));
        }
    }
    proof {
        assert(s@.take(s@.len() as int) =~= s@);
    }
}

fn plain_pieces(s: &str) -> (r: Vec<Piece>)
    ensures
        r@ == plain(s@),
{
    let mut out: Vec<Piece> = Vec::new();
    push_plain(&mut out, s);
    proof {
        assert(Seq::<Piece>::empty() + plain(s@) =~= plain(s@));
    }
    out
}

/// The text between single quotes.
pub open spec fn quoted(s: Seq<char>) -> Seq<char> {
    seq!['\''] + s + seq!['\'']
}

/// A text between single quotes with a cast behind it.
fn cast_literal(body: &str, cast: &str) -> (r: String)
    ensures
        r@ == quoted(body@) + cast@,
{
    let mut out = String::new();
    out.push('\'');
    out.push_str(body);
    out.push('\'');
    out.push_str(cast);
    proof {
        assert(out@ =~= quoted(body@) + cast@);
    }
    out
}

fn quote_literal(body: &str) -> (r: String)
    ensures
        r@ == quoted(body@),
{
    let mut out = String::new();
    out.push('\'');
    out.push_str(body);
    out.push('\'');
    proof {
        assert(out@ =~= quoted(body@));
    }
    out
}

/// A text with every single quote doubled.
pub open spec fn quotes_doubled(s: Seq<char>) -> Seq<char>
    decreases s.len(),
{
    if s.len() == 0 {
        s
    } else if s.last() == '\'' {
        quotes_doubled(s.drop_last()) + seq!['\'', '\'']
    } else {
        quotes_doubled(s.drop_last()).push(s.last())
    }
}

proof fn lemma_doubled_prefix(s: Seq<char>, k: int)
    requires
        0 <= k <= s.len(),
    ensures
        quotes_doubled(s.take(k)).len() <= quotes_doubled(s).len(),
        quotes_doubled(s).take(quotes_doubled(s.take(k)).len() as int) == quotes_doubled(s.take(k)),
    decreases s.len() - k,
{
    let d = quotes_doubled(s);
    if k == s.len() {
        assert(s.take(k) =~= s);
        assert(d.take(d.len() as int) =~= d);
    } else {
        lemma_doubled_prefix(s, k + 1);
        let a = quotes_doubled(s.take(k));
        let b = quotes_doubled(s.take(k + 1));
        assert(s.take(k + 1).drop_last() =~= s.take(k));
        assert(b.take(a.len() as int) =~= a);
        assert(d.take(a.len() as int) =~= d.take(b.len() as int).take(a.len() as int));
    }
}

proof fn lemma_literal_goes_on(s: Seq<char>, k: int)
    requires
        0 <= k <= s.len(),
    ensures
        quoted_end(quoted(quotes_doubled(s)), 1, '\'') == quoted_end(
            quoted(quotes_doubled(s)),
            1 + quotes_doubled(s.take(k)).len() as int,
            '\'',
        ),
    decreases k,
{
    let d = quotes_doubled(s);
    let c = quoted(d);
    if k == 0 {
        assert(s.take(0).len() == 0);
        assert(quotes_doubled(s.take(0)).len() == 0);
    } else {
        lemma_literal_goes_on(s, k - 1);
        lemma_doubled_prefix(s, k);
        let a = quotes_doubled(s.take(k - 1));
        let b = quotes_doubled(s.take(k));
        let p = 1 + a.len() as int;
        assert(s.take(k).drop_last() =~= s.take(k - 1));
        assert(s.take(k).last() == s[k - 1]);
        assert forall|i: int| 0 <= i < b.len() implies c[1 + i] == b[i] by {
            assert(d.take(b.len() as int)[i] == d[i]);
        }
        assert(c[p] == b[a.len() as int]);
        if s[k - 1] == '\'' {
            assert(c[p + 1] == b[a.len() as int + 1]);
        }
    }
}

/// A quoted text is one string literal: nothing in the text ends it.
pub proof fn law_quoted_text_is_one_literal(s: Seq<char>)
    ensures
        lexemes(quoted(quotes_doubled(s))) == seq![
            Lexeme {
                kind: TokenKind::StringLiteral,
                start: 0,
                end: quoted(quotes_doubled(s)).len() as int,
            },
        ],
{
    let d = quotes_doubled(s);
    let c = quoted(d);
    lemma_literal_goes_on(s, s.len() as int);
    assert(s.take(s.len() as int) =~= s);
    let p = 1 + d.len() as int;
    assert(c[p] == '\'');
    assert(quoted_end(c, 1, '\'') == c.len());
    assert(c[0] == '\'');
    assert(!match_at(c, seq!['-', '-'], 0)) by {
        if match_at(c, seq!['-', '-'], 0) {
            assert(c.subrange(0, 2)[0] == seq!['-', '-'][0]);
        }
    }
    assert(!match_at(c, seq!['/', '*'], 0)) by {
        if match_at(c, seq!['/', '*'], 0) {
            assert(c.subrange(0, 2)[0] == seq!['/', '*'][0]);
        }
    }
    assert(token_at(c, 0, Before::Start) == (TokenKind::StringLiteral, c.len() as int));
    assert(lexemes_from(c, c.len() as int, Before::Other) =~= Seq::empty());
    assert(lexemes(c) =~= seq![Lexeme { kind: TokenKind::StringLiteral, start: 0, end: c.len() as int }]);
}

/// A text as a SQL string literal: between single quotes, with the quotes in
/// it doubled.
pub fn sql_quote_text(s: &str) -> (r: String)
    ensures
        r@ == quoted(quotes_doubled(s@)),
{
    let v = to_chars(s);
    let mut out = String::new();
    out.push('\'');
    proof {
        assert(out@ =~= seq!['\''] + quotes_doubled(s@.take(0)));
    }
    for i in 0..v.len()
        invariant
            v@ == s@,
            out@ == seq!['\''] + quotes_doubled(s@.take(i as int)),
    {
        proof {
            assert(s@.take(i + 1).drop_last() =~= s@.take(i as int));
        }
        let ghost before = out@;
        if v[i] == '\'' {
            out.push('\'');
        }
        out.push(v[i]);
        proof {
            assert(out@ =~= seq!['\''] + quotes_doubled(s@.take(i + 1)));
        }
    }
    out.push('\'');
    proof {
        assert(s@.take(s@.len() as int) =~= s@);
        assert(out@ =~= quoted(quotes_doubled(s@)));
    }
    out
}

// ── Hexadecimal, UUID and MAC addresses ─────────────────────────────

/// Two hexadecimal digits for each byte.
pub open spec fn hex_text(b: Seq<u8>) -> Seq<char>
    decreases b.len(),
{
    if b.len() == 0 {
        Seq::empty()
    } else {
        hex_text(b.drop_last()) + crate::number::zero_pad(hexadecimal(b.last() as nat), 2)
    }
}

fn push_hex_byte(out: &mut String, b: u8)
    ensures
        final(out)@ == old(out)@ + crate::number::zero_pad(hexadecimal(b as nat), 2),
{
    let ghost before = out@;
    if b < 16 {
        out.push('0');
    }
    push_hexadecimal(out, b as u64);
    proof {
        reveal_with_fuel(crate::number::base_digits, 3);
        assert(out@ =~= before + crate::number::zero_pad(hexadecimal(b as nat), 2));
    }
}

fn push_hex(out: &mut String, b: &[u8])
    ensures
        final(out)@ == old(out)@ + hex_text(b@),
{
    let ghost before = out@;
    proof {
        assert(before + hex_text(b@.take(0)) =~= before);
    }
    for i in 0..b.len()
        invariant
            out@ == before + hex_text(b@.take(i as int)),
    {
        proof {
            assert(b@.take(i + 1).drop_last() =~= b@.take(i as int));
        }
        push_hex_byte(out, b[i]);
        proof {
            assert(out@ =~= before + hex_text(b@.take(i + 1)));
        }
    }
    proof {
        assert(b@.take(b@.len() as int) =~= b@);
    }
}

/// The bytes in hexadecimal, in groups of 8, 4, 4, 4 and 12 digits.
pub open spec fn uuid_text(b: Seq<u8>) -> Seq<char> {
    hex_text(field(b, 0, 4)) + seq!['-'] + hex_text(field(b, 4, 2)) + seq!['-'] + hex_text(
        field(b, 6, 2),
    ) + seq!['-'] + hex_text(field(b, 8, 2)) + seq!['-'] + hex_text(field(b, 10, 6))
}

fn format_uuid(b: &[u8]) -> (r: String)
    requires
        b@.len() == 16,
    ensures
        r@ == uuid_text(b@),
{
    let mut out = String::new();
    push_hex(&mut out, slice_subrange(b, 0, 4));
    out.push('-');
    push_hex(&mut out, slice_subrange(b, 4, 6));
    out.push('-');
    push_hex(&mut out, slice_subrange(b, 6, 8));
    out.push('-');
    push_hex(&mut out, slice_subrange(b, 8, 10));
    out.push('-');
    push_hex(&mut out, slice_subrange(b, 10, 16));
    proof {
        assert(out@ =~= uuid_text(b@));
    }
    out
}

/// The bytes in hexadecimal with a colon between each two.
pub open spec fn colon_hex(b: Seq<u8>) -> Seq<char>
    decreases b.len(),
{
    if b.len() == 0 {
        Seq::empty()
    } else {
        let one = crate::number::zero_pad(hexadecimal(b.last() as nat), 2);
        if b.len() == 1 {
            one
        } else {
            colon_hex(b.drop_last()) + seq![':'] + one
        }
    }
}

fn format_mac(b: &[u8]) -> (r: String)
    ensures
        r@ == colon_hex(b@),
{
    let mut out = String::new();
    for i in 0..b.len()
        invariant
            out@ == colon_hex(b@.take(i as int)),
    {
        proof {
            assert(b@.take(i + 1).drop_last() =~= b@.take(i as int));
        }
        if i > 0 {
            out.push(':');
        }
        push_hex_byte(&mut out, b[i]);
        proof {
            assert(out@ =~= colon_hex(b@.take(i + 1)));
        }
    }
    proof {
        assert(b@.take(b@.len() as int) =~= b@);
    }
    out
}

// ── Dates, times and intervals ──────────────────────────────────────

/// Whether a number of microseconds is a time of day.
pub open spec fn is_time_of_day(micros: int) -> bool {
    0 <= micros < 86_400_000_000
}

fn format_pg_date(days: i32) -> (r: String)
    ensures
        r@ == date_text(days as int),
{
    let mut out = String::new();
    push_date(&mut out, days);
    proof {
        assert(out@ =~= date_text(days as int));
    }
    out
}

fn format_pg_time(micros: i64) -> (r: Option<String>)
    ensures
        r is Some <==> is_time_of_day(micros as int),
        r is Some ==> r->0@ == clock_text(micros as nat),
{
    if micros < 0 || micros >= 86_400_000_000 {
        return None;
    }
    let mut out = String::new();
    push_clock(&mut out, micros as u64);
    proof {
        assert(out@ =~= clock_text(micros as nat));
    }
    Some(out)
}

/// The text of a timestamp; with `utc`, of one in UTC.
pub open spec fn pg_timestamp_text(micros: int, utc: bool) -> Seq<char> {
    if utc {
        timestamp_text(micros) + "+00"@
    } else {
        timestamp_text(micros)
    }
}

fn format_pg_timestamp(micros: i64, utc: bool) -> (r: String)
    ensures
        r@ == pg_timestamp_text(micros as int, utc),
{
    let mut out = String::new();
    push_timestamp(&mut out, micros);
    if utc {
        out.push_str("+00");
    }
    proof {
        assert(out@ =~= pg_timestamp_text(micros as int, utc));
    }
    out
}

/// The text of an interval: months and days unless they are zero, then a
/// signed time; `0` if all three are zero.
pub open spec fn interval_text(months: int, days: int, micros: int) -> Seq<char> {
    let m = if months != 0 { signed_decimal(months) + " mons "@ } else { Seq::empty() };
    let d = if days != 0 { signed_decimal(days) + " days "@ } else { Seq::empty() };
    if months == 0 && days == 0 && micros == 0 {
        seq!['0']
    } else if micros < 0 {
        m + d + seq!['-'] + clock_text((-micros) as nat)
    } else {
        m + d + clock_text(micros as nat)
    }
}

/// The text of an interval in binary form: eight bytes of microseconds, four
/// of days, four of months.
pub open spec fn interval_value(b: Seq<u8>) -> Option<Seq<char>> {
    if b.len() != 16 {
        None
    } else {
        Some(interval_text(be_int(field(b, 12, 4)), be_int(field(b, 8, 4)), be_int(field(b, 0, 8))))
    }
}

fn decode_interval(b: &[u8]) -> (r: Option<String>)
    ensures
        r is Some <==> interval_value(b@) is Some,
        r is Some ==> interval_value(b@) == Some(r->0@),
{
    if b.len() != 16 {
        return None;
    }
    let micros = read_i64(b, 0);
    let days = read_i32(b, 8);
    let months = read_i32(b, 12);
    let mut out = String::new();
    if months == 0 && days == 0 && micros == 0 {
        out.push('0');
        proof {
            assert(out@ =~= seq!['0']);
        }
        return Some(out);
    }
    if months != 0 {
        push_signed(&mut out, months as i64);
        out.push_str(" mons ");
    }
    if days != 0 {
        push_signed(&mut out, days as i64);
        out.push_str(" days ");
    }
    if micros < 0 {
        out.push('-');
    }
    push_clock(&mut out, crate::number::magnitude(micros));
    proof {
        assert(out@ =~= interval_text(months as int, days as int, micros as int));
    }
    Some(out)
}

/// The text of a time with zone: the time of day and the offset, whose sign is
/// the inverse of the stored seconds west of UTC.
pub open spec fn timetz_value(b: Seq<u8>) -> Option<Seq<char>> {
    if b.len() != 12 || !is_time_of_day(be_int(field(b, 0, 8))) {
        None
    } else {
        let west = be_int(field(b, 8, 4));
        let off = (if west < 0 { -west } else { west }) as nat;
        let sign = if west > 0 { '-' } else { '+' };
        let hours = clock_text(be_int(field(b, 0, 8)) as nat).push(sign) + padded_decimal(off / 3600, 2);
        let minutes = (off % 3600) / 60;
        Some(
            if minutes == 0 {
                hours
            } else {
                hours + seq![':'] + padded_decimal(minutes, 2)
            },
        )
    }
}

fn decode_timetz(b: &[u8]) -> (r: Option<String>)
    ensures
        r is Some <==> timetz_value(b@) is Some,
        r is Some ==> timetz_value(b@) == Some(r->0@),
{
    if b.len() != 12 {
        return None;
    }
    let micros = read_i64(b, 0);
    let west = read_i32(b, 8);
    match format_pg_time(micros) {
        None => None,
        Some(time) => {
            let mut out = time;
            let off: u64 = crate::number::magnitude(west as i64);
            out.push(if west > 0 { '-' } else { '+' });
            push_padded(&mut out, off / 3600, 2);
            let minutes: u64 = (off % 3600) / 60;
            if minutes != 0 {
                out.push(':');
                push_padded(&mut out, minutes, 2);
            }
            proof {
                assert(Some(out@) == timetz_value(b@)) by {
                    assert(out@ =~= timetz_value(b@)->0);
                }
            }
            Some(out)
        },
    }
}

// ── Numeric ─────────────────────────────────────────────────────────

/// The base-10000 digit at a place, zero where none is stored.
pub open spec fn group(g: Seq<nat>, i: int) -> nat {
    if 0 <= i < g.len() {
        g[i]
    } else {
        0
    }
}

/// The first `n` digit groups as an integer: the first group without, every
/// further one with leading zeros.
pub open spec fn leading_groups(g: Seq<nat>, n: int) -> Seq<char>
    decreases n,
{
    if n <= 1 {
        decimal(group(g, 0))
    } else {
        leading_groups(g, n - 1) + padded_decimal(group(g, n - 1), 4)
    }
}

/// The digit groups from `from` to `to` as decimals, four digits each.
pub open spec fn group_digits(g: Seq<nat>, from: int, to: int) -> Seq<char>
    decreases to - from,
{
    if to <= from {
        Seq::empty()
    } else {
        group_digits(g, from, to - 1) + padded_decimal(group(g, to - 1), 4)
    }
}

/// A text cut or filled up with zeros to a length.
pub open spec fn fitted(s: Seq<char>, n: nat) -> Seq<char> {
    if s.len() > n {
        s.take(n as int)
    } else {
        s + zeros((n - s.len()) as nat)
    }
}

/// The integer part of a number whose first group has the weight `weight`.
pub open spec fn integer_part(g: Seq<nat>, weight: int) -> Seq<char> {
    if weight < 0 {
        seq!['0']
    } else {
        leading_groups(g, weight + 1)
    }
}

/// The digits behind the point: the zero groups that a negative weight skips,
/// then the groups that do not belong to the integer part.
pub open spec fn fraction_digits(g: Seq<nat>, weight: int) -> Seq<char> {
    if weight < 0 {
        zeros((4 * (-1 - weight)) as nat) + group_digits(g, 0, g.len() as int)
    } else {
        group_digits(g, weight + 1, g.len() as int)
    }
}

/// The base-10000 digits of a binary numeric.
pub open spec fn numeric_groups(b: Seq<u8>, n: nat) -> Seq<nat> {
    Seq::new(n, |i: int| be_uint(field(b, 8 + 2 * i, 2)))
}

/// The text of a binary numeric: number of digits, weight, sign and scale in
/// two bytes each, then the base-10000 digits.
pub open spec fn numeric_value(b: Seq<u8>) -> Option<Seq<char>> {
    if b.len() < 8 {
        None
    } else {
        let n = be_int(field(b, 0, 2));
        let weight = be_int(field(b, 2, 2));
        let sign = be_uint(field(b, 4, 2));
        let scale = be_int(field(b, 6, 2));
        let dscale = (if scale < 0 { 0 } else { scale }) as nat;
        if sign == 0xC000 {
            Some("NaN"@)
        } else if sign == 0xD000 {
            Some("Infinity"@)
        } else if sign == 0xF000 {
            Some("-Infinity"@)
        } else if n < 0 || b.len() < 8 + 2 * n {
            None
        } else if n == 0 {
            Some(if dscale == 0 { seq!['0'] } else { seq!['0', '.'] + zeros(dscale) })
        } else {
            let g = numeric_groups(b, n as nat);
            let minus = if sign == 0x4000 { seq!['-'] } else { Seq::empty() };
            let whole = minus + integer_part(g, weight);
            Some(
                if dscale == 0 {
                    whole
                } else {
                    whole + seq!['.'] + fitted(fraction_digits(g, weight), dscale)
                },
            )
        }
    }
}

/// The number that the digit groups from `from` to `to` make up.
pub open spec fn groups_number(g: Seq<nat>, from: int, to: int) -> nat
    decreases to - from,
{
    if to <= from {
        0
    } else {
        groups_number(g, from, to - 1) * 10000 + group(g, to - 1)
    }
}

/// Whether every digit group is below 10000, as PostgreSQL writes them.
pub open spec fn are_groups(g: Seq<nat>) -> bool {
    forall|i: int| 0 <= i < g.len() ==> (#[trigger] g[i]) < 10000
}

proof fn lemma_leading_groups(g: Seq<nat>, n: int)
    requires
        are_groups(g),
        n >= 1,
    ensures
        all_digits(leading_groups(g, n)),
        digits_value(leading_groups(g, n)) == groups_number(g, 0, n),
    decreases n,
{
    assert(group(g, n - 1) < 10000);
    if n == 1 {
        law_decimal_value(group(g, 0));
        assert(groups_number(g, 0, 0) == 0);
    } else {
        lemma_leading_groups(g, n - 1);
        lemma_padded_four(group(g, n - 1));
        lemma_four_digits(leading_groups(g, n - 1), padded_decimal(group(g, n - 1), 4));
    }
}

proof fn lemma_group_digits(g: Seq<nat>, from: int, to: int)
    requires
        are_groups(g),
    ensures
        all_digits(group_digits(g, from, to)),
        digits_value(group_digits(g, from, to)) == groups_number(g, from, to),
        group_digits(g, from, to).len() == (if to <= from { 0 } else { 4 * (to - from) }),
    decreases to - from,
{
    if to > from {
        lemma_group_digits(g, from, to - 1);
        assert(group(g, to - 1) < 10000);
        lemma_padded_four(group(g, to - 1));
        lemma_four_digits(group_digits(g, from, to - 1), padded_decimal(group(g, to - 1), 4));
    }
}

/// A decoded numeric has the value of its digit groups: the integer part is the
/// number that the groups of weight zero and above make up, the digits behind
/// the point that of the remaining groups, four digits for each power of 10000.
pub proof fn law_numeric_has_value_of_groups(g: Seq<nat>, weight: int)
    requires
        are_groups(g),
        g.len() > 0,
    ensures
        all_digits(integer_part(g, weight)),
        all_digits(fraction_digits(g, weight)),
        digits_value(integer_part(g, weight)) == groups_number(g, 0, weight + 1),
        digits_value(fraction_digits(g, weight)) == groups_number(
            g,
            if weight < 0 { 0 } else { weight + 1 },
            g.len() as int,
        ),
        weight < g.len() ==> fraction_digits(g, weight).len() == 4 * (g.len() - 1 - weight),
{
    let from = if weight < 0 { 0 } else { weight + 1 };
    lemma_group_digits(g, from, g.len() as int);
    if weight < 0 {
        let digits = group_digits(g, 0, g.len() as int);
        lemma_zeros_value((4 * (-1 - weight)) as nat, digits);
        assert(seq!['0'].drop_last() =~= Seq::<char>::empty());
        assert(digits_value(seq!['0']) == 0) by {
            reveal_with_fuel(digits_value, 2);
        }
    } else {
        lemma_leading_groups(g, weight + 1);
    }
}

fn read_groups(b: &[u8], n: usize) -> (r: Vec<u16>)
    requires
        8 + 2 * n <= b@.len(),
    ensures
        r@.len() == n,
        forall|i: int| 0 <= i < n ==> #[trigger] r@[i] == numeric_groups(b@, n as nat)[i],
{
    let len: usize = b.len();
    let mut out: Vec<u16> = Vec::new();
    for i in 0..n
        invariant
            8 + 2 * n <= len,
            len == b@.len(),
            out@.len() == i,
            forall|k: int| 0 <= k < i ==> #[trigger] out@[k] == numeric_groups(b@, n as nat)[k],
    {
        out.push(read_u16(b, 8 + 2 * i));
    }
    out
}

fn push_integer_part(out: &mut String, g: &[u16], weight: i16)
    ensures
        final(out)@ == old(out)@ + integer_part(g@.map_values(|x: u16| x as nat), weight as int),
{
    let ghost before = out@;
    let ghost gs = g@.map_values(|x: u16| x as nat);
    if weight < 0 {
        out.push('0');
        proof {
            assert(out@ =~= before + seq!['0']);
        }
        return;
    }
    let n: usize = (weight as usize) + 1;
    push_decimal(out, if g.len() > 0 { g[0] as u64 } else { 0 });
    let mut i: usize = 1;
    while i < n
        invariant
            1 <= i <= n,
            n == weight + 1,
            gs == g@.map_values(|x: u16| x as nat),
            out@ == before + leading_groups(gs, i as int),
        decreases n - i,
    {
        push_padded(out, if i < g.len() { g[i] as u64 } else { 0 }, 4);
        i = i + 1;
        proof {
            assert(out@ =~= before + leading_groups(gs, i as int));
        }
    }
}

fn fraction_string(g: &[u16], weight: i16) -> (r: String)
    ensures
        r@ == fraction_digits(g@.map_values(|x: u16| x as nat), weight as int),
{
    let ghost gs = g@.map_values(|x: u16| x as nat);
    let mut out = String::new();
    let start: usize = if weight < 0 {
        push_zeros(&mut out, 4 * ((-1 - (weight as i32)) as usize));
        0
    } else {
        (weight as usize) + 1
    };
    let ghost lead = out@;
    let mut i: usize = start;
    proof {
        assert(out@ =~= lead + group_digits(gs, start as int, start as int));
    }
    while i < g.len()
        invariant
            start <= i,
            i <= g@.len() || i == start,
            gs == g@.map_values(|x: u16| x as nat),
            out@ == lead + group_digits(gs, start as int, i as int),
        decreases g@.len() - i,
    {
        push_padded(&mut out, g[i] as u64, 4);
        i = i + 1;
        proof {
            assert(out@ =~= lead + group_digits(gs, start as int, i as int));
        }
    }
    proof {
        assert(group_digits(gs, start as int, i as int) =~= group_digits(gs, start as int, gs.len() as int));
        assert(out@ =~= fraction_digits(gs, weight as int));
    }
    out
}

fn push_fitted(out: &mut String, s: &str, n: usize)
    ensures
        final(out)@ == old(out)@ + fitted(s@, n as nat),
{
    let ghost before = out@;
    let v = to_chars(s);
    if v.len() > n {
        push_chars(out, slice_subrange(&v, 0, n));
    } else {
        out.push_str(s);
        push_zeros(out, n - v.len());
    }
    proof {
        assert(out@ =~= before + fitted(s@, n as nat));
    }
}

/// Decode PostgreSQL numeric binary format into a decimal string.
fn decode_numeric(b: &[u8]) -> (r: Option<String>)
    ensures
        r is Some <==> numeric_value(b@) is Some,
        r is Some ==> numeric_value(b@) == Some(r->0@),
{
    if b.len() < 8 {
        return None;
    }
    let n = read_i16(b, 0);
    let weight = read_i16(b, 2);
    let sign = read_u16(b, 4);
    let scale = read_i16(b, 6);
    let dscale: usize = if scale < 0 { 0 } else { scale as usize };
    let mut out = String::new();
    if sign == 0xC000 {
        out.push_str("NaN");
        proof {
            assert(out@ =~= "NaN"@);
        }
        return Some(out);
    }
    if sign == 0xD000 {
        out.push_str("Infinity");
        proof {
            assert(out@ =~= "Infinity"@);
        }
        return Some(out);
    }
    if sign == 0xF000 {
        out.push_str("-Infinity");
        proof {
            assert(out@ =~= "-Infinity"@);
        }
        return Some(out);
    }
    if n < 0 || b.len() < 8 + 2 * (n as usize) {
        return None;
    }
    if n == 0 {
        out.push('0');
        if dscale > 0 {
            out.push('.');
            push_zeros(&mut out, dscale);
        }
        proof {
            assert(out@ =~= numeric_value(b@)->0);
        }
        return Some(out);
    }
    let g = read_groups(b, n as usize);
    proof {
        assert(g@.map_values(|x: u16| x as nat) =~= numeric_groups(b@, n as nat));
    }
    if sign == 0x4000 {
        out.push('-');
    }
    push_integer_part(&mut out, &g, weight);
    if dscale > 0 {
        out.push('.');
        let f = fraction_string(&g, weight);
        push_fitted(&mut out, f.as_str(), dscale);
    }
    proof {
        assert(out@ =~= numeric_value(b@)->0);
    }
    Some(out)
}

// ── Bit strings ─────────────────────────────────────────────────────

/// Two to the power `n`.
pub open spec fn power_of_two(n: int) -> nat
    decreases n,
{
    if n <= 0 {
        1
    } else {
        2 * power_of_two(n - 1)
    }
}

/// The bit at a place of a byte string, the most significant bit first.
pub open spec fn bit_at(b: Seq<u8>, i: int) -> nat {
    (b[i / 8] as nat / power_of_two(7 - i % 8)) % 2
}

/// The digits of a bit string: a count of bits in four bytes, then the bits,
/// packed with the most significant first.
pub open spec fn bit_string_value(b: Seq<u8>) -> Option<Seq<char>> {
    if b.len() < 4 {
        None
    } else {
        let n = be_int(field(b, 0, 4));
        if n < 0 || b.len() < 4 + (n + 7) / 8 {
            None
        } else {
            Some(Seq::new(n as nat, |i: int| if bit_at(b.skip(4), i) == 0 { '0' } else { '1' }))
        }
    }
}

fn bit_weight(k: usize) -> (r: u8)
    requires
        k < 8,
    ensures
        r == power_of_two(7 - k),
        r > 0,
{
    proof {
        reveal_with_fuel(power_of_two, 9);
    }
    if k == 0 {
        128
    } else if k == 1 {
        64
    } else if k == 2 {
        32
    } else if k == 3 {
        16
    } else if k == 4 {
        8
    } else if k == 5 {
        4
    } else if k == 6 {
        2
    } else {
        1
    }
}

fn decode_bit_string(b: &[u8]) -> (r: Option<String>)
    ensures
        r is Some <==> bit_string_value(b@) is Some,
        r is Some ==> bit_string_value(b@) == Some(r->0@),
{
    if b.len() < 4 {
        return None;
    }
    let count = read_i32(b, 0);
    if count < 0 {
        return None;
    }
    let n: usize = count as usize;
    let bytes: usize = if n % 8 == 0 { n / 8 } else { n / 8 + 1 };
    if b.len() - 4 < bytes {
        return None;
    }
    let mut out = String::new();
    let ghost digits = |i: int| if bit_at(b@.skip(4), i) == 0 { '0' } else { '1' };
    for i in 0..n
        invariant
            b@.len() >= 4 + bytes,
            bytes == (n + 7) / 8,
            digits == (|i: int| if bit_at(b@.skip(4), i) == 0 { '0' } else { '1' }),
            out@ == Seq::new(i as nat, digits),
    {
        let byte = b[4 + i / 8];
        let bit: u8 = (byte / bit_weight(i % 8)) % 2;
        proof {
            assert(b@.skip(4)[i as int / 8] == byte);
            assert(bit == bit_at(b@.skip(4), i as int));
            assert(Seq::new((i + 1) as nat, digits) =~= Seq::new(i as nat, digits).push(digits(i as int)));
        }
        out.push(if bit == 0 { '0' } else { '1' });
    }
    Some(out)
}

// ── Network addresses ───────────────────────────────────────────────

/// The number of zero groups in a row from `i` on.
pub open spec fn zero_run(g: Seq<u16>, i: int) -> nat
    decreases g.len() - i,
{
    if 0 <= i < g.len() && g[i] == 0 {
        1 + zero_run(g, i + 1)
    } else {
        0
    }
}

/// Start and length of the longest run of zero groups that begins before `n`,
/// the first of them if several are as long; `(0, 0)` if there is none.
pub open spec fn longest_run(g: Seq<u16>, n: int) -> (int, nat)
    decreases n,
{
    if n <= 0 {
        (0, 0)
    } else {
        let best = longest_run(g, n - 1);
        if zero_run(g, n - 1) > best.1 {
            (n - 1, zero_run(g, n - 1))
        } else {
            best
        }
    }
}

/// The groups from `from` to `to` in hexadecimal, with colons between.
pub open spec fn hex_groups(g: Seq<u16>, from: int, to: int) -> Seq<char>
    decreases to - from,
{
    if to <= from {
        Seq::empty()
    } else if to == from + 1 {
        hexadecimal(g[from] as nat)
    } else {
        hex_groups(g, from, to - 1) + seq![':'] + hexadecimal(g[to - 1] as nat)
    }
}

/// The groups of an IPv6 address with the longest run of two or more zero
/// groups written as `::`.
pub open spec fn ipv6_text(g: Seq<u16>) -> Seq<char> {
    let (start, len) = longest_run(g, g.len() as int);
    if len < 2 {
        hex_groups(g, 0, g.len() as int)
    } else {
        hex_groups(g, 0, start) + seq![':', ':'] + hex_groups(g, start + len, g.len() as int)
    }
}

proof fn lemma_zero_run_bound(g: Seq<u16>, i: int)
    requires
        0 <= i,
    ensures
        i <= g.len() ==> i + zero_run(g, i) <= g.len(),
        i > g.len() ==> zero_run(g, i) == 0,
    decreases g.len() - i,
{
    if i < g.len() {
        lemma_zero_run_bound(g, i + 1);
    }
}

fn count_zero_run(g: &[u16], i: usize) -> (r: usize)
    requires
        i <= g@.len(),
    ensures
        r == zero_run(g@, i as int),
        i + r <= g@.len(),
    decreases g@.len() - i,
{
    if i < g.len() && g[i] == 0 {
        1 + count_zero_run(g, i + 1)
    } else {
        0
    }
}

fn push_hex_groups(out: &mut String, g: &[u16], from: usize, to: usize)
    requires
        from <= to <= g@.len(),
    ensures
        final(out)@ == old(out)@ + hex_groups(g@, from as int, to as int),
{
    let ghost before = out@;
    proof {
        assert(before + hex_groups(g@, from as int, from as int) =~= before);
    }
    let mut i: usize = from;
    while i < to
        invariant
            from <= i <= to <= g@.len(),
            out@ == before + hex_groups(g@, from as int, i as int),
        decreases to - i,
    {
        if i > from {
            out.push(':');
        }
        push_hexadecimal(out, g[i] as u64);
        i = i + 1;
        proof {
            assert(out@ =~= before + hex_groups(g@, from as int, i as int));
        }
    }
}

/// RFC 5952 IPv6 compression: replace the longest run of consecutive zero
/// groups (two or more) with `::`.
pub fn compress_ipv6(g: &[u16]) -> (r: String)
    ensures
        r@ == ipv6_text(g@),
{
    let mut start: usize = 0;
    let mut len: usize = 0;
    for i in 0..g.len()
        invariant
            (start as int, len as nat) == longest_run(g@, i as int),
            start + len <= g@.len(),
    {
        let n = count_zero_run(g, i);
        if n > len {
            start = i;
            len = n;
        }
    }
    let mut out = String::new();
    if len < 2 {
        push_hex_groups(&mut out, g, 0, g.len());
    } else {
        push_hex_groups(&mut out, g, 0, start);
        out.push(':');
        out.push(':');
        push_hex_groups(&mut out, g, start + len, g.len());
    }
    proof {
        assert(out@ =~= ipv6_text(g@));
    }
    out
}

/// The eight groups of an IPv6 address.
pub open spec fn ipv6_groups(b: Seq<u8>) -> Seq<u16> {
    Seq::new(8, |i: int| be_uint(field(b, 4 + 2 * i, 2)) as u16)
}

/// The text of an inet or cidr value: family, mask bits, a flag and the length
/// of the address in one byte each, then the address. The mask is written only
/// if it does not cover the whole address.
pub open spec fn inet_value(b: Seq<u8>) -> Option<Seq<char>> {
    if b.len() < 4 || b.len() < 4 + b[3] {
        None
    } else {
        let mask = seq!['/'] + decimal(b[1] as nat);
        if b[0] == 2 && b[3] == 4 {
            let addr = decimal(b[4] as nat) + seq!['.'] + decimal(b[5] as nat) + seq!['.'] + decimal(
                b[6] as nat,
            ) + seq!['.'] + decimal(b[7] as nat);
            Some(if b[1] == 32 { addr } else { addr + mask })
        } else if b[0] == 3 && b[3] == 16 {
            let addr = ipv6_text(ipv6_groups(b));
            Some(if b[1] == 128 { addr } else { addr + mask })
        } else {
            None
        }
    }
}

fn decode_inet_cidr(b: &[u8]) -> (r: Option<String>)
    ensures
        r is Some <==> inet_value(b@) is Some,
        r is Some ==> inet_value(b@) == Some(r->0@),
{
    if b.len() < 4 || b.len() < 4 + (b[3] as usize) {
        return None;
    }
    let bits = b[1];
    if b[0] == 2 && b[3] == 4 {
        let mut out = String::new();
        push_decimal(&mut out, b[4] as u64);
        out.push('.');
        push_decimal(&mut out, b[5] as u64);
        out.push('.');
        push_decimal(&mut out, b[6] as u64);
        out.push('.');
        push_decimal(&mut out, b[7] as u64);
        if bits != 32 {
            out.push('/');
            push_decimal(&mut out, bits as u64);
        }
        proof {
            assert(out@ =~= inet_value(b@)->0);
        }
        Some(out)
    } else if b[0] == 3 && b[3] == 16 {
        let mut g: Vec<u16> = Vec::new();
        for i in 0..8usize
            invariant
                b@.len() >= 20,
                g@ == ipv6_groups(b@).take(i as int),
        {
            g.push(read_u16(b, 4 + 2 * i));
            proof {
                assert(g@ =~= ipv6_groups(b@).take(i + 1));
            }
        }
        proof {
            assert(g@ =~= ipv6_groups(b@));
        }
        let mut out = compress_ipv6(&g);
        if bits != 128 {
            out.push('/');
            push_decimal(&mut out, bits as u64);
        }
        proof {
            assert(out@ =~= inet_value(b@)->0);
        }
        Some(out)
    } else {
        None
    }
}

// ── pgvector ────────────────────────────────────────────────────────

/// OIDs for extension types that aren't fixed in PG's built-in type oid
/// range. pgvector assigns OIDs at `CREATE EXTENSION` time, so the proxy has
/// to discover them at startup and pass them in alongside each decode call.
#[derive(Clone, Copy, Debug)]
pub struct ExtensionOids {
    /// OID for `pgvector.vector` (dim*4 bytes of float4).
    pub vector: Option<u32>,
    /// OID for `pgvector.halfvec` (dim*2 bytes of IEEE-754 binary16).
    pub halfvec: Option<u32>,
    /// OID for `pgvector.sparsevec` (i32 dim + i32 nnz + indices + values).
    pub sparsevec: Option<u32>,
}

/// No extension type is known.
pub open spec fn no_extensions() -> ExtensionOids {
    ExtensionOids { vector: None, halfvec: None, sparsevec: None }
}

impl Default for ExtensionOids {
    fn default() -> (r: Self)
        ensures
            r == no_extensions(),
    {
        ExtensionOids { vector: None, halfvec: None, sparsevec: None }
    }
}

/// How often a significand below 1024 is to be doubled to reach it.
pub open spec fn doublings(m: nat) -> nat
    decreases 2048 - m,
{
    if m == 0 || m >= 1024 {
        0
    } else {
        1 + doublings(2 * m)
    }
}

/// The binary32 bits of the value of a binary16 number: the sign kept, the
/// exponent rebiased by 112 and the significand widened by 13 bits. A
/// subnormal number is normalized; infinities and NaNs keep their significand.
pub open spec fn widened_half(bits: u16) -> nat {
    let sign = bits as nat / 32768;
    let exp = (bits as nat / 1024) % 32;
    let mant = bits as nat % 1024;
    let k = doublings(mant);
    let low = if exp == 0 && mant == 0 {
        0
    } else if exp == 0 {
        ((113 - k) * 8388608 + (mant * power_of_two(k as int) - 1024) * 8192) as nat
    } else if exp == 31 {
        255 * 8388608 + mant * 8192
    } else {
        (exp + 112) * 8388608 + mant * 8192
    };
    sign * 2147483648 + low
}

proof fn lemma_doubling(m: nat, k: nat)
    ensures
        2 * m * power_of_two(k as int) == m * power_of_two(k as int + 1),
{
    assert(power_of_two(k as int + 1) == 2 * power_of_two(k as int));
    assert(2 * m * power_of_two(k as int) == m * (2 * power_of_two(k as int))) by (nonlinear_arith);
}

/// Convert IEEE-754 binary16 bits to binary32 bits.
pub fn f16_to_f32(bits: u16) -> (r: u32)
    ensures
        r == widened_half(bits),
{
    let sign: u32 = (bits / 32768) as u32;
    let exp: u32 = ((bits / 1024) % 32) as u32;
    let mant: u32 = (bits % 1024) as u32;
    let low: u32 = if exp == 0 {
        if mant == 0 {
            0
        } else {
            let mut m: u32 = mant;
            let mut k: u32 = 0;
            proof {
                assert(m * power_of_two(0) == mant) by {
                    assert(power_of_two(0) == 1);
                }
                assert(mant as nat * power_of_two(doublings(mant as nat) as int) == m as nat * power_of_two(
                    doublings(m as nat) as int,
                ));
            }
            let ghost whole = mant as nat * power_of_two(doublings(mant as nat) as int);
            while m < 1024
                invariant
                    0 < m < 2048,
                    0 < mant < 1024,
                    k + doublings(m as nat) == doublings(mant as nat),
                    whole == m as nat * power_of_two(doublings(m as nat) as int),
                    whole == mant as nat * power_of_two(doublings(mant as nat) as int),
                    k <= 10,
                    (k == 0 ==> m >= 1) && (k == 1 ==> m >= 2) && (k == 2 ==> m >= 4) && (k == 3 ==> m >= 8)
                        && (k == 4 ==> m >= 16) && (k == 5 ==> m >= 32) && (k == 6 ==> m >= 64) && (k == 7
                        ==> m >= 128) && (k == 8 ==> m >= 256) && (k == 9 ==> m >= 512) && (k == 10 ==> m
                        >= 1024),
                decreases 2048 - m,
            {
                proof {
                    lemma_doubling(m as nat, doublings(2 * m as nat));
                }
                m = m * 2;
                k = k + 1;
            }
            proof {
                assert(power_of_two(0) == 1);
                assert(doublings(m as nat) == 0);
                assert(power_of_two(doublings(m as nat) as int) == 1);
                assert(m as nat * 1 == m);
                assert(whole == m);
                assert(k == doublings(mant as nat));
            }
            (113 - k) * 8388608 + (m - 1024) * 8192
        }
    } else if exp == 31 {
        255 * 8388608 + mant * 8192
    } else {
        (exp + 112) * 8388608 + mant * 8192
    };
    proof {
        assert(bits as nat / 32768 == sign);
        assert((bits as nat / 1024) % 32 == exp);
        assert(bits as nat % 1024 == mant);
    }
    sign * 2147483648 + low
}

/// The pieces of a number.
pub open spec fn float_piece(f: FloatBits) -> Seq<Piece> {
    seq![Piece::Float(f)]
}

/// The lists of pieces with the separator between each two.
pub open spec fn join_pieces(parts: Seq<Seq<Piece>>, sep: Seq<Piece>) -> Seq<Piece>
    decreases parts.len(),
{
    if parts.len() == 0 {
        Seq::empty()
    } else if parts.len() == 1 {
        parts[0]
    } else {
        join_pieces(parts.drop_last(), sep) + sep + parts.last()
    }
}

/// The vector type of a value with `size` bytes per element: a dimension and
/// a reserved field in two bytes each, then the elements.
pub open spec fn vector_dim(b: Seq<u8>, size: int) -> Option<int> {
    if b.len() < 4 || be_int(field(b, 0, 2)) < 0 || b.len() != 4 + be_int(field(b, 0, 2)) * size {
        None
    } else {
        Some(be_int(field(b, 0, 2)))
    }
}

/// The elements of a `vector`.
pub open spec fn vector_parts(b: Seq<u8>, n: nat) -> Seq<Seq<Piece>> {
    Seq::new(n, |i: int| float_piece(FloatBits::Single(be_uint(field(b, 4 + 4 * i, 4)) as u32)))
}

/// The elements of a `halfvec`.
pub open spec fn halfvec_parts(b: Seq<u8>, n: nat) -> Seq<Seq<Piece>> {
    Seq::new(
        n,
        |i: int| float_piece(FloatBits::Single(widened_half(be_uint(field(b, 4 + 2 * i, 2)) as u16) as u32)),
    )
}

/// The elements of a `sparsevec`: index, colon, value.
pub open spec fn sparsevec_parts(b: Seq<u8>, n: nat) -> Seq<Seq<Piece>> {
    Seq::new(
        n,
        |i: int|
            plain(signed_decimal(be_int(field(b, 12 + 4 * i, 4))).push(':')) + float_piece(
                FloatBits::Single(be_uint(field(b, 12 + 4 * n + 4 * i, 4)) as u32),
            ),
    )
}

/// The elements in brackets with commas between.
pub open spec fn bracketed(parts: Seq<Seq<Piece>>) -> Seq<Piece> {
    plain("["@) + join_pieces(parts, plain(","@)) + plain("]"@)
}

/// The text of a `vector`.
pub open spec fn vector_value(b: Seq<u8>) -> Option<Seq<Piece>> {
    match vector_dim(b, 4) {
        Some(n) => Some(bracketed(vector_parts(b, n as nat))),
        None => None,
    }
}

/// The text of a `halfvec`.
pub open spec fn halfvec_value(b: Seq<u8>) -> Option<Seq<Piece>> {
    match vector_dim(b, 2) {
        Some(n) => Some(bracketed(halfvec_parts(b, n as nat))),
        None => None,
    }
}

/// The text of a `sparsevec`: `{index:value,...}/dimension`.
pub open spec fn sparsevec_value(b: Seq<u8>) -> Option<Seq<Piece>> {
    if b.len() < 12 || be_int(field(b, 0, 4)) < 0 || be_int(field(b, 4, 4)) < 0 || b.len() != 12 + 8
        * be_int(field(b, 4, 4)) {
        None
    } else {
        Some(
            plain("{"@) + join_pieces(sparsevec_parts(b, be_int(field(b, 4, 4)) as nat), plain(","@))
                + plain("}/"@) + plain(signed_decimal(be_int(field(b, 0, 4)))),
        )
    }
}

/// Appends one more element to a joined list.
fn push_joined(out: &mut Vec<Piece>, first: bool, part: &Vec<Piece>, Ghost(lead): Ghost<Seq<Piece>>, Ghost(done): Ghost<Seq<Seq<Piece>>>)
    requires
        old(out)@ == lead + join_pieces(done, plain(","@)),
        first == (done.len() == 0),
    ensures
        final(out)@ == lead + join_pieces(done.push(part@), plain(","@)),
{
    let ghost before = out@;
    proof {
        assert(done.push(part@).drop_last() =~= done);
        assert(done.push(part@).last() == part@);
    }
    if !first {
        push_plain(out, ",");
    }
    let ghost mid = out@;
    for i in 0..part.len()
        invariant
            out@ == mid + part@.take(i as int),
    {
        out.push(part[i]);
        proof {
            assert(mid + part@.take(i + 1) =~= (mid + part@.take(i as int)).push(part@[i as int]));
        }
    }
    proof {
        assert(part@.take(part@.len() as int) =~= part@);
        assert(out@ =~= lead + join_pieces(done.push(part@), plain(","@)));
    }
}

fn single_piece(bits: u32) -> (r: Vec<Piece>)
    ensures
        r@ == float_piece(FloatBits::Single(bits)),
{
    let mut v: Vec<Piece> = Vec::new();
    v.push(Piece::Float(FloatBits::Single(bits)));
    proof {
        assert(v@ =~= float_piece(FloatBits::Single(bits)));
    }
    v
}

/// Decode pgvector's `vector` binary format.
fn decode_vector(b: &[u8]) -> (r: Option<Vec<Piece>>)
    ensures
        r is Some <==> vector_value(b@) is Some,
        r is Some ==> vector_value(b@) == Some(r->0@),
{
    let len: usize = b.len();
    if len < 4 {
        return None;
    }
    let dim = read_i16(b, 0);
    if dim < 0 || len != 4 + (dim as usize) * 4 {
        return None;
    }
    let n: usize = dim as usize;
    let mut out = plain_pieces("[");
    let ghost parts = vector_parts(b@, n as nat);
    let ghost lead = plain("["@);
    proof {
        assert(out@ =~= lead + join_pieces(parts.take(0), plain(","@)));
    }
    for i in 0..n
        invariant
            len == b@.len(),
            len == 4 + n * 4,
            parts == vector_parts(b@, n as nat),
            out@ == lead + join_pieces(parts.take(i as int), plain(","@)),
    {
        let part = single_piece(read_u32(b, 4 + 4 * i));
        proof {
            assert(part@ == parts[i as int]);
            assert(parts.take(i + 1) =~= parts.take(i as int).push(part@));
        }
        push_joined(&mut out, i == 0, &part, Ghost(lead), Ghost(parts.take(i as int)));
    }
    proof {
        assert(parts.take(n as int) =~= parts);
    }
    push_plain(&mut out, "]");
    Some(out)
}

/// Decode pgvector's `halfvec` binary format.
fn decode_halfvec(b: &[u8]) -> (r: Option<Vec<Piece>>)
    ensures
        r is Some <==> halfvec_value(b@) is Some,
        r is Some ==> halfvec_value(b@) == Some(r->0@),
{
    let len: usize = b.len();
    if len < 4 {
        return None;
    }
    let dim = read_i16(b, 0);
    if dim < 0 || len != 4 + (dim as usize) * 2 {
        return None;
    }
    let n: usize = dim as usize;
    let mut out = plain_pieces("[");
    let ghost parts = halfvec_parts(b@, n as nat);
    let ghost lead = plain("["@);
    proof {
        assert(out@ =~= lead + join_pieces(parts.take(0), plain(","@)));
    }
    for i in 0..n
        invariant
            len == b@.len(),
            len == 4 + n * 2,
            parts == halfvec_parts(b@, n as nat),
            out@ == lead + join_pieces(parts.take(i as int), plain(","@)),
    {
        let part = single_piece(f16_to_f32(read_u16(b, 4 + 2 * i)));
        proof {
            assert(part@ == parts[i as int]);
            assert(parts.take(i + 1) =~= parts.take(i as int).push(part@));
        }
        push_joined(&mut out, i == 0, &part, Ghost(lead), Ghost(parts.take(i as int)));
    }
    proof {
        assert(parts.take(n as int) =~= parts);
    }
    push_plain(&mut out, "]");
    Some(out)
}

/// Decode pgvector's `sparsevec` binary format.
fn decode_sparsevec(b: &[u8]) -> (r: Option<Vec<Piece>>)
    ensures
        r is Some <==> sparsevec_value(b@) is Some,
        r is Some ==> sparsevec_value(b@) == Some(r->0@),
{
    let len: usize = b.len();
    if len < 12 {
        return None;
    }
    let dim = read_i32(b, 0);
    let nnz = read_i32(b, 4);
    if dim < 0 || nnz < 0 || (len - 12) / 8 != (nnz as usize) || (len - 12) % 8 != 0 {
        return None;
    }
    let n: usize = nnz as usize;
    let mut out = plain_pieces("{");
    let ghost parts = sparsevec_parts(b@, n as nat);
    let ghost lead = plain("{"@);
    proof {
        assert(out@ =~= lead + join_pieces(parts.take(0), plain(","@)));
    }
    for i in 0..n
        invariant
            len == b@.len(),
            len == 12 + n * 8,
            parts == sparsevec_parts(b@, n as nat),
            out@ == lead + join_pieces(parts.take(i as int), plain(","@)),
    {
        let mut idx = signed_string(read_i32(b, 12 + 4 * i) as i64);
        idx.push(':');
        let mut part = plain_pieces(idx.as_str());
        let bits = read_u32(b, 12 + 4 * n + 4 * i);
        part.push(Piece::Float(FloatBits::Single(bits)));
        proof {
            assert(part@ =~= parts[i as int]);
            assert(parts.take(i + 1) =~= parts.take(i as int).push(part@));
        }
        push_joined(&mut out, i == 0, &part, Ghost(lead), Ghost(parts.take(i as int)));
    }
    proof {
        assert(parts.take(n as int) =~= parts);
    }
    push_plain(&mut out, "}/");
    let d = signed_string(dim as i64);
    push_plain(&mut out, d.as_str());
    Some(out)
}

// ── Arrays ──────────────────────────────────────────────────────────

/// A character that forces an array element into double quotes.
pub open spec fn needs_array_quote_char(c: char) -> bool {
    c == ',' || c == '{' || c == '}' || c == '"' || c == '\\' || is_space(c)
}

/// Whether an array element has to stand in double quotes: the empty text, the
/// word NULL in any case, and a text with a special character or white space.
pub open spec fn needs_array_quote(s: Seq<char>) -> bool {
    s.len() == 0 || ascii_uppercase(s) == "NULL"@ || exists|i: int|
        0 <= i < s.len() && needs_array_quote_char(#[trigger] s[i])
}

/// A text with a backslash before every double quote and backslash.
pub open spec fn array_escaped(s: Seq<char>) -> Seq<char>
    decreases s.len(),
{
    if s.len() == 0 {
        s
    } else if s.last() == '"' || s.last() == '\\' {
        array_escaped(s.drop_last()) + seq!['\\', s.last()]
    } else {
        array_escaped(s.drop_last()).push(s.last())
    }
}

/// A text as an element of an array literal.
pub open spec fn array_quoted(s: Seq<char>) -> Seq<char> {
    if needs_array_quote(s) {
        seq!['"'] + array_escaped(s) + seq!['"']
    } else {
        s
    }
}

/// Quote-and-escape a value for inclusion inside a PG array text literal.
pub fn pg_array_quote(s: &str) -> (r: String)
    ensures
        r@ == array_quoted(s@),
{
    let v = to_chars(s);
    let upper = to_ascii_uppercase(&v);
    let mut quote: bool = v.len() == 0 || chars_are(&upper, "NULL");
    for i in 0..v.len()
        invariant
            v@ == s@,
            quote == (s@.len() == 0 || ascii_uppercase(s@) == "NULL"@ || exists|k: int|
                0 <= k < i && needs_array_quote_char(#[trigger] s@[k])),
    {
        let c = v[i];
        if c == ',' || c == '{' || c == '}' || c == '"' || c == '\\' || char_is_space(c) {
            proof {
                assert(needs_array_quote_char(s@[i as int]));
            }
            quote = true;
        }
    }
    let mut out = String::new();
    if !quote {
        out.push_str(s);
        proof {
            assert(out@ =~= s@);
        }
        return out;
    }
    out.push('"');
    proof {
        assert(out@ =~= seq!['"'] + array_escaped(s@.take(0)));
    }
    for i in 0..v.len()
        invariant
            v@ == s@,
            out@ == seq!['"'] + array_escaped(s@.take(i as int)),
    {
        let c = v[i];
        proof {
            assert(s@.take(i + 1).drop_last() =~= s@.take(i as int));
        }
        if c == '"' || c == '\\' {
            out.push('\\');
        }
        out.push(c);
        proof {
            assert(out@ =~= seq!['"'] + array_escaped(s@.take(i + 1)));
        }
    }
    out.push('"');
    proof {
        assert(s@.take(s@.len() as int) =~= s@);
        assert(out@ =~= array_quoted(s@));
    }
    out
}

/// Whether a type is sent as plain UTF-8 text.
pub open spec fn is_text_oid(oid: u32) -> bool {
    oid == 25 || oid == 19 || oid == 1042 || oid == 1043 || oid == 18
}

/// The text of an array element of a type without floating point, before it
/// is quoted; the flag says whether it is to be quoted where it needs it.
pub open spec fn element_text(oid: u32, b: Seq<u8>) -> Option<(Seq<char>, bool)> {
    if oid == 16 {
        Some((if b.len() > 0 && b[0] == 0 { seq!['f'] } else { seq!['t'] }, false))
    } else if oid == 21 {
        if b.len() == 2 { Some((signed_decimal(be_int(b)), false)) } else { None }
    } else if oid == 23 {
        if b.len() == 4 { Some((signed_decimal(be_int(b)), false)) } else { None }
    } else if oid == 20 {
        if b.len() == 8 { Some((signed_decimal(be_int(b)), false)) } else { None }
    } else if oid == 1700 {
        match numeric_value(b) {
            Some(s) => Some((s, false)),
            None => None,
        }
    } else if oid == 2950 {
        if b.len() == 16 { Some((uuid_text(b), false)) } else { None }
    } else if is_text_oid(oid) {
        if valid_utf8(b) { Some((decode_utf8(b), true)) } else { None }
    } else if oid == 17 {
        Some((seq!['\\', 'x'] + hex_text(b), true))
    } else if oid == 1082 {
        if b.len() == 4 { Some((date_text(be_int(b)), true)) } else { None }
    } else if oid == 1114 || oid == 1184 {
        if b.len() == 8 { Some((pg_timestamp_text(be_int(b), oid == 1184), true)) } else { None }
    } else if oid == 1083 {
        if b.len() == 8 && is_time_of_day(be_int(b)) {
            Some((clock_text(be_int(b) as nat), true))
        } else {
            None
        }
    } else if oid == 1186 {
        match interval_value(b) {
            Some(s) => Some((s, true)),
            None => None,
        }
    } else if oid == 3802 {
        if b.len() > 0 && b[0] == 1 && valid_utf8(b.skip(1)) {
            Some((decode_utf8(b.skip(1)), true))
        } else {
            None
        }
    } else {
        None
    }
}

/// An array element as it appears inside the braces.
pub open spec fn element_value(oid: u32, b: Seq<u8>) -> Option<Seq<Piece>> {
    if oid == 700 {
        if b.len() == 4 { Some(float_piece(FloatBits::Single(be_uint(b) as u32))) } else { None }
    } else if oid == 701 {
        if b.len() == 8 { Some(float_piece(FloatBits::Double(be_uint(b) as u64))) } else { None }
    } else {
        match element_text(oid, b) {
            Some((s, true)) => Some(plain(array_quoted(s))),
            Some((s, false)) => Some(plain(s)),
            None => None,
        }
    }
}

/// What all elements are, given those that were read and what the rest is.
pub open spec fn with_rest(done: Seq<Seq<Piece>>, rest: Option<Seq<Seq<Piece>>>) -> Option<Seq<Seq<Piece>>> {
    match rest {
        Some(r) => Some(done + r),
        None => None,
    }
}

/// The element at `pos` and the position behind it: a length in four bytes,
/// -1 for NULL, and its bytes.
#[verifier::opaque]
pub open spec fn element_at(b: Seq<u8>, pos: int, oid: u32) -> Option<(Seq<Piece>, int)> {
    if pos + 4 > b.len() {
        None
    } else {
        let len = be_int(field(b, pos, 4));
        if len == -1 {
            Some((plain("NULL"@), pos + 4))
        } else if len < 0 || pos + 4 + len > b.len() {
            None
        } else {
            match element_value(oid, field(b, pos + 4, len)) {
                Some(p) => Some((p, pos + 4 + len)),
                None => None,
            }
        }
    }
}

/// The next `n` elements from `pos` on.
pub open spec fn array_elements(b: Seq<u8>, pos: int, n: int, oid: u32) -> Option<Seq<Seq<Piece>>>
    decreases n,
{
    if n <= 0 {
        Some(Seq::empty())
    } else {
        match element_at(b, pos, oid) {
            Some((one, next)) => with_rest(seq![one], array_elements(b, next, n - 1, oid)),
            None => None,
        }
    }
}

/// The body of an array literal: number of dimensions, flags and element type
/// in four bytes each; then, of a one-dimensional array, length and lower
/// bound, and the elements. Arrays of more dimensions and arrays that do not
/// begin at one are not decoded.
pub open spec fn array_value(b: Seq<u8>) -> Option<Seq<Piece>> {
    if b.len() < 12 {
        None
    } else if be_int(field(b, 0, 4)) == 0 {
        Some(plain("{}"@))
    } else if be_int(field(b, 0, 4)) != 1 || b.len() < 20 || be_int(field(b, 16, 4)) != 1 || be_int(
        field(b, 12, 4),
    ) < 0 {
        None
    } else {
        match array_elements(b, 20, be_int(field(b, 12, 4)), be_uint(field(b, 8, 4)) as u32) {
            Some(parts) => Some(plain("{"@) + join_pieces(parts, plain(","@)) + plain("}"@)),
            None => None,
        }
    }
}

fn plain_element(s: String, quote: bool) -> (r: Vec<Piece>)
    ensures
        r@ == (if quote { plain(array_quoted(s@)) } else { plain(s@) }),
{
    if quote {
        let q = pg_array_quote(s.as_str());
        plain_pieces(q.as_str())
    } else {
        plain_pieces(s.as_str())
    }
}

fn char_string(c: char) -> (r: String)
    ensures
        r@ == seq![c],
{
    let mut s = String::new();
    s.push(c);
    proof {
        assert(s@ =~= seq![c]);
    }
    s
}

/// The text of an array element of a type without floating point.
fn array_element_text(oid: u32, b: &[u8]) -> (r: Option<(String, bool)>)
    ensures
        r is Some <==> element_text(oid, b@) is Some,
        r is Some ==> element_text(oid, b@) == Some(((r->0).0@, (r->0).1)),
{
    proof {
        assert(b@.len() >= 2 ==> (b@.len() == 2 ==> field(b@, 0, 2) =~= b@));
        assert(b@.len() == 4 ==> field(b@, 0, 4) =~= b@);
        assert(b@.len() == 8 ==> field(b@, 0, 8) =~= b@);
    }
    if oid == 16 {
        return Some((if b.len() > 0 && b[0] == 0 { char_string('f') } else { char_string('t') }, false));
    }
    if oid == 21 {
        return if b.len() == 2 { Some((signed_string(read_i16(b, 0) as i64), false)) } else { None };
    }
    if oid == 23 {
        return if b.len() == 4 { Some((signed_string(read_i32(b, 0) as i64), false)) } else { None };
    }
    if oid == 20 {
        return if b.len() == 8 { Some((signed_string(read_i64(b, 0)), false)) } else { None };
    }
    if oid == 1700 {
        return match decode_numeric(b) {
            Some(s) => Some((s, false)),
            None => None,
        };
    }
    if oid == 2950 {
        return if b.len() == 16 { Some((format_uuid(b), false)) } else { None };
    }
    if oid == 25 || oid == 19 || oid == 1042 || oid == 1043 || oid == 18 {
        return match from_utf8(b) {
            Some(s) => Some((s, true)),
            None => None,
        };
    }
    if oid == 17 {
        let mut s = String::new();
        s.push('\\');
        s.push('x');
        push_hex(&mut s, b);
        proof {
            assert(s@ =~= seq!['\\', 'x'] + hex_text(b@));
        }
        return Some((s, true));
    }
    if oid == 1082 {
        return if b.len() == 4 { Some((format_pg_date(read_i32(b, 0)), true)) } else { None };
    }
    if oid == 1114 || oid == 1184 {
        return if b.len() == 8 {
            Some((format_pg_timestamp(read_i64(b, 0), oid == 1184), true))
        } else {
            None
        };
    }
    if oid == 1083 {
        if b.len() != 8 {
            return None;
        }
        return match format_pg_time(read_i64(b, 0)) {
            Some(s) => Some((s, true)),
            None => None,
        };
    }
    if oid == 1186 {
        return match decode_interval(b) {
            Some(s) => Some((s, true)),
            None => None,
        };
    }
    if oid == 3802 {
        if b.len() == 0 || b[0] != 1 {
            return None;
        }
        proof {
            assert(b@.subrange(1, b@.len() as int) =~= b@.skip(1));
        }
        return match from_utf8(slice_subrange(b, 1, b.len())) {
            Some(s) => Some((s, true)),
            None => None,
        };
    }
    None
}

/// Render a single array element as it should appear inside the braces.
fn array_element(oid: u32, b: &[u8]) -> (r: Option<Vec<Piece>>)
    ensures
        r is Some <==> element_value(oid, b@) is Some,
        r is Some ==> element_value(oid, b@) == Some(r->0@),
{
    if oid == 700 {
        if b.len() != 4 {
            return None;
        }
        proof {
            assert(field(b@, 0, 4) =~= b@);
        }
        return Some(single_piece(read_u32(b, 0)));
    }
    if oid == 701 {
        if b.len() != 8 {
            return None;
        }
        proof {
            assert(field(b@, 0, 8) =~= b@);
        }
        return Some(double_piece(read_u64(b, 0)));
    }
    match array_element_text(oid, b) {
        Some((s, quote)) => Some(plain_element(s, quote)),
        None => None,
    }
}

fn double_piece(bits: u64) -> (r: Vec<Piece>)
    ensures
        r@ == float_piece(FloatBits::Double(bits)),
{
    let mut v: Vec<Piece> = Vec::new();
    v.push(Piece::Float(FloatBits::Double(bits)));
    proof {
        assert(v@ =~= float_piece(FloatBits::Double(bits)));
    }
    v
}

fn read_element(b: &[u8], pos: usize, oid: u32) -> (r: Option<(Vec<Piece>, usize)>)
    requires
        pos <= b@.len(),
    ensures
        r is Some <==> element_at(b@, pos as int, oid) is Some,
        r is Some ==> element_at(b@, pos as int, oid) == Some(((r->0).0@, (r->0).1 as int)),
        r is Some ==> pos < (r->0).1 <= b@.len(),
{
    proof {
        reveal(element_at);
    }
    let len: usize = b.len();
    if len - pos < 4 {
        return None;
    }
    let l = read_i32(b, pos);
    let start: usize = pos + 4;
    if l == -1 {
        return Some((plain_pieces("NULL"), start));
    }
    if l < 0 || len - start < (l as usize) {
        return None;
    }
    let end: usize = start + (l as usize);
    match array_element(oid, slice_subrange(b, start, end)) {
        Some(p) => Some((p, end)),
        None => None,
    }
}

/// Decode a 1-dimensional PostgreSQL array in binary format.
fn decode_array(b: &[u8]) -> (r: Option<Vec<Piece>>)
    ensures
        r is Some <==> array_value(b@) is Some,
        r is Some ==> array_value(b@) == Some(r->0@),
{
    let len: usize = b.len();
    if len < 12 {
        return None;
    }
    let ndims = read_i32(b, 0);
    let oid = read_u32(b, 8);
    if ndims == 0 {
        return Some(plain_pieces("{}"));
    }
    if ndims != 1 || len < 20 {
        return None;
    }
    let dim = read_i32(b, 12);
    let lower = read_i32(b, 16);
    if lower != 1 || dim < 0 {
        return None;
    }
    decode_elements(b, dim as usize, oid)
}

/// Decode the `n` elements behind an array header.
fn decode_elements(b: &[u8], n: usize, oid: u32) -> (r: Option<Vec<Piece>>)
    requires
        b@.len() >= 20,
    ensures
        r is Some <==> array_elements(b@, 20, n as int, oid) is Some,
        r is Some ==> r->0@ == plain("{"@) + join_pieces(
            array_elements(b@, 20, n as int, oid)->0,
            plain(","@),
        ) + plain("}"@),
{
    let len: usize = b.len();
    let mut pos: usize = 20;
    let mut out = plain_pieces("{");
    let ghost lead = plain("{"@);
    let ghost mut done: Seq<Seq<Piece>> = Seq::empty();
    let ghost all = array_elements(b@, 20, n as int, oid);
    proof {
        assert(out@ =~= lead + join_pieces(done, plain(","@)));
        assert(with_rest(done, all) == all) by {
            if let Some(x) = all {
                assert(done + x =~= x);
            }
        }
    }
    for i in 0..n
        invariant
            len == b@.len(),
            20 <= pos <= len,
            done.len() == i,
            out@ == lead + join_pieces(done, plain(","@)),
            all == array_elements(b@, 20, n as int, oid),
            all == with_rest(done, array_elements(b@, pos as int, n - i, oid)),
    {
        let ghost at = pos as int;
        let (part, next) = match read_element(b, pos, oid) {
            Some(x) => x,
            None => {
                return None;
            },
        };
        pos = next;
        proof {
            let rest = array_elements(b@, pos as int, n - i - 1, oid);
            assert(array_elements(b@, at, n - i, oid) == with_rest(seq![part@], rest));
            if let Some(x) = rest {
                assert(done + (seq![part@] + x) =~= done.push(part@) + x);
            }
            assert(all == with_rest(done.push(part@), rest));
        }
        push_joined(&mut out, i == 0, &part, Ghost(lead), Ghost(done));
        proof {
            done = done.push(part@);
        }
    }
    proof {
        assert(done + Seq::<Seq<Piece>>::empty() =~= done);
    }
    push_plain(&mut out, "}");
    Some(out)
}

/// The name that an array literal is cast to.
pub open spec fn array_cast_name(oid: u32) -> Option<Seq<char>> {
    if oid == 1000 {
        Some("boolean[]"@)
    } else if oid == 1001 {
        Some("bytea[]"@)
    } else if oid == 1005 {
        Some("int2[]"@)
    } else if oid == 1007 {
        Some("int4[]"@)
    } else if oid == 1009 {
        Some("text[]"@)
    } else if oid == 1014 {
        Some("bpchar[]"@)
    } else if oid == 1015 {
        Some("varchar[]"@)
    } else if oid == 1016 {
        Some("int8[]"@)
    } else if oid == 1021 {
        Some("float4[]"@)
    } else if oid == 1022 {
        Some("float8[]"@)
    } else if oid == 1115 {
        Some("timestamp[]"@)
    } else if oid == 1182 {
        Some("date[]"@)
    } else if oid == 1183 {
        Some("time[]"@)
    } else if oid == 1185 {
        Some("timestamptz[]"@)
    } else if oid == 1187 {
        Some("interval[]"@)
    } else if oid == 1231 {
        Some("numeric[]"@)
    } else if oid == 2951 {
        Some("uuid[]"@)
    } else if oid == 3807 {
        Some("jsonb[]"@)
    } else {
        None
    }
}

fn array_cast(oid: u32) -> (r: Option<&'static str>)
    ensures
        r is Some <==> array_cast_name(oid) is Some,
        r is Some ==> array_cast_name(oid) == Some(r->0@),
{
    match oid {
        1000 => Some("boolean[]"),
        1001 => Some("bytea[]"),
        1005 => Some("int2[]"),
        1007 => Some("int4[]"),
        1009 => Some("text[]"),
        1014 => Some("bpchar[]"),
        1015 => Some("varchar[]"),
        1016 => Some("int8[]"),
        1021 => Some("float4[]"),
        1022 => Some("float8[]"),
        1115 => Some("timestamp[]"),
        1182 => Some("date[]"),
        1183 => Some("time[]"),
        1185 => Some("timestamptz[]"),
        1187 => Some("interval[]"),
        1231 => Some("numeric[]"),
        2951 => Some("uuid[]"),
        3807 => Some("jsonb[]"),
        _ => None,
    }
}

/// The pieces with every single quote among their characters doubled.
pub open spec fn piece_quotes_doubled(p: Seq<Piece>) -> Seq<Piece>
    decreases p.len(),
{
    if p.len() == 0 {
        p
    } else if p.last() == Piece::Char('\'') {
        piece_quotes_doubled(p.drop_last()) + seq![p.last(), p.last()]
    } else {
        piece_quotes_doubled(p.drop_last()).push(p.last())
    }
}

fn double_piece_quotes(p: &Vec<Piece>) -> (r: Vec<Piece>)
    ensures
        r@ == piece_quotes_doubled(p@),
{
    let mut out: Vec<Piece> = Vec::new();
    for i in 0..p.len()
        invariant
            out@ == piece_quotes_doubled(p@.take(i as int)),
    {
        proof {
            assert(p@.take(i + 1).drop_last() =~= p@.take(i as int));
        }
        let ghost before = out@;
        if let Piece::Char(c) = p[i] {
            if c == '\'' {
                out.push(p[i]);
            }
        }
        out.push(p[i]);
        proof {
            assert(out@ =~= piece_quotes_doubled(p@.take(i + 1)));
        }
    }
    proof {
        assert(p@.take(p@.len() as int) =~= p@);
    }
    out
}

// ── Literals of all types ───────────────────────────────────────────

/// A text in quotes with a cast behind it.
pub open spec fn cast_text(s: Option<Seq<char>>, cast: Seq<char>) -> Option<Seq<char>> {
    match s {
        Some(t) => Some(quoted(t) + cast),
        None => None,
    }
}

/// The sign, the whole units and two digits of hundredths of an amount.
pub open spec fn money_text(cents: int) -> Seq<char> {
    let abs = (if cents < 0 { -cents } else { cents }) as nat;
    let amount = decimal(abs / 100) + seq!['.'] + padded_decimal(abs % 100, 2);
    if cents < 0 {
        seq!['-'] + amount
    } else {
        amount
    }
}

/// Whether a type is sent as an unsigned number of four bytes.
pub open spec fn is_unsigned_oid(oid: u32) -> bool {
    oid == 26 || oid == 28 || oid == 29 || oid == 24 || oid == 2202 || oid == 2203 || oid == 2204 || oid
        == 2205 || oid == 2206
}

/// The literal of a value of a scalar type without floating point.
pub open spec fn scalar_value(oid: u32, b: Seq<u8>) -> Option<Seq<char>> {
    if oid == 16 {
        if b.len() != 1 { None } else if b[0] == 0 { Some(quoted(seq!['f'])) } else { Some(quoted(seq!['t'])) }
    } else if oid == 20 {
        if b.len() == 8 { Some(quoted(signed_decimal(be_int(b)))) } else { None }
    } else if oid == 21 {
        if b.len() == 2 { Some(quoted(signed_decimal(be_int(b)))) } else { None }
    } else if oid == 23 {
        if b.len() == 4 { Some(quoted(signed_decimal(be_int(b)))) } else { None }
    } else if is_text_oid(oid) || oid == 114 {
        if valid_utf8(b) { Some(quoted(quotes_doubled(decode_utf8(b)))) } else { None }
    } else if is_unsigned_oid(oid) {
        if b.len() == 4 { Some(quoted(decimal(be_uint(b)))) } else { None }
    } else if oid == 17 {
        Some("E'\\\\x"@ + hex_text(b) + seq!['\''])
    } else if oid == 1082 {
        if b.len() == 4 { Some(quoted(date_text(be_int(b))) + "::date"@) } else { None }
    } else if oid == 1083 {
        if b.len() == 8 && is_time_of_day(be_int(b)) {
            Some(quoted(clock_text(be_int(b) as nat)) + "::time"@)
        } else {
            None
        }
    } else if oid == 1114 {
        if b.len() == 8 { Some(quoted(pg_timestamp_text(be_int(b), false)) + "::timestamp"@) } else { None }
    } else if oid == 1184 {
        if b.len() == 8 { Some(quoted(pg_timestamp_text(be_int(b), true)) + "::timestamptz"@) } else { None }
    } else if oid == 1700 {
        match numeric_value(b) {
            Some(s) => Some(quoted(s)),
            None => None,
        }
    } else if oid == 2950 {
        if b.len() == 16 { Some(quoted(uuid_text(b))) } else { None }
    } else if oid == 3802 {
        if b.len() > 0 && b[0] == 1 && valid_utf8(b.skip(1)) {
            Some(quoted(quotes_doubled(decode_utf8(b.skip(1)))) + "::jsonb"@)
        } else {
            None
        }
    } else if oid == 142 {
        if valid_utf8(b) { Some(quoted(quotes_doubled(decode_utf8(b))) + "::xml"@) } else { None }
    } else if oid == 790 {
        if b.len() == 8 { Some(quoted(money_text(be_int(b))) + "::money"@) } else { None }
    } else if oid == 1186 {
        cast_text(interval_value(b), "::interval"@)
    } else if oid == 1266 {
        cast_text(timetz_value(b), "::timetz"@)
    } else if oid == 1560 || oid == 1562 {
        match bit_string_value(b) {
            Some(s) => Some(seq!['B'] + quoted(s)),
            None => None,
        }
    } else if oid == 869 {
        cast_text(inet_value(b), "::inet"@)
    } else if oid == 650 {
        cast_text(inet_value(b), "::cidr"@)
    } else if oid == 829 {
        if b.len() == 6 { Some(quoted(colon_hex(b)) + "::macaddr"@) } else { None }
    } else if oid == 774 {
        if b.len() == 8 { Some(quoted(colon_hex(b)) + "::macaddr8"@) } else { None }
    } else {
        None
    }
}

/// Pieces between single quotes with a cast behind them.
pub open spec fn cast_pieces(p: Option<Seq<Piece>>, cast: Seq<char>) -> Option<Seq<Piece>> {
    match p {
        Some(x) => Some(plain("'"@) + x + plain("'"@) + plain(cast)),
        None => None,
    }
}

/// The literal of a value of any known type.
pub open spec fn literal_value(oid: u32, b: Seq<u8>, ext: ExtensionOids) -> Option<Seq<Piece>> {
    if ext.vector == Some(oid) {
        cast_pieces(vector_value(b), "::vector"@)
    } else if ext.halfvec == Some(oid) {
        cast_pieces(halfvec_value(b), "::halfvec"@)
    } else if ext.sparsevec == Some(oid) {
        cast_pieces(sparsevec_value(b), "::sparsevec"@)
    } else if oid == 700 {
        if b.len() == 4 {
            Some(plain("'"@) + float_piece(FloatBits::Single(be_uint(b) as u32)) + plain("'"@))
        } else {
            None
        }
    } else if oid == 701 {
        if b.len() == 8 {
            Some(plain("'"@) + float_piece(FloatBits::Double(be_uint(b) as u64)) + plain("'"@))
        } else {
            None
        }
    } else if let Some(name) = array_cast_name(oid) {
        match array_value(b) {
            Some(x) => Some(plain("'"@) + piece_quotes_doubled(x) + plain("'"@) + plain("::"@) + plain(name)),
            None => None,
        }
    } else {
        match scalar_value(oid, b) {
            Some(s) => Some(plain(s)),
            None => None,
        }
    }
}

fn cast_option(s: Option<String>, cast: &str) -> (r: Option<String>)
    ensures
        r is Some <==> s is Some,
        r is Some ==> r->0@ == quoted(s->0@) + cast@,
{
    match s {
        Some(t) => Some(cast_literal(t.as_str(), cast)),
        None => None,
    }
}

/// The text `s` as a literal with a cast.
fn text_option(s: Option<String>, cast: &str) -> (r: Option<String>)
    ensures
        r is Some <==> s is Some,
        r is Some ==> r->0@ == quoted(quotes_doubled(s->0@)) + cast@,
{
    match s {
        Some(t) => {
            let mut q = sql_quote_text(t.as_str());
            q.push_str(cast);
            Some(q)
        },
        None => None,
    }
}

fn scalar_literal(oid: u32, b: &[u8]) -> (r: Option<String>)
    ensures
        r is Some <==> scalar_value(oid, b@) is Some,
        r is Some ==> scalar_value(oid, b@) == Some(r->0@),
{
    proof {
        assert(b@.len() == 2 ==> field(b@, 0, 2) =~= b@);
        assert(b@.len() == 4 ==> field(b@, 0, 4) =~= b@);
        assert(b@.len() == 8 ==> field(b@, 0, 8) =~= b@);
    }
    let n: usize = b.len();
    match oid {
        16 => if n != 1 {
            None
        } else if b[0] == 0 {
            Some(quote_literal(char_string('f').as_str()))
        } else {
            Some(quote_literal(char_string('t').as_str()))
        },
        20 => if n == 8 {
            Some(quote_literal(signed_string(read_i64(b, 0)).as_str()))
        } else {
            None
        },
        21 => if n == 2 {
            Some(quote_literal(signed_string(read_i16(b, 0) as i64).as_str()))
        } else {
            None
        },
        23 => if n == 4 {
            Some(quote_literal(signed_string(read_i32(b, 0) as i64).as_str()))
        } else {
            None
        },
        25 | 19 | 1042 | 1043 | 18 | 114 => match from_utf8(b) {
            Some(s) => Some(sql_quote_text(s.as_str())),
            None => None,
        },
        26 | 28 | 29 | 24 | 2202 | 2203 | 2204 | 2205 | 2206 => if n == 4 {
            Some(quote_literal(crate::number::decimal_string(read_u32(b, 0) as u64).as_str()))
        } else {
            None
        },
        17 => {
            let mut out = String::new();
            out.push_str("E'\\\\x");
            push_hex(&mut out, b);
            out.push('\'');
            proof {
                assert(out@ =~= "E'\\\\x"@ + hex_text(b@) + seq!['\'']);
            }
            Some(out)
        },
        1082 => if n == 4 {
            Some(cast_literal(format_pg_date(read_i32(b, 0)).as_str(), "::date"))
        } else {
            None
        },
        1083 => if n == 8 {
            cast_option(format_pg_time(read_i64(b, 0)), "::time")
        } else {
            None
        },
        1114 => if n == 8 {
            Some(cast_literal(format_pg_timestamp(read_i64(b, 0), false).as_str(), "::timestamp"))
        } else {
            None
        },
        1184 => if n == 8 {
            Some(cast_literal(format_pg_timestamp(read_i64(b, 0), true).as_str(), "::timestamptz"))
        } else {
            None
        },
        1700 => match decode_numeric(b) {
            Some(s) => Some(quote_literal(s.as_str())),
            None => None,
        },
        2950 => if n == 16 {
            Some(quote_literal(format_uuid(b).as_str()))
        } else {
            None
        },
        3802 => {
            if n == 0 || b[0] != 1 {
                return None;
            }
            proof {
                assert(b@.subrange(1, b@.len() as int) =~= b@.skip(1));
            }
            text_option(from_utf8(slice_subrange(b, 1, n)), "::jsonb")
        },
        142 => text_option(from_utf8(b), "::xml"),
        790 => if n == 8 {
            Some(money_literal(read_i64(b, 0)))
        } else {
            None
        },
        1186 => cast_option(decode_interval(b), "::interval"),
        1266 => cast_option(decode_timetz(b), "::timetz"),
        1560 | 1562 => match decode_bit_string(b) {
            Some(s) => {
                let mut out = char_string('B');
                out.push_str(quote_literal(s.as_str()).as_str());
                Some(out)
            },
            None => None,
        },
        869 => cast_option(decode_inet_cidr(b), "::inet"),
        650 => cast_option(decode_inet_cidr(b), "::cidr"),
        829 => if n == 6 {
            Some(cast_literal(format_mac(b).as_str(), "::macaddr"))
        } else {
            None
        },
        774 => if n == 8 {
            Some(cast_literal(format_mac(b).as_str(), "::macaddr8"))
        } else {
            None
        },
        _ => None,
    }
}

fn money_literal(v: i64) -> (r: String)
    ensures
        r@ == quoted(money_text(v as int)) + "::money"@,
{
    let abs: u64 = crate::number::magnitude(v);
    let mut body = String::new();
    if v < 0 {
        body.push('-');
    }
    push_decimal(&mut body, abs / 100);
    body.push('.');
    push_padded(&mut body, abs % 100, 2);
    proof {
        assert(body@ =~= money_text(v as int));
    }
    cast_literal(body.as_str(), "::money")
}

fn append_pieces(out: &mut Vec<Piece>, p: &Vec<Piece>)
    ensures
        final(out)@ == old(out)@ + p@,
{
    let ghost before = out@;
    for i in 0..p.len()
        invariant
            out@ == before + p@.take(i as int),
    {
        out.push(p[i]);
        proof {
            assert(before + p@.take(i + 1) =~= (before + p@.take(i as int)).push(p@[i as int]));
        }
    }
    proof {
        assert(p@.take(p@.len() as int) =~= p@);
    }
}

fn quoted_pieces(p: Option<Vec<Piece>>, cast: &str) -> (r: Option<Literal>)
    ensures
        r is Some <==> p is Some,
        r is Some ==> r->0.pieces@ == plain("'"@) + p->0@ + plain("'"@) + plain(cast@),
{
    match p {
        Some(x) => {
            let mut out = plain_pieces("'");
            append_pieces(&mut out, &x);
            push_plain(&mut out, "'");
            push_plain(&mut out, cast);
            Some(Literal { pieces: out })
        },
        None => None,
    }
}

fn float_literal(p: &Vec<Piece>) -> (r: Literal)
    ensures
        r.pieces@ == plain("'"@) + p@ + plain("'"@),
{
    let mut out = plain_pieces("'");
    append_pieces(&mut out, p);
    push_plain(&mut out, "'");
    Literal { pieces: out }
}

fn is_oid(known: Option<u32>, oid: u32) -> (r: bool)
    ensures
        r == (known == Some(oid)),
{
    match known {
        Some(k) => k == oid,
        None => false,
    }
}

/// Format a PostgreSQL binary-format value as a SQL text literal, given its
/// type OID, quoted and escaped (e.g. `'42'`, `'hello'`).
///
/// Unknown OIDs or malformed bytes return `None`; the caller can fall back to
/// a placeholder. Extension types are not known here; see
/// [`binary_to_sql_literal_ext`].
pub fn binary_to_sql_literal(oid: u32, bytes: &[u8]) -> (r: Option<Literal>)
    ensures
        r is Some <==> literal_value(oid, bytes@, no_extensions()) is Some,
        r is Some ==> literal_value(oid, bytes@, no_extensions()) == Some(r->0.pieces@),
{
    binary_to_sql_literal_ext(oid, bytes, &ExtensionOids::default())
}

/// Like [`binary_to_sql_literal`] but also decodes extension types whose OIDs
/// were discovered at proxy startup.
pub fn binary_to_sql_literal_ext(oid: u32, bytes: &[u8], ext: &ExtensionOids) -> (r: Option<Literal>)
    ensures
        r is Some <==> literal_value(oid, bytes@, *ext) is Some,
        r is Some ==> literal_value(oid, bytes@, *ext) == Some(r->0.pieces@),
{
    if is_oid(ext.vector, oid) {
        return quoted_pieces(decode_vector(bytes), "::vector");
    }
    if is_oid(ext.halfvec, oid) {
        return quoted_pieces(decode_halfvec(bytes), "::halfvec");
    }
    if is_oid(ext.sparsevec, oid) {
        return quoted_pieces(decode_sparsevec(bytes), "::sparsevec");
    }
    if oid == 700 {
        if bytes.len() != 4 {
            return None;
        }
        proof {
            assert(field(bytes@, 0, 4) =~= bytes@);
        }
        return Some(float_literal(&single_piece(read_u32(bytes, 0))));
    }
    if oid == 701 {
        if bytes.len() != 8 {
            return None;
        }
        proof {
            assert(field(bytes@, 0, 8) =~= bytes@);
        }
        return Some(float_literal(&double_piece(read_u64(bytes, 0))));
    }
    if let Some(name) = array_cast(oid) {
        return match decode_array(bytes) {
            Some(x) => {
                let mut out = plain_pieces("'");
                append_pieces(&mut out, &double_piece_quotes(&x));
                push_plain(&mut out, "'");
                push_plain(&mut out, "::");
                push_plain(&mut out, name);
                Some(Literal { pieces: out })
            },
            None => None,
        };
    }
    match scalar_literal(oid, bytes) {
        Some(s) => Some(Literal { pieces: plain_pieces(s.as_str()) }),
        None => None,
    }
}

} // verus!
