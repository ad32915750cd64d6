//! Laws of SQL text: what its tokens are, and what masking makes of them.

use crate::capture::masking::{masked, masked_from, masked_token, lemma_masked_behind, lemma_masked_step};
use crate::sql::clause::lemma_run_is;
use crate::sql::lex::{
    before_next, closed_by, dollar_tag_end, is_tag_char, quoted_end, token_at, Before, Lexeme, TokenKind,
};
use crate::sql::placeholder::{digits_until, filled, filled_from, placeholder_at, value_of};
use crate::number::{all_digits, decimal, law_decimal_value};
use crate::laws::numbers::law_decimal_begins_without_zero;
use crate::text::{is_ascii_letter, is_digit, is_word_char, lemma_find_from, match_at};
use vstd::prelude::*;

verus! {

// ── Tokens ──────────────────────────────────────────────────────────

proof fn lemma_no_comment(c: Seq<char>)
    requires
        c.len() > 0,
        c[0] != '-' || c.len() == 1 || c[1] != '-',
        c[0] != '/' || c.len() == 1 || c[1] != '*',
    ensures
        !match_at(c, seq!['-', '-'], 0),
        !match_at(c, seq!['/', '*'], 0),
{
    if match_at(c, seq!['-', '-'], 0) {
        assert(c.subrange(0, 2)[0] == '-' && c.subrange(0, 2)[1] == '-');
    }
    if match_at(c, seq!['/', '*'], 0) {
        assert(c.subrange(0, 2)[0] == '/' && c.subrange(0, 2)[1] == '*');
    }
}

/// A word is one token: a letter or `_`, and letters, numbers and `_` behind it,
/// up to a character that is none of these. Numbers in a word belong to it.
pub proof fn law_word_is_a_token(w: Seq<char>, b: Seq<char>, before: Before)
    requires
        w.len() > 0,
        is_ascii_letter(w[0]) || w[0] == '_',
        forall|i: int| 0 <= i < w.len() ==> is_word_char(#[trigger] w[i]),
        b.len() > 0 ==> !is_word_char(b[0]),
    ensures
        token_at(w + b, 0, before) == (TokenKind::Ident, w.len() as int),
{
    let c = w + b;
    let n = w.len() as int;
    assert(c[0] == w[0]);
    lemma_no_comment(c);
    assert forall|i: int| 1 <= i < n implies is_word_char(#[trigger] c[i]) by {
        assert(c[i] == w[i]);
    }
    if b.len() > 0 {
        assert(c[n] == b[0]);
    }
    lemma_run_is(c, 1, |x: char| is_word_char(x), n);
}

/// Digits are one number, up to a character that does not go on with it.
pub proof fn law_digits_are_a_token(d: Seq<char>, b: Seq<char>, before: Before)
    requires
        d.len() > 0,
        all_digits(d),
        b.len() > 0 ==> !is_digit(b[0]) && b[0] != '.' && b[0] != 'e' && b[0] != 'E',
    ensures
        token_at(d + b, 0, before) == (TokenKind::Number, d.len() as int),
{
    let c = d + b;
    let n = d.len() as int;
    assert(is_digit(d[0]));
    assert(c[0] == d[0]);
    lemma_no_comment(c);
    assert forall|i: int| 0 <= i < n implies is_digit(#[trigger] c[i]) by {
        assert(is_digit(d[i]));
        assert(c[i] == d[i]);
    }
    if b.len() > 0 {
        assert(c[n] == b[0]);
    }
    lemma_run_is(c, 0, |x: char| is_digit(x), n);
}

/// Digits, a point and digits are one number.
pub proof fn law_decimal_is_a_token(w: Seq<char>, f: Seq<char>, b: Seq<char>, before: Before)
    requires
        w.len() > 0,
        all_digits(w),
        f.len() > 0,
        all_digits(f),
        b.len() > 0 ==> !is_digit(b[0]) && b[0] != 'e' && b[0] != 'E',
    ensures
        token_at(w + seq!['.'] + f + b, 0, before) == (TokenKind::Number, w.len() + 1 + f.len() as int),
{
    let c = w + seq!['.'] + f + b;
    let n = w.len() as int;
    let e = n + 1 + f.len();
    assert(is_digit(w[0]));
    assert(c[0] == w[0]);
    lemma_no_comment(c);
    assert forall|i: int| 0 <= i < n implies is_digit(#[trigger] c[i]) by {
        assert(is_digit(w[i]));
        assert(c[i] == w[i]);
    }
    assert(c[n] == '.');
    assert forall|i: int| n + 1 <= i < e implies is_digit(#[trigger] c[i]) by {
        assert(is_digit(f[i - n - 1]));
        assert(c[i] == f[i - n - 1]);
    }
    if b.len() > 0 {
        assert(c[e] == b[0]);
    }
    lemma_run_is(c, 0, |x: char| is_digit(x), n);
    lemma_run_is(c, n + 1, |x: char| is_digit(x), e);
    assert(is_digit(c[n + 1]));
}

/// A minus sign before digits belongs to the number at the start of a text and
/// behind an operator, an opening bracket or a comma; behind anything else it is
/// a token of its own.
pub proof fn law_minus_sign(d: Seq<char>, b: Seq<char>, before: Before)
    requires
        d.len() > 0,
        all_digits(d),
        b.len() > 0 ==> !is_digit(b[0]) && b[0] != '.' && b[0] != 'e' && b[0] != 'E',
    ensures
        before == Before::Start || before == Before::Punct('=') || before == Before::Punct('(') || before
            == Before::Punct(',') || before == Before::Punct('<') || before == Before::Punct('>') || before
            == Before::Punct('+') || before == Before::Punct('*') || before == Before::Punct('/') ==> token_at(
            seq!['-'] + d + b,
            0,
            before,
        ) == (TokenKind::Number, d.len() + 1 as int),
        before == Before::Other || before == Before::Punct(')') || before == Before::Punct(']') || before
            == Before::Punct(';') ==> token_at(seq!['-'] + d + b, 0, before) == (TokenKind::Punct, 1int),
{
    let c = seq!['-'] + d + b;
    let n = d.len() as int;
    assert(is_digit(d[0]));
    assert(c[0] == '-');
    assert(c[1] == d[0]);
    lemma_no_comment(c);
    assert forall|i: int| 1 <= i < n + 1 implies is_digit(#[trigger] c[i]) by {
        assert(is_digit(d[i - 1]));
        assert(c[i] == d[i - 1]);
    }
    if b.len() > 0 {
        assert(c[n + 1] == b[0]);
    }
    lemma_run_is(c, 1, |x: char| is_digit(x), n + 1);
}

/// Behind punctuation a minus sign belongs to a number just where an operand is
/// expected: behind an operator, an opening bracket, a comma or a colon.
pub proof fn law_operators_expect_an_operand(d: Seq<char>, b: Seq<char>, p: char)
    requires
        d.len() > 0,
        all_digits(d),
        b.len() > 0 ==> !is_digit(b[0]) && b[0] != '.' && b[0] != 'e' && b[0] != 'E',
    ensures
        token_at(seq!['-'] + d + b, 0, Before::Punct(p)) == (TokenKind::Number, d.len() + 1 as int) <==> p == '(' || p
            == '[' || p == ',' || p == ':' || p == '=' || p == '<' || p == '>' || p == '+' || p == '-' || p == '*' || p
            == '/' || p == '%' || p == '^' || p == '|' || p == '&' || p == '~' || p == '!' || p == '@' || p == '#' || p
            == '?',
{
    let c = seq!['-'] + d + b;
    let n = d.len() as int;
    assert(is_digit(d[0]));
    assert(c[0] == '-');
    assert(c[1] == d[0]);
    lemma_no_comment(c);
    assert forall|i: int| 1 <= i < n + 1 implies is_digit(#[trigger] c[i]) by {
        assert(is_digit(d[i - 1]));
        assert(c[i] == d[i - 1]);
    }
    if b.len() > 0 {
        assert(c[n + 1] == b[0]);
    }
    lemma_run_is(c, 1, |x: char| is_digit(x), n + 1);
}

/// An exponent belongs to the number before it, with a sign or without; an `e`
/// without digits behind it does not.
pub proof fn law_exponent_belongs_to_its_number(d: Seq<char>, e: char, x: Seq<char>, b: Seq<char>, before: Before)
    requires
        d.len() > 0,
        all_digits(d),
        e == 'e' || e == 'E',
        x.len() > 0,
        all_digits(x),
        b.len() > 0 ==> !is_digit(b[0]),
    ensures
        token_at(d + seq![e] + x + b, 0, before) == (TokenKind::Number, d.len() + 1 + x.len() as int),
        token_at(d + seq![e, '-'] + x + b, 0, before) == (TokenKind::Number, d.len() + 2 + x.len() as int),
        token_at(d + seq![e, '+'] + x + b, 0, before) == (TokenKind::Number, d.len() + 2 + x.len() as int),
        b.len() == 0 || (b[0] != '+' && b[0] != '-') ==> token_at(d + seq![e] + b, 0, before) == (
            TokenKind::Number,
            d.len() as int,
        ),
{
    lemma_exponent(d, seq![e], x, b, before);
    lemma_exponent(d, seq![e, '-'], x, b, before);
    lemma_exponent(d, seq![e, '+'], x, b, before);
    if b.len() == 0 || (b[0] != '+' && b[0] != '-') {
        let c = d + seq![e] + b;
        let n = d.len() as int;
        assert(is_digit(d[0]));
        assert(c[0] == d[0]);
        lemma_no_comment(c);
        assert forall|i: int| 0 <= i < n implies is_digit(#[trigger] c[i]) by {
            assert(is_digit(d[i]));
            assert(c[i] == d[i]);
        }
        assert(c[n] == e);
        if b.len() > 0 {
            assert(c[n + 1] == b[0]);
        }
        lemma_run_is(c, 0, |y: char| is_digit(y), n);
    }
}

proof fn lemma_exponent(d: Seq<char>, mid: Seq<char>, x: Seq<char>, b: Seq<char>, before: Before)
    requires
        d.len() > 0,
        all_digits(d),
        mid.len() == 1 || (mid.len() == 2 && (mid[1] == '+' || mid[1] == '-')),
        mid[0] == 'e' || mid[0] == 'E',
        x.len() > 0,
        all_digits(x),
        b.len() > 0 ==> !is_digit(b[0]),
    ensures
        token_at(d + mid + x + b, 0, before) == (TokenKind::Number, d.len() + mid.len() + x.len() as int),
{
    let c = d + mid + x + b;
    let n = d.len() as int;
    let f = n + mid.len();
    let end = f + x.len();
    assert(is_digit(d[0]));
    assert(c[0] == d[0]);
    lemma_no_comment(c);
    assert forall|i: int| 0 <= i < n implies is_digit(#[trigger] c[i]) by {
        assert(is_digit(d[i]));
        assert(c[i] == d[i]);
    }
    assert(c[n] == mid[0]);
    if mid.len() == 2 {
        assert(c[n + 1] == mid[1]);
    }
    assert forall|i: int| f <= i < end implies is_digit(#[trigger] c[i]) by {
        assert(is_digit(x[i - f]));
        assert(c[i] == x[i - f]);
    }
    assert(is_digit(c[f]));
    if b.len() > 0 {
        assert(c[end] == b[0]);
    }
    lemma_run_is(c, 0, |y: char| is_digit(y), n);
    lemma_run_is(c, f, |y: char| is_digit(y), end);
}

/// Two dashes open a comment up to the end of the line.
pub proof fn law_line_comment_is_a_token(t: Seq<char>, b: Seq<char>, before: Before)
    requires
        forall|i: int| 0 <= i < t.len() ==> #[trigger] t[i] != '\n',
        b.len() > 0 ==> b[0] == '\n',
    ensures
        token_at(seq!['-', '-'] + t + b, 0, before) == (TokenKind::LineComment, t.len() + 2 as int),
{
    let c = seq!['-', '-'] + t + b;
    let n = t.len() + 2 as int;
    assert(c.subrange(0, 2) =~= seq!['-', '-']);
    assert forall|i: int| 0 <= i < n implies #[trigger] c[i] != '\n' by {
        if i >= 2 {
            assert(c[i] == t[i - 2]);
        }
    }
    if b.len() > 0 {
        assert(c[n] == b[0]);
    }
    lemma_run_is(c, 0, |x: char| x != '\n', n);
}

proof fn lemma_closes(c: Seq<char>, close: Seq<char>, from: int, at: int)
    requires
        0 <= from <= at,
        match_at(c, close, at),
        forall|k: int| from <= k < at ==> !match_at(c, close, k),
    ensures
        closed_by(c, close, from) == at + close.len(),
{
    lemma_find_from(c, close, from);
}

/// A block comment reaches to the first `*/`.
pub proof fn law_block_comment_is_a_token(t: Seq<char>, b: Seq<char>, before: Before)
    requires
        forall|i: int| 0 <= i < t.len() ==> #[trigger] t[i] != '*',
    ensures
        token_at(seq!['/', '*'] + t + seq!['*', '/'] + b, 0, before) == (TokenKind::BlockComment, t.len() + 4 as int),
{
    let c = seq!['/', '*'] + t + seq!['*', '/'] + b;
    let n = t.len() as int;
    let close = seq!['*', '/'];
    assert(c.subrange(0, 2) =~= seq!['/', '*']);
    assert(c[0] == '/');
    if match_at(c, seq!['-', '-'], 0) {
        assert(c.subrange(0, 2)[0] == '-');
    }
    assert(c.subrange(n + 2, n + 4) =~= close);
    assert forall|k: int| 2 <= k < n + 2 implies !match_at(c, close, k) by {
        if match_at(c, close, k) {
            assert(c.subrange(k, k + 2)[0] == '*');
            assert(c[k] == t[k - 2]);
        }
    }
    lemma_closes(c, close, 2, n + 2);
}

/// A string between dollar delimiters is one token, whatever it holds but its
/// delimiter.
pub proof fn law_dollar_string_is_a_token(tag: Seq<char>, t: Seq<char>, b: Seq<char>, before: Before)
    requires
        forall|i: int| 0 <= i < tag.len() ==> is_tag_char(#[trigger] tag[i]),
        forall|i: int| 0 <= i < t.len() ==> #[trigger] t[i] != '$',
    ensures
        ({
            let q = seq!['$'] + tag + seq!['$'];
            token_at(q + t + q + b, 0, before) == (TokenKind::DollarString, 2 * q.len() + t.len() as int)
        }),
{
    let q = seq!['$'] + tag + seq!['$'];
    let c = q + t + q + b;
    let g = tag.len() as int;
    let n = q.len() as int;
    let m = t.len() as int;
    assert(c[0] == '$');
    lemma_no_comment(c);
    assert forall|i: int| 1 <= i < g + 1 implies is_tag_char(#[trigger] c[i]) by {
        assert(c[i] == q[i]);
        assert(q[i] == tag[i - 1]);
    }
    assert(c[g + 1] == q[g + 1]);
    lemma_run_is(c, 1, |x: char| is_tag_char(x), g + 1);
    assert(dollar_tag_end(c, 0) == Some(g + 1));
    assert(c.subrange(0, g + 2) =~= q);
    assert(c.subrange(n + m, n + m + n) =~= q);
    assert forall|k: int| n <= k < n + m implies !match_at(c, q, k) by {
        if match_at(c, q, k) {
            assert(c.subrange(k, k + n)[0] == q[0]);
            assert(c[k] == t[k - n]);
        }
    }
    lemma_closes(c, q, n, n + m);
}

/// A dollar sign and digits are a placeholder.
pub proof fn law_placeholder_is_a_token(d: Seq<char>, b: Seq<char>, before: Before)
    requires
        d.len() > 0,
        all_digits(d),
        b.len() > 0 ==> !is_tag_char(b[0]) && b[0] != '$',
    ensures
        token_at(seq!['$'] + d + b, 0, before) == (TokenKind::BindParam, d.len() + 1 as int),
{
    let c = seq!['$'] + d + b;
    let n = d.len() as int;
    assert(is_digit(d[0]));
    assert(c[0] == '$');
    assert(c[1] == d[0]);
    lemma_no_comment(c);
    assert forall|i: int| 1 <= i < n + 1 implies is_digit(#[trigger] c[i]) by {
        assert(is_digit(d[i - 1]));
        assert(c[i] == d[i - 1]);
    }
    if b.len() > 0 {
        assert(c[n + 1] == b[0]);
    }
    lemma_run_is(c, 1, |x: char| is_tag_char(x), n + 1);
    lemma_run_is(c, 1, |x: char| is_digit(x), n + 1);
}

/// A name between double quotes is one token.
pub proof fn law_quoted_name_is_a_token(t: Seq<char>, b: Seq<char>, before: Before)
    requires
        forall|i: int| 0 <= i < t.len() ==> #[trigger] t[i] != '"',
        b.len() > 0 ==> b[0] != '"',
    ensures
        token_at(seq!['"'] + t + seq!['"'] + b, 0, before) == (TokenKind::QuotedIdent, t.len() + 2 as int),
{
    let c = seq!['"'] + t + seq!['"'] + b;
    let n = t.len() as int;
    assert(c[0] == '"');
    lemma_no_comment(c);
    assert(c[n + 1] == '"');
    if b.len() > 0 {
        assert(c[n + 2] == b[0]);
    }
    assert forall|i: int| 1 <= i < n + 1 implies #[trigger] c[i] != '"' by {
        assert(c[i] == t[i - 1]);
    }
    lemma_quoted_run(c, 1, n + 1);
}

proof fn lemma_quoted_run(c: Seq<char>, i: int, e: int)
    requires
        0 <= i <= e < c.len(),
        c[e] == '"',
        e + 1 < c.len() ==> c[e + 1] != '"',
        forall|k: int| i <= k < e ==> #[trigger] c[k] != '"',
    ensures
        quoted_end(c, i, '"') == e + 1,
    decreases e - i,
{
    if i < e {
        assert(c[i] != '"');
        lemma_quoted_run(c, i + 1, e);
    }
}

// ── Masking ─────────────────────────────────────────────────────────

proof fn lemma_first_masked(t: Seq<char>, b: Seq<char>, kind: TokenKind, before: Before)
    requires
        t.len() > 0,
        token_at(t + b, 0, before) == (kind, t.len() as int),
    ensures
        ({
            let next = before_next(t + b, 0, kind, before);
            masked_from(t + b, 0, before) == masked_token(
                t + b,
                Lexeme { kind, start: 0, end: t.len() as int },
            ) + masked_from(b, 0, next)
        }),
        (t + b).subrange(0, t.len() as int) == t,
{
    let c = t + b;
    lemma_masked_step(c, 0, before);
    assert(c.skip(t.len() as int) =~= b);
    lemma_masked_behind(c, t.len() as int, 0, before_next(c, 0, kind, before));
    assert(c.subrange(0, t.len() as int) =~= t);
}

/// A number, with or without a point, is masked as `$N`, and masking goes on
/// behind it.
pub proof fn law_number_is_masked(d: Seq<char>, w: Seq<char>, f: Seq<char>, b: Seq<char>, before: Before)
    requires
        b.len() > 0 ==> !is_digit(b[0]) && b[0] != '.' && b[0] != 'e' && b[0] != 'E',
    ensures
        d.len() > 0 && all_digits(d) ==> masked_from(d + b, 0, before) == seq!['$', 'N'] + masked_from(
            b,
            0,
            Before::Other,
        ),
        w.len() > 0 && all_digits(w) && f.len() > 0 && all_digits(f) ==> masked_from(
            w + seq!['.'] + f + b,
            0,
            before,
        ) == seq!['$', 'N'] + masked_from(b, 0, Before::Other),
{
    if d.len() > 0 && all_digits(d) {
        law_digits_are_a_token(d, b, before);
        lemma_first_masked(d, b, TokenKind::Number, before);
    }
    if w.len() > 0 && all_digits(w) && f.len() > 0 && all_digits(f) {
        law_decimal_is_a_token(w, f, b, before);
        lemma_first_masked(w + seq!['.'] + f, b, TokenKind::Number, before);
    }
}

/// A string between dollar delimiters is masked as `$S`.
pub proof fn law_dollar_string_is_masked(tag: Seq<char>, t: Seq<char>, b: Seq<char>, before: Before)
    requires
        forall|i: int| 0 <= i < tag.len() ==> is_tag_char(#[trigger] tag[i]),
        forall|i: int| 0 <= i < t.len() ==> #[trigger] t[i] != '$',
    ensures
        ({
            let q = seq!['$'] + tag + seq!['$'];
            masked_from(q + t + q + b, 0, before) == seq!['$', 'S'] + masked_from(b, 0, Before::Other)
        }),
{
    let q = seq!['$'] + tag + seq!['$'];
    law_dollar_string_is_a_token(tag, t, b, before);
    lemma_first_masked(q + t + q, b, TokenKind::DollarString, before);
}

/// A word is not masked, whatever digits it holds, nor is a quoted name, a
/// placeholder, a comment or white space.
pub proof fn law_other_tokens_are_not_masked(t: Seq<char>, b: Seq<char>, kind: TokenKind, before: Before)
    requires
        t.len() > 0,
        token_at(t + b, 0, before) == (kind, t.len() as int),
        kind == TokenKind::Ident || kind == TokenKind::QuotedIdent || kind == TokenKind::BindParam || kind
            == TokenKind::LineComment || kind == TokenKind::BlockComment || kind == TokenKind::Whitespace || kind
            == TokenKind::Punct,
    ensures
        masked_from(t + b, 0, before) == t + masked_from(b, 0, before_next(t + b, 0, kind, before)),
{
    lemma_first_masked(t, b, kind, before);
}

/// Masking a text is masking its tokens from the first on; of nothing it makes
/// nothing.
pub proof fn law_masking_begins_at_the_start(c: Seq<char>, before: Before)
    ensures
        masked(c) == masked_from(c, 0, Before::Start),
        masked_from(Seq::<char>::empty(), 0, before) == Seq::<char>::empty(),
{
}

// ── Placeholders ────────────────────────────────────────────────────

proof fn lemma_digits_until(c: Seq<char>, i: int, e: int)
    requires
        0 <= i <= e <= c.len(),
        forall|k: int| i <= k < e ==> is_digit(#[trigger] c[k]),
        e == c.len() || !is_digit(c[e]),
    ensures
        digits_until(c, i) == e,
    decreases e - i,
{
    if i < e {
        assert(is_digit(c[i]));
        lemma_digits_until(c, i + 1, e);
    }
}

proof fn lemma_until_shift(c: Seq<char>, p: int, i: int)
    requires
        0 <= p <= c.len(),
        0 <= i,
    ensures
        digits_until(c, p + i) == p + digits_until(c.skip(p), i),
    decreases c.len() - i,
{
    if i < c.skip(p).len() && is_digit(c.skip(p)[i]) {
        lemma_until_shift(c, p, i + 1);
    }
}

proof fn lemma_until_bounds(c: Seq<char>, i: int)
    requires
        0 <= i <= c.len(),
    ensures
        i <= digits_until(c, i) <= c.len(),
    decreases c.len() - i,
{
    if i < c.len() && is_digit(c[i]) {
        lemma_until_bounds(c, i + 1);
    }
}

proof fn lemma_fill_shift(c: Seq<char>, p: int, i: int, ps: Seq<(nat, Seq<char>)>)
    requires
        0 <= p <= c.len(),
        0 <= i <= c.skip(p).len(),
    ensures
        filled_from(c, p + i, ps) == filled_from(c.skip(p), i, ps),
    decreases c.skip(p).len() - i,
{
    let b = c.skip(p);
    if i < b.len() {
        lemma_until_shift(c, p, i + 1);
        lemma_until_bounds(b, i + 1);
        let e = digits_until(b, i + 1);
        assert(c.subrange(p + i + 1, p + e) =~= b.subrange(i + 1, e));
        if e > i + 1 {
            assert(b[i + 1] == c[p + i + 1]);
        }
        assert(b[i] == c[p + i]);
        assert(placeholder_at(c, p + i, ps) == placeholder_at(b, i, ps));
        lemma_fill_shift(c, p, e, ps);
        lemma_fill_shift(c, p, i + 1, ps);
    }
}

/// A placeholder with a value is replaced by it, and the text behind it is
/// filled on its own; a character that opens no placeholder stays.
pub proof fn law_placeholders_are_filled(n: nat, x: char, b: Seq<char>, ps: Seq<(nat, Seq<char>)>)
    ensures
        b.len() == 0 || !is_digit(b[0]) ==> filled(seq!['$'] + decimal(n) + b, ps) == (match value_of(ps, n) {
            Some(v) => v,
            None => seq!['$'] + decimal(n),
        }) + filled(b, ps),
        x != '$' ==> filled(seq![x] + b, ps) == seq![x] + filled(b, ps),
        filled(Seq::<char>::empty(), ps) == Seq::<char>::empty(),
{
    if x != '$' {
        let c = seq![x] + b;
        assert(c.skip(1) =~= b);
        assert(c[0] == x);
        lemma_fill_shift(c, 1, 0, ps);
    }
    if b.len() == 0 || !is_digit(b[0]) {
        let d = decimal(n);
        let c = seq!['$'] + d + b;
        let m = d.len() as int;
        law_decimal_value(n);
        law_decimal_begins_without_zero(n);
        assert(c[0] == '$');
        assert forall|k: int| 1 <= k < m + 1 implies is_digit(#[trigger] c[k]) by {
            assert(is_digit(d[k - 1]));
            assert(c[k] == d[k - 1]);
        }
        if b.len() > 0 {
            assert(c[m + 1] == b[0]);
        }
        lemma_digits_until(c, 1, m + 1);
        assert(c.subrange(1, m + 1) =~= d);
        assert(c[1] == d[0]);
        assert(placeholder_at(c, 0, ps) == value_of(ps, n));
        assert(c.skip(m + 1) =~= b);
        lemma_fill_shift(c, m + 1, 0, ps);
        if value_of(ps, n) is None {
            lemma_plain_digits(c, 1, m + 1, ps);
            assert(seq!['$'] + (c.subrange(1, m + 1) + filled(b, ps)) =~= seq!['$'] + d + filled(b, ps));
        }
    }
}

/// A dollar sign without a number behind it stays, and so does one before a
/// number that begins with a zero but is not zero.
pub proof fn law_other_dollar_signs_stay(b: Seq<char>, ps: Seq<(nat, Seq<char>)>)
    requires
        b.len() == 0 || !is_digit(b[0]) || (b[0] == '0' && b.len() > 1 && is_digit(b[1])),
    ensures
        filled(seq!['$'] + b, ps) == seq!['$'] + filled(b, ps),
{
    let c = seq!['$'] + b;
    assert(c.skip(1) =~= b);
    assert(c[0] == '$');
    if b.len() > 0 {
        assert(c[1] == b[0]);
        if is_digit(b[0]) {
            assert(c[2] == b[1]);
            lemma_until_bounds(c, 3);
            assert(digits_until(c, 1) == digits_until(c, 2));
            assert(digits_until(c, 2) == digits_until(c, 3));
        }
    }
    assert(placeholder_at(c, 0, ps) is None);
    lemma_fill_shift(c, 1, 0, ps);
}

proof fn lemma_plain_digits(c: Seq<char>, i: int, e: int, ps: Seq<(nat, Seq<char>)>)
    requires
        0 <= i <= e <= c.len(),
        forall|k: int| i <= k < e ==> is_digit(#[trigger] c[k]),
    ensures
        filled_from(c, i, ps) == c.subrange(i, e) + filled_from(c, e, ps),
    decreases e - i,
{
    if i < e {
        assert(is_digit(c[i]));
        lemma_plain_digits(c, i + 1, e, ps);
        assert(seq![c[i]] + (c.subrange(i + 1, e) + filled_from(c, e, ps)) =~= c.subrange(i, e) + filled_from(
            c,
            e,
            ps,
        ));
    } else {
        assert(c.subrange(i, e) + filled_from(c, e, ps) =~= filled_from(c, e, ps));
    }
}

/// The value of a number is the first that was given for it.
pub proof fn law_first_value_counts(ps: Seq<(nat, Seq<char>)>, i: int)
    requires
        0 <= i < ps.len(),
        forall|k: int| 0 <= k < i ==> (#[trigger] ps[k]).0 != ps[i].0,
    ensures
        value_of(ps, ps[i].0) == Some(ps[i].1),
    decreases i,
{
    if i > 0 {
        assert(ps[0].0 != ps[i].0);
        let t = ps.skip(1);
        assert(t[i - 1] == ps[i]);
        assert forall|k: int| 0 <= k < i - 1 implies (#[trigger] t[k]).0 != t[i - 1].0 by {
            assert(t[k] == ps[k + 1]);
        }
        law_first_value_counts(t, i - 1);
    }
}

} // verus!
