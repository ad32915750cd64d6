//! How the tokens of a text depend on what stands around it: a token is found
//! from its own position on, and one that ends before a quote or white space is
//! the same whatever stands behind that.

use crate::sql::lex::{
    before_next, closed_by, digit_at, dollar_tag_end, exponent_end, fraction_end, is_tag_char, law_token_nonempty,
    lemma_quoted_end, lemma_run_end, lexemes_from, number_end, quoted_end, run_end, token_at, Before, TokenKind,
};
use crate::text::{find_from, is_digit, is_space, is_word_char, lemma_find_from, match_at};
use vstd::prelude::*;

verus! {

// ── A text behind another ───────────────────────────────────────────

proof fn lemma_shift_run(c: Seq<char>, p: int, i: int, f: spec_fn(char) -> bool)
    requires
        0 <= p <= c.len(),
        0 <= i,
    ensures
        run_end(c, p + i, f) == p + run_end(c.skip(p), i, f),
    decreases c.len() - i,
{
    if i < c.skip(p).len() && f(c.skip(p)[i]) {
        lemma_shift_run(c, p, i + 1, f);
    }
}

proof fn lemma_shift_quoted(c: Seq<char>, p: int, j: int, q: char)
    requires
        0 <= p <= c.len(),
        0 <= j,
    ensures
        quoted_end(c, p + j, q) == p + quoted_end(c.skip(p), j, q),
    decreases c.len() - j,
{
    let b = c.skip(p);
    if j < b.len() {
        if b[j] != q {
            lemma_shift_quoted(c, p, j + 1, q);
        } else if j + 1 < b.len() && b[j + 1] == q {
            lemma_shift_quoted(c, p, j + 2, q);
        }
    }
}

proof fn lemma_shift_match(c: Seq<char>, p: int, s: Seq<char>, i: int)
    requires
        0 <= p <= c.len(),
        0 <= i,
    ensures
        match_at(c, s, p + i) == match_at(c.skip(p), s, i),
{
    if p + i + s.len() <= c.len() {
        assert(c.subrange(p + i, p + i + s.len()) =~= c.skip(p).subrange(i, i + s.len()));
    }
}

proof fn lemma_shift_closed_by(c: Seq<char>, p: int, s: Seq<char>, i: int)
    requires
        0 <= p <= c.len(),
        0 <= i,
    ensures
        closed_by(c, s, p + i) == p + closed_by(c.skip(p), s, i),
    decreases c.len() + 1 - i,
{
    let b = c.skip(p);
    lemma_shift_match(c, p, s, i);
    if i + s.len() <= b.len() && !match_at(b, s, i) {
        lemma_shift_closed_by(c, p, s, i + 1);
        assert(find_from(c, s, p + i) == find_from(c, s, p + (i + 1)));
        assert(find_from(b, s, i) == find_from(b, s, i + 1));
    }
}

proof fn lemma_shift_number(c: Seq<char>, p: int, i: int)
    requires
        0 <= p <= c.len(),
        0 <= i,
        digit_at(c.skip(p), i),
    ensures
        number_end(c, p + i) == p + number_end(c.skip(p), i),
{
    let b = c.skip(p);
    let f = |x: char| is_digit(x);
    lemma_run_end(b, i, f);
    lemma_shift_run(c, p, i, f);
    let d = run_end(b, i, f);
    lemma_shift_run(c, p, d + 1, f);
    if d < b.len() {
        lemma_run_end(b, d + 1, f);
    }
    assert(fraction_end(c, p + d) == p + fraction_end(b, d));
    let e = fraction_end(b, d);
    lemma_shift_run(c, p, e + 1, f);
    lemma_shift_run(c, p, e + 2, f);
    assert(exponent_end(c, p + e) == p + exponent_end(b, e));
}

/// A token does not depend on what stands before its first character, but for
/// what `before` says of it.
pub proof fn law_token_looks_ahead(c: Seq<char>, p: int, i: int, before: Before)
    requires
        0 <= p <= c.len(),
        0 <= i < c.skip(p).len(),
    ensures
        token_at(c, p + i, before).0 == token_at(c.skip(p), i, before).0,
        token_at(c, p + i, before).1 == p + token_at(c.skip(p), i, before).1,
{
    let b = c.skip(p);
    lemma_shift_match(c, p, seq!['-', '-'], i);
    lemma_shift_match(c, p, seq!['/', '*'], i);
    lemma_shift_run(c, p, i, |x: char| x != '\n');
    lemma_shift_closed_by(c, p, seq!['*', '/'], i + 2);
    lemma_shift_run(c, p, i, |x: char| is_space(x));
    lemma_shift_quoted(c, p, i + 1, '\'');
    lemma_shift_quoted(c, p, i + 1, '"');
    lemma_shift_run(c, p, i + 1, |x: char| is_digit(x));
    lemma_shift_run(c, p, i + 1, |x: char| is_tag_char(x));
    lemma_shift_run(c, p, i + 1, |x: char| is_word_char(x));
    lemma_run_end(b, i + 1, |x: char| is_tag_char(x));
    if let Some(t) = dollar_tag_end(b, i) {
        assert(c.subrange(p + i, p + t + 1) =~= b.subrange(i, t + 1));
        lemma_shift_closed_by(c, p, b.subrange(i, t + 1), t + 1);
    }
    if digit_at(b, i) {
        lemma_shift_number(c, p, i);
    }
    if digit_at(b, i + 1) {
        lemma_shift_number(c, p, i + 1);
    }
}

// ── A text before a quote or white space ────────────────────────────

/// A character that goes on no number, no placeholder and no tag.
pub open spec fn is_stop(x: char) -> bool {
    x == '\'' || is_space(x)
}

/// Whether two texts have the same first characters, up to a quote or white
/// space at `n`.
pub open spec fn same_up_to_stop(c: Seq<char>, d: Seq<char>, n: int) -> bool {
    &&& 0 <= n < c.len()
    &&& n < d.len()
    &&& is_stop(c[n])
    &&& forall|k: int| #![trigger c[k]] #![trigger d[k]] 0 <= k <= n ==> c[k] == d[k]
}

proof fn lemma_same_run(c: Seq<char>, d: Seq<char>, n: int, i: int, f: spec_fn(char) -> bool)
    requires
        same_up_to_stop(c, d, n),
        0 <= i <= n,
        run_end(d, i, f) <= n,
    ensures
        run_end(c, i, f) == run_end(d, i, f),
    decreases n - i,
{
    if f(d[i]) {
        lemma_run_end(d, i + 1, f);
        lemma_same_run(c, d, n, i + 1, f);
    }
}

proof fn lemma_run_stops(d: Seq<char>, n: int, i: int, f: spec_fn(char) -> bool)
    requires
        0 <= i <= n < d.len(),
        !f(d[n]),
    ensures
        run_end(d, i, f) <= n,
    decreases n - i,
{
    if f(d[i]) {
        lemma_run_stops(d, n, i + 1, f);
    }
}

proof fn lemma_same_quoted(c: Seq<char>, d: Seq<char>, n: int, j: int, q: char)
    requires
        same_up_to_stop(c, d, n),
        0 <= j <= n,
        quoted_end(d, j, q) <= n,
    ensures
        quoted_end(c, j, q) == quoted_end(d, j, q),
    decreases n - j,
{
    if d[j] != q {
        lemma_quoted_end(d, j + 1, q);
        lemma_same_quoted(c, d, n, j + 1, q);
    } else if j + 1 < d.len() && d[j + 1] == q {
        lemma_quoted_end(d, j + 2, q);
        lemma_same_quoted(c, d, n, j + 2, q);
    }
}

proof fn lemma_same_match(c: Seq<char>, d: Seq<char>, n: int, s: Seq<char>, i: int)
    requires
        same_up_to_stop(c, d, n),
        0 <= i,
        i + s.len() <= n + 1,
    ensures
        match_at(c, s, i) == match_at(d, s, i),
{
    assert(c.subrange(i, i + s.len()) =~= d.subrange(i, i + s.len()));
}

proof fn lemma_same_closed_by(c: Seq<char>, d: Seq<char>, n: int, s: Seq<char>, i: int)
    requires
        same_up_to_stop(c, d, n),
        0 <= i,
        closed_by(d, s, i) <= n,
    ensures
        closed_by(c, s, i) == closed_by(d, s, i),
    decreases n + 1 - i,
{
    lemma_find_from(d, s, i);
    assert(find_from(d, s, i) is Some);
    lemma_same_match(c, d, n, s, i);
    if !match_at(d, s, i) {
        assert(find_from(d, s, i) == find_from(d, s, i + 1));
        lemma_same_closed_by(c, d, n, s, i + 1);
        assert(find_from(c, s, i) == find_from(c, s, i + 1));
    }
}

proof fn lemma_same_number(c: Seq<char>, d: Seq<char>, n: int, i: int)
    requires
        same_up_to_stop(c, d, n),
        digit_at(d, i),
        i < n,
    ensures
        number_end(c, i) == number_end(d, i),
        number_end(d, i) <= n,
{
    let f = |x: char| is_digit(x);
    lemma_run_end(d, i, f);
    lemma_run_stops(d, n, i, f);
    lemma_same_run(c, d, n, i, f);
    let e0 = run_end(d, i, f);
    if e0 < n {
        lemma_run_stops(d, n, e0 + 1, f);
        lemma_run_end(d, e0 + 1, f);
        lemma_same_run(c, d, n, e0 + 1, f);
    }
    let e = fraction_end(d, e0);
    assert(fraction_end(c, e0) == e);
    if e < n {
        lemma_run_stops(d, n, e + 1, f);
        lemma_same_run(c, d, n, e + 1, f);
        if e + 1 < n {
            lemma_run_stops(d, n, e + 2, f);
            lemma_same_run(c, d, n, e + 2, f);
        }
    }
}

/// A token that ends before a quote or white space is the same whatever stands
/// behind that.
pub proof fn law_token_before_stop(c: Seq<char>, d: Seq<char>, n: int, i: int, before: Before)
    requires
        same_up_to_stop(c, d, n),
        0 <= i < n,
        token_at(d, i, before).1 <= n,
    ensures
        token_at(c, i, before) == token_at(d, i, before),
{
    lemma_same_match(c, d, n, seq!['-', '-'], i);
    lemma_same_match(c, d, n, seq!['/', '*'], i);
    if match_at(d, seq!['-', '-'], i) {
        lemma_same_run(c, d, n, i, |x: char| x != '\n');
    } else if match_at(d, seq!['/', '*'], i) {
        lemma_same_closed_by(c, d, n, seq!['*', '/'], i + 2);
    } else if is_space(d[i]) {
        lemma_same_run(c, d, n, i, |x: char| is_space(x));
    } else if d[i] == '\'' {
        lemma_same_quoted(c, d, n, i + 1, '\'');
    } else if d[i] == '$' {
        let f = |x: char| is_tag_char(x);
        lemma_run_stops(d, n, i + 1, f);
        lemma_same_run(c, d, n, i + 1, f);
        lemma_run_end(d, i + 1, f);
        match dollar_tag_end(d, i) {
            Some(t) => {
                assert(c.subrange(i, t + 1) =~= d.subrange(i, t + 1));
                lemma_same_closed_by(c, d, n, d.subrange(i, t + 1), t + 1);
            },
            None => {
                let g = |x: char| is_digit(x);
                lemma_run_stops(d, n, i + 1, g);
                lemma_same_run(c, d, n, i + 1, g);
            },
        }
    } else if d[i] == '"' {
        lemma_same_quoted(c, d, n, i + 1, '"');
    } else {
        if digit_at(d, i) {
            lemma_same_number(c, d, n, i);
        }
        if digit_at(d, i + 1) {
            lemma_same_number(c, d, n, i + 1);
        }
        if token_at(d, i, before).0 == TokenKind::Ident {
            lemma_same_run(c, d, n, i + 1, |x: char| is_word_char(x));
        }
    }
}

/// Whether a token begins at `p` when the tokens are read from `i` on.
pub open spec fn breaks_at(c: Seq<char>, i: int, before: Before, p: int) -> bool
    decreases c.len() - i,
{
    if i < 0 || i >= c.len() || i >= p {
        i == p
    } else {
        let (kind, end) = token_at(c, i, before);
        if end <= i || end > c.len() {
            false
        } else {
            breaks_at(c, end, before_next(c, i, kind, before), p)
        }
    }
}

pub(crate) proof fn lemma_breaks_below(c: Seq<char>, i: int, before: Before, p: int)
    requires
        breaks_at(c, i, before, p),
    ensures
        i <= p,
{
}

proof fn lemma_breaks_transfer(c: Seq<char>, d: Seq<char>, n: int, i: int, before: Before)
    requires
        same_up_to_stop(c, d, n),
        0 <= i <= n,
        breaks_at(d, i, before, n),
    ensures
        breaks_at(c, i, before, n),
    decreases n - i,
{
    if i < n {
        let (kind, end) = token_at(d, i, before);
        let next = before_next(d, i, kind, before);
        lemma_breaks_below(d, end, next, n);
        law_token_before_stop(c, d, n, i, before);
        lemma_breaks_transfer(c, d, n, end, next);
    }
}

/// Where a token begins before a quote or white space, one begins whatever
/// stands behind that.
pub proof fn law_break_before_stop(c: Seq<char>, d: Seq<char>, n: int)
    requires
        same_up_to_stop(c, d, n),
        breaks_at(d, 0, Before::Start, n),
    ensures
        breaks_at(c, 0, Before::Start, n),
{
    lemma_breaks_transfer(c, d, n, 0, Before::Start);
}

/// The token that begins at `p`, and what stands before it.
pub(crate) proof fn lemma_reach(c: Seq<char>, i: int, before: Before, p: int) -> (r: (int, Before))
    requires
        0 <= i <= p <= c.len(),
        breaks_at(c, i, before, p),
    ensures
        0 <= r.0 <= lexemes_from(c, i, before).len(),
        lexemes_from(c, i, before).skip(r.0) == lexemes_from(c, p, r.1),
    decreases c.len() - i,
{
    let all = lexemes_from(c, i, before);
    if i < p {
        let (kind, end) = token_at(c, i, before);
        let next = before_next(c, i, kind, before);
        lemma_breaks_below(c, end, next, p);
        let (k, b) = lemma_reach(c, end, next, p);
        let rest = lexemes_from(c, end, next);
        assert(all.skip(k + 1) =~= rest.skip(k));
        (k + 1, b)
    } else {
        assert(all.skip(0) =~= all);
        (0, before)
    }
}

/// Each token begins where a token begins, and is the one that is found there.
pub(crate) proof fn lemma_lexeme(c: Seq<char>, i: int, before: Before, k: int) -> (b: Before)
    requires
        0 <= i <= c.len(),
        0 <= k < lexemes_from(c, i, before).len(),
    ensures
        ({
            let t = lexemes_from(c, i, before)[k];
            &&& i <= t.start < t.end <= c.len()
            &&& breaks_at(c, i, before, t.start)
            &&& token_at(c, t.start, b) == (t.kind, t.end)
        }),
    decreases c.len() - i,
{
    let (kind, end) = token_at(c, i, before);
    law_token_nonempty(c, i, before);
    if k == 0 {
        before
    } else {
        let next = before_next(c, i, kind, before);
        let rest = lexemes_from(c, end, next);
        assert(lexemes_from(c, i, before)[k] == rest[k - 1]);
        lemma_lexeme(c, end, next, k - 1)
    }
}

/// Whether a text ends outside of literals, quoted identifiers and comments: a
/// quote behind it opens a literal.
pub open spec fn ends_outside(a: Seq<char>) -> bool {
    breaks_at(a.push('\''), 0, Before::Start, a.len() as int)
}

/// A character with which neither a literal in quotes or dollars, nor a quoted
/// identifier, nor a comment begins.
pub open spec fn is_plain(x: char) -> bool {
    x != '\'' && x != '"' && x != '$' && x != '-' && x != '/'
}

proof fn lemma_plain_breaks(a: Seq<char>, i: int, before: Before)
    requires
        forall|k: int| 0 <= k < a.len() ==> is_plain(#[trigger] a[k]),
        0 <= i <= a.len(),
    ensures
        breaks_at(a.push('\''), i, before, a.len() as int),
    decreases a.len() - i,
{
    let n = a.len() as int;
    let d = a.push('\'');
    if i < n {
        assert(is_plain(a[i]));
        assert(d[i] == a[i]);
        if match_at(d, seq!['-', '-'], i) {
            assert(d.subrange(i, i + 2)[0] == d[i]);
        }
        if match_at(d, seq!['/', '*'], i) {
            assert(d.subrange(i, i + 2)[0] == d[i]);
        }
        lemma_run_stops(d, n, i, |x: char| is_space(x));
        lemma_run_stops(d, n, i + 1, |x: char| is_word_char(x));
        if digit_at(d, i) {
            assert(same_up_to_stop(d, d, n));
            lemma_same_number(d, d, n, i);
        }
        law_token_nonempty(d, i, before);
        let (kind, end) = token_at(d, i, before);
        lemma_plain_breaks(a, end, before_next(d, i, kind, before));
    }
}

/// A text of plain characters ends outside of literals and comments.
pub proof fn law_plain_text_ends_outside(a: Seq<char>)
    requires
        forall|k: int| 0 <= k < a.len() ==> is_plain(#[trigger] a[k]),
    ensures
        ends_outside(a),
{
    lemma_plain_breaks(a, 0, Before::Start);
}

// ── A literal ───────────────────────────────────────────────────────

/// Whether every quote in a text is doubled, as it is between the quotes of a
/// literal.
pub open spec fn quotes_doubled(s: Seq<char>) -> bool
    decreases s.len(),
{
    if s.len() == 0 {
        true
    } else if s[0] != '\'' {
        quotes_doubled(s.skip(1))
    } else {
        s.len() >= 2 && s[1] == '\'' && quotes_doubled(s.skip(2))
    }
}

/// The text with a literal between two others.
pub open spec fn with_literal(a: Seq<char>, s: Seq<char>, b: Seq<char>) -> Seq<char> {
    a + seq!['\''] + s + seq!['\''] + b
}

proof fn lemma_no_quotes_doubled(s: Seq<char>)
    requires
        forall|k: int| 0 <= k < s.len() ==> #[trigger] s[k] != '\'',
    ensures
        quotes_doubled(s),
    decreases s.len(),
{
    if s.len() > 0 {
        assert forall|k: int| 0 <= k < s.skip(1).len() implies #[trigger] s.skip(1)[k] != '\'' by {
            assert(s.skip(1)[k] == s[k + 1]);
        }
        lemma_no_quotes_doubled(s.skip(1));
    }
}

/// A text without quotes has no quote that is not doubled.
pub proof fn law_text_without_quotes(s: Seq<char>)
    requires
        forall|k: int| 0 <= k < s.len() ==> #[trigger] s[k] != '\'',
    ensures
        quotes_doubled(s),
{
    lemma_no_quotes_doubled(s);
}

proof fn lemma_literal_closes(c: Seq<char>, j: int, s: Seq<char>)
    requires
        0 <= j,
        j + s.len() < c.len(),
        c.subrange(j, j + s.len()) == s,
        quotes_doubled(s),
        c[j + s.len()] == '\'',
        j + s.len() + 1 < c.len() ==> c[j + s.len() + 1] != '\'',
    ensures
        quoted_end(c, j, '\'') == j + s.len() + 1,
    decreases s.len(),
{
    if s.len() > 0 {
        assert(s[0] == c[j]);
        if s[0] != '\'' {
            assert(c.subrange(j + 1, j + s.len()) =~= s.skip(1));
            lemma_literal_closes(c, j + 1, s.skip(1));
        } else {
            assert(s[1] == c[j + 1]);
            assert(c.subrange(j + 2, j + s.len()) =~= s.skip(2));
            lemma_literal_closes(c, j + 2, s.skip(2));
        }
    }
}

/// Behind a text that ends outside of literals, a literal is one token: from
/// its opening to its closing quote.
pub proof fn law_literal_is_a_token(a: Seq<char>, s: Seq<char>, b: Seq<char>, before: Before)
    requires
        quotes_doubled(s),
        b.len() > 0 ==> b[0] != '\'',
    ensures
        token_at(with_literal(a, s, b), a.len() as int, before) == (
            TokenKind::StringLiteral,
            a.len() as int + s.len() + 2,
        ),
        with_literal(a, s, b).skip((a.len() + s.len() + 2) as int) == b,
        same_up_to_stop(with_literal(a, s, b), a.push('\''), a.len() as int),
{
    let c = with_literal(a, s, b);
    let n = a.len() as int;
    assert(c.skip(n + s.len() + 2) =~= b);
    assert(c.subrange(n + 1, n + 1 + s.len()) =~= s);
    assert(c[n] == '\'');
    assert(c[n + 1 + s.len()] == '\'');
    if b.len() > 0 {
        assert(c[n + s.len() + 2] == b[0]);
    }
    lemma_literal_closes(c, n + 1, s);
    if match_at(c, seq!['-', '-'], n) {
        assert(c.subrange(n, n + 2)[0] == c[n]);
    }
    if match_at(c, seq!['/', '*'], n) {
        assert(c.subrange(n, n + 2)[0] == c[n]);
    }
}

} // verus!
