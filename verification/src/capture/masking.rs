//! Masking of literal values in SQL text.

use crate::sql::context::{
    breaks_at, ends_outside, is_plain, law_literal_is_a_token, law_plain_text_ends_outside, law_text_without_quotes,
    law_token_before_stop, law_token_looks_ahead, lemma_breaks_below, quotes_doubled, same_up_to_stop, with_literal,
};
use crate::sql::lex::{
    before_next, law_token_nonempty, lexeme_text, lexemes, lexemes_from, token_at, tokenize, Before, Lexeme,
    TokenKind,
};
use vstd::prelude::*;

verus! {

/// Whether a token is a literal whose value masking hides.
pub open spec fn is_literal(kind: TokenKind) -> bool {
    kind == TokenKind::StringLiteral || kind == TokenKind::DollarString || kind == TokenKind::Number
}

/// What masking puts in the place of a token: `$S` for a string, `$N` for a
/// number, the token itself for any other.
pub open spec fn masked_token(c: Seq<char>, t: Lexeme) -> Seq<char> {
    match t.kind {
        TokenKind::StringLiteral | TokenKind::DollarString => seq!['$', 'S'],
        TokenKind::Number => seq!['$', 'N'],
        _ => lexeme_text(c, t),
    }
}

/// The tokens masked, one behind the other.
pub open spec fn masked_tokens(c: Seq<char>, toks: Seq<Lexeme>) -> Seq<char>
    decreases toks.len(),
{
    if toks.len() == 0 {
        Seq::empty()
    } else {
        masked_tokens(c, toks.drop_last()) + masked_token(c, toks.last())
    }
}

/// A text with its literals masked.
pub open spec fn masked(c: Seq<char>) -> Seq<char> {
    masked_tokens(c, lexemes(c))
}

/// Mask SQL literal values to prevent PII leakage.
///
/// Replaces single-quoted strings and dollar-quoted strings (`$$...$$` and
/// `$tag$...$tag$`) with `$S` and numeric literals with `$N`. A doubled quote
/// inside a string does not end it. Digits inside identifiers stay.
pub fn mask_sql_literals(sql: &str) -> (r: String)
    ensures
        r@ == masked(sql@),
{
    let toks = tokenize(sql);
    let mut out = String::new();
    let ghost ls = lexemes(sql@);
    for i in 0..toks.len()
        invariant
            ls == lexemes(sql@),
            toks@.len() == ls.len(),
            forall|k: int| 0 <= k < toks@.len() ==> crate::sql::lex::token_is(sql@, #[trigger] toks@[k], ls[k]),
            out@ == masked_tokens(sql@, ls.take(i as int)),
    {
        proof {
            assert(crate::sql::lex::token_is(sql@, toks@[i as int], ls[i as int]));
            assert(ls.take(i + 1).drop_last() =~= ls.take(i as int));
            assert(ls.take(i + 1).last() == ls[i as int]);
        }
        match toks[i].kind {
            TokenKind::StringLiteral | TokenKind::DollarString => {
                let ghost before = out@;
                out.push('$');
                out.push('S');
                proof {
                    assert(out@ =~= before + seq!['$', 'S']);
                }
            },
            TokenKind::Number => {
                let ghost before = out@;
                out.push('$');
                out.push('N');
                proof {
                    assert(out@ =~= before + seq!['$', 'N']);
                }
            },
            _ => {
                out.push_str(toks[i].text);
            },
        }
    }
    proof {
        assert(ls.take(ls.len() as int) =~= ls);
    }
    out
}

// ── Laws ────────────────────────────────────────────────────────────

/// Whether two texts have the same tokens but for the values of literals.
pub open spec fn same_but_literals(c: Seq<char>, s: Seq<Lexeme>, d: Seq<char>, t: Seq<Lexeme>) -> bool {
    &&& s.len() == t.len()
    &&& forall|k: int| 0 <= k < s.len() ==> (#[trigger] s[k]).kind == (#[trigger] t[k]).kind
    &&& forall|k: int|
        0 <= k < s.len() && !is_literal((#[trigger] s[k]).kind) ==> lexeme_text(c, s[k]) == lexeme_text(
            d,
            t[k],
        )
}

proof fn lemma_masked_same(c: Seq<char>, s: Seq<Lexeme>, d: Seq<char>, t: Seq<Lexeme>)
    requires
        same_but_literals(c, s, d, t),
    ensures
        masked_tokens(c, s) == masked_tokens(d, t),
    decreases s.len(),
{
    if s.len() > 0 {
        assert(s[s.len() - 1].kind == t[t.len() - 1].kind);
        assert(same_but_literals(c, s.drop_last(), d, t.drop_last())) by {
            assert forall|k: int| 0 <= k < s.drop_last().len() && !is_literal(
                (#[trigger] s.drop_last()[k]).kind,
            ) implies lexeme_text(c, s.drop_last()[k]) == lexeme_text(d, t.drop_last()[k]) by {
                assert(s.drop_last()[k] == s[k]);
            }
        }
        lemma_masked_same(c, s.drop_last(), d, t.drop_last());
    }
}

/// A masked text tells nothing of the literals: two texts that differ only in
/// the values of their literals mask to the same text.
pub proof fn law_mask_hides_literals(c: Seq<char>, d: Seq<char>)
    requires
        same_but_literals(c, lexemes(c), d, lexemes(d)),
    ensures
        masked(c) == masked(d),
{
    lemma_masked_same(c, lexemes(c), d, lexemes(d));
}

proof fn lemma_masked_first(c: Seq<char>, t: Lexeme, rest: Seq<Lexeme>)
    ensures
        masked_tokens(c, seq![t] + rest) == masked_token(c, t) + masked_tokens(c, rest),
    decreases rest.len(),
{
    let all = seq![t] + rest;
    if rest.len() == 0 {
        assert(all.drop_last() =~= Seq::<Lexeme>::empty());
        assert(masked_tokens(c, all.drop_last()) =~= Seq::<char>::empty());
        assert(masked_tokens(c, rest) =~= Seq::<char>::empty());
        assert(masked_tokens(c, all) =~= masked_token(c, t) + masked_tokens(c, rest));
    } else {
        assert(all.drop_last() =~= seq![t] + rest.drop_last());
        lemma_masked_first(c, t, rest.drop_last());
        assert(masked_tokens(c, all) =~= masked_token(c, t) + masked_tokens(c, rest));
    }
}

/// The tokens from position `i` on, masked.
pub open spec fn masked_from(c: Seq<char>, i: int, before: Before) -> Seq<char> {
    masked_tokens(c, lexemes_from(c, i, before))
}

pub(crate) proof fn lemma_masked_step(c: Seq<char>, i: int, before: Before)
    requires
        0 <= i < c.len(),
    ensures
        ({
            let (kind, end) = token_at(c, i, before);
            masked_from(c, i, before) == masked_token(c, Lexeme { kind, start: i, end }) + masked_from(
                c,
                end,
                before_next(c, i, kind, before),
            )
        }),
{
    law_token_nonempty(c, i, before);
    let (kind, end) = token_at(c, i, before);
    lemma_masked_first(
        c,
        Lexeme { kind, start: i, end },
        lexemes_from(c, end, before_next(c, i, kind, before)),
    );
}

pub(crate) proof fn lemma_masked_behind(c: Seq<char>, p: int, i: int, before: Before)
    requires
        0 <= p <= c.len(),
        0 <= i <= c.skip(p).len(),
    ensures
        masked_from(c, p + i, before) == masked_from(c.skip(p), i, before),
    decreases c.skip(p).len() - i,
{
    let b = c.skip(p);
    if i < b.len() {
        law_token_looks_ahead(c, p, i, before);
        law_token_nonempty(b, i, before);
        lemma_masked_step(c, p + i, before);
        lemma_masked_step(b, i, before);
        let (kind, end) = token_at(b, i, before);
        assert(c.subrange(p + i, p + end) =~= b.subrange(i, end));
        lemma_masked_behind(c, p, end, before_next(b, i, kind, before));
    }
}

proof fn lemma_masked_before(c: Seq<char>, d: Seq<char>, q: Seq<char>, n: int, i: int, before: Before)
    requires
        same_up_to_stop(c, q, n),
        same_up_to_stop(d, q, n),
        q.len() == n + 1,
        0 <= i <= n,
        breaks_at(q, i, before, n),
        forall|x: Before| masked_from(c, n, x) == #[trigger] masked_from(d, n, x),
    ensures
        masked_from(c, i, before) == masked_from(d, i, before),
    decreases n - i,
{
    if i < n {
        let (kind, end) = token_at(q, i, before);
        lemma_breaks_below(q, end, before_next(q, i, kind, before), n);
        law_token_before_stop(c, q, n, i, before);
        law_token_before_stop(d, q, n, i, before);
        lemma_masked_step(c, i, before);
        lemma_masked_step(d, i, before);
        assert(c.subrange(i, end) =~= d.subrange(i, end)) by {
            assert forall|k: int| i <= k < end implies c[k] == d[k] by {
                assert(c[k] == q[k]);
            }
        }
        lemma_masked_before(c, d, q, n, end, before_next(q, i, kind, before));
    }
}

proof fn lemma_masked_literal(a: Seq<char>, s: Seq<char>, b: Seq<char>, before: Before)
    requires
        quotes_doubled(s),
        b.len() > 0 ==> b[0] != '\'',
    ensures
        masked_from(with_literal(a, s, b), a.len() as int, before) == seq!['$', 'S'] + masked_from(
            b,
            0,
            Before::Other,
        ),
{
    law_literal_is_a_token(a, s, b, before);
    let c = with_literal(a, s, b);
    lemma_masked_step(c, a.len() as int, before);
    lemma_masked_behind(c, (a.len() + s.len() + 2) as int, 0, Before::Other);
}

/// The value of a literal does not show: wherever a literal can begin, a text
/// masks to the same whichever literal stands there.
pub proof fn law_mask_hides_a_literal(a: Seq<char>, s: Seq<char>, t: Seq<char>, b: Seq<char>)
    requires
        ends_outside(a),
        quotes_doubled(s),
        quotes_doubled(t),
        b.len() > 0 ==> b[0] != '\'',
    ensures
        masked(with_literal(a, s, b)) == masked(with_literal(a, t, b)),
{
    let c = with_literal(a, s, b);
    let d = with_literal(a, t, b);
    let n = a.len() as int;
    assert forall|x: Before| masked_from(c, n, x) == #[trigger] masked_from(d, n, x) by {
        lemma_masked_literal(a, s, b, x);
        lemma_masked_literal(a, t, b, x);
    }
    law_literal_is_a_token(a, s, b, Before::Start);
    law_literal_is_a_token(a, t, b, Before::Start);
    lemma_masked_before(c, d, a.push('\''), n, 0, Before::Start);
}

/// In a text whose characters before a literal open neither another literal nor
/// a quoted identifier nor a comment, the value of that literal does not show.
pub proof fn law_mask_hides_a_value(a: Seq<char>, s: Seq<char>, t: Seq<char>, b: Seq<char>)
    requires
        forall|k: int| 0 <= k < a.len() ==> is_plain(#[trigger] a[k]),
        forall|k: int| 0 <= k < s.len() ==> #[trigger] s[k] != '\'',
        forall|k: int| 0 <= k < t.len() ==> #[trigger] t[k] != '\'',
        b.len() > 0 ==> b[0] != '\'',
    ensures
        masked(with_literal(a, s, b)) == masked(with_literal(a, t, b)),
{
    law_plain_text_ends_outside(a);
    law_text_without_quotes(s);
    law_text_without_quotes(t);
    law_mask_hides_a_literal(a, s, t, b);
}

pub(crate) proof fn lemma_concat_push(c: Seq<char>, s: Seq<Lexeme>, t: Lexeme)
    ensures
        crate::sql::lex::concat_lexemes(c, s.push(t)) == crate::sql::lex::concat_lexemes(c, s)
            + lexeme_text(c, t),
    decreases s.len(),
{
    let p = s.push(t);
    if s.len() == 0 {
        assert(p.skip(1) =~= Seq::<Lexeme>::empty());
        assert(lexeme_text(c, t) + Seq::<char>::empty() =~= Seq::<char>::empty() + lexeme_text(c, t));
        assert(crate::sql::lex::concat_lexemes(c, p.skip(1)) =~= Seq::<char>::empty());
        assert(crate::sql::lex::concat_lexemes(c, s) =~= Seq::<char>::empty());
    } else {
        assert(p.skip(1) =~= s.skip(1).push(t));
        lemma_concat_push(c, s.skip(1), t);
        assert(crate::sql::lex::concat_lexemes(c, p) =~= crate::sql::lex::concat_lexemes(c, s)
            + lexeme_text(c, t));
    }
}

proof fn lemma_masked_without_literals(c: Seq<char>, s: Seq<Lexeme>)
    requires
        forall|k: int| 0 <= k < s.len() ==> !is_literal((#[trigger] s[k]).kind),
    ensures
        masked_tokens(c, s) == crate::sql::lex::concat_lexemes(c, s),
    decreases s.len(),
{
    if s.len() > 0 {
        let p = s.drop_last();
        assert forall|k: int| 0 <= k < p.len() implies !is_literal((#[trigger] p[k]).kind) by {
            assert(p[k] == s[k]);
        }
        lemma_masked_without_literals(c, p);
        assert(p.push(s.last()) =~= s);
        lemma_concat_push(c, p, s.last());
        assert(!is_literal(s[s.len() - 1].kind));
    }
}

/// A text without literals is not changed by masking.
pub proof fn law_mask_keeps_other_text(c: Seq<char>)
    requires
        forall|k: int| 0 <= k < lexemes(c).len() ==> !is_literal((#[trigger] lexemes(c)[k]).kind),
    ensures
        masked(c) == c,
{
    lemma_masked_without_literals(c, lexemes(c));
    crate::sql::lex::law_lexemes_lossless(c);
}

} // verus!
