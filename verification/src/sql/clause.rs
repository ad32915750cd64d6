//! Places in a statement: patterns outside literals and comments, the end of a
//! statement, and words put in between tokens.

use crate::sql::context::{breaks_at, law_break_before_stop, lemma_lexeme, lemma_reach, same_up_to_stop};
use crate::sql::lex::{
    before_next, law_lexemes_adjacent, lexeme_text, lexemes, lexemes_from, run_end, token_at, token_is,
    tokenize, Before, Lexeme, Token, TokenKind,
};
use crate::sql::words::{holds_word, is_separator, separates, tokens_of, word_at};
use crate::text::{
    ascii_uppercase, from_chars, is_match_at, is_space, is_word_char, match_at, str_eq, to_ascii_uppercase, to_chars,
};
use vstd::prelude::*;

verus! {

// ── Patterns ────────────────────────────────────────────────────────

/// Whether position `p` of a text lies in a token of a kind.
pub open spec fn lies_in(c: Seq<char>, p: int, kind: TokenKind) -> bool {
    exists|k: int|
        0 <= k < lexemes(c).len() && (#[trigger] lexemes(c)[k]).start <= p < lexemes(c)[k].end && lexemes(c)[k].kind
            == kind
}

/// The first position from `from` on, in a token of a kind, at which the pattern
/// stands in whatever case.
pub open spec fn find_in(c: Seq<char>, pat: Seq<char>, kind: TokenKind, from: int) -> Option<int>
    decreases c.len() + 1 - from,
{
    if from < 0 || from + pat.len() > c.len() {
        None
    } else if match_at(ascii_uppercase(c), pat, from) && lies_in(c, from, kind) {
        Some(from)
    } else {
        find_in(c, pat, kind, from + 1)
    }
}

pub(crate) proof fn lemma_find_in(c: Seq<char>, pat: Seq<char>, kind: TokenKind, from: int)
    requires
        0 <= from,
    ensures
        find_in(c, pat, kind, from) matches Some(p) ==> from <= p && match_at(ascii_uppercase(c), pat, p) && lies_in(
            c,
            p,
            kind,
        ),
    decreases c.len() + 1 - from,
{
    if from + pat.len() <= c.len() && !(match_at(ascii_uppercase(c), pat, from) && lies_in(c, from, kind)) {
        lemma_find_in(c, pat, kind, from + 1);
    }
}

/// The position behind each token.
fn token_ends(toks: &Vec<Token>, c: &[char]) -> (r: Vec<usize>)
    requires
        tokens_of(c@, toks@),
    ensures
        r@.len() == toks@.len(),
        forall|k: int| 0 <= k < r@.len() ==> #[trigger] r@[k] == lexemes(c@)[k].end,
{
    let limit: usize = c.len();
    let ghost ls = lexemes(c@);
    let mut r: Vec<usize> = Vec::new();
    let mut at: usize = 0;
    proof {
        law_lexemes_adjacent(c@);
    }
    for k in 0..toks.len()
        invariant
            tokens_of(c@, toks@),
            ls == lexemes(c@),
            limit == c@.len(),
            r@.len() == k,
            forall|j: int| 0 <= j < k ==> #[trigger] r@[j] == ls[j].end,
            at == (if k == 0 { 0 } else { ls[k - 1].end }),
            ls.len() > 0 ==> ls[0].start == 0,
            forall|j: int| 0 <= j < ls.len() ==> 0 <= (#[trigger] ls[j]).start < ls[j].end && ls[j].end <= limit,
            forall|i: int, j: int|
                0 <= i && j == i + 1 && j < ls.len() ==> (#[trigger] ls[i]).end == (#[trigger] ls[j]).start,
    {
        let text = to_chars(toks[k].text);
        let n: usize = text.len();
        proof {
            assert(token_is(c@, toks@[k as int], ls[k as int]));
            if k > 0 {
                assert(ls[k - 1].end == ls[k as int].start);
            }
            assert(n == ls[k as int].end - ls[k as int].start);
        }
        at = at + n;
        r.push(at);
    }
    r
}

proof fn lemma_lexemes_apart(c: Seq<char>, j: int, k: int)
    requires
        0 <= j < k < lexemes(c).len(),
    ensures
        lexemes(c)[j].end <= lexemes(c)[k].start,
    decreases k - j,
{
    law_lexemes_adjacent(c);
    if j + 1 < k {
        lemma_lexemes_apart(c, j, k - 1);
        assert(lexemes(c)[k - 1].start < lexemes(c)[k - 1].end);
    }
    assert(lexemes(c)[k - 1].end == lexemes(c)[k].start);
}

/// Whether each position of a text lies in a token of a kind.
fn positions_in(c: &[char], kind: TokenKind) -> (r: Vec<bool>)
    ensures
        r@.len() == c@.len(),
        forall|p: int| 0 <= p < r@.len() ==> #[trigger] r@[p] == lies_in(c@, p, kind),
{
    let text = from_chars(c);
    let toks = tokenize(text.as_str());
    let ends = token_ends(&toks, c);
    let ghost ls = lexemes(c@);
    let mut r: Vec<bool> = Vec::new();
    proof {
        law_lexemes_adjacent(c@);
    }
    for k in 0..toks.len()
        invariant
            tokens_of(c@, toks@),
            ls == lexemes(c@),
            ends@.len() == toks@.len(),
            forall|j: int| 0 <= j < ends@.len() ==> #[trigger] ends@[j] == ls[j].end,
            ls.len() > 0 ==> ls[0].start == 0,
            forall|j: int| 0 <= j < ls.len() ==> 0 <= (#[trigger] ls[j]).start < ls[j].end && ls[j].end <= c@.len(),
            forall|i: int, j: int|
                0 <= i && j == i + 1 && j < ls.len() ==> (#[trigger] ls[i]).end == (#[trigger] ls[j]).start,
            r@.len() == (if k == 0 { 0 } else { ls[k - 1].end }),
            forall|p: int| 0 <= p < r@.len() ==> #[trigger] r@[p] == lies_in(c@, p, kind),
    {
        let same = toks[k].kind == kind;
        let end: usize = ends[k];
        proof {
            assert(token_is(c@, toks@[k as int], ls[k as int]));
            if k > 0 {
                assert(ls[k - 1].end == ls[k as int].start);
            }
        }
        while r.len() < end
            invariant
                ls == lexemes(c@),
                k < ls.len(),
                end == ls[k as int].end,
                same == (ls[k as int].kind == kind),
                ls[k as int].start <= r@.len() <= end,
                forall|p: int| 0 <= p < r@.len() ==> #[trigger] r@[p] == lies_in(c@, p, kind),
            decreases end - r@.len(),
        {
            proof {
                let p = r@.len() as int;
                assert(lies_in(c@, p, kind) == same) by {
                    if same {
                        assert(ls[k as int].start <= p < ls[k as int].end);
                    }
                    if lies_in(c@, p, kind) {
                        let j = choose|j: int|
                            0 <= j < ls.len() && (#[trigger] ls[j]).start <= p < ls[j].end && ls[j].kind == kind;
                        if j < k {
                            lemma_lexemes_apart(c@, j, k as int);
                        } else if k < j {
                            lemma_lexemes_apart(c@, k as int, j);
                        }
                    }
                }
            }
            r.push(same);
        }
    }
    proof {
        if ls.len() > 0 {
            assert(ls.last() == ls[ls.len() - 1]);
        }
    }
    r
}

/// The first position, in a token of a kind, at which the pattern stands.
pub fn find_pattern_in(c: &[char], pat: &str, kind: TokenKind) -> (r: Option<usize>)
    ensures
        match r {
            Some(p) => find_in(c@, pat@, kind, 0) == Some(p as int) && p + pat@.len() <= c@.len(),
            None => find_in(c@, pat@, kind, 0) is None,
        },
{
    let inside = positions_in(c, kind);
    let caps = to_ascii_uppercase(c);
    let pattern = to_chars(pat);
    let n: usize = c.len();
    let mut p: usize = 0;
    while p < n
        invariant
            p <= n,
            n == c@.len(),
            inside@.len() == n,
            caps@ == ascii_uppercase(c@),
            pattern@ == pat@,
            forall|i: int| 0 <= i < n ==> #[trigger] inside@[i] == lies_in(c@, i, kind),
            find_in(c@, pat@, kind, 0) == find_in(c@, pat@, kind, p as int),
        decreases n - p,
    {
        if is_match_at(&caps, &pattern, p) && inside[p] {
            return Some(p);
        }
        p = p + 1;
    }
    proof {
        law_lexemes_adjacent(c@);
        assert(!lies_in(c@, n as int, kind));
        assert(find_in(c@, pat@, kind, n + 1) is None);
    }
    None
}

// ── The end of a statement ──────────────────────────────────────────

/// Whether token `k` can stand behind a statement: white space, a comment or a
/// semicolon.
pub open spec fn trails(c: Seq<char>, k: int) -> bool {
    separates(lexemes(c)[k].kind) || (lexemes(c)[k].kind == TokenKind::Punct && lexeme_text(c, lexemes(c)[k]) == ";"@)
}

/// The position behind the last of the first `k` tokens that belongs to a
/// statement.
pub open spec fn end_before(c: Seq<char>, k: int) -> int
    decreases k,
{
    if k <= 0 {
        0
    } else if trails(c, k - 1) {
        end_before(c, k - 1)
    } else {
        lexemes(c)[k - 1].end
    }
}

/// The position behind the last token of a statement.
pub open spec fn text_end(c: Seq<char>) -> int {
    end_before(c, lexemes(c).len() as int)
}

pub(crate) proof fn lemma_text_end(c: Seq<char>, k: int)
    requires
        k <= lexemes(c).len(),
    ensures
        0 <= end_before(c, k) <= c.len(),
    decreases k,
{
    law_lexemes_adjacent(c);
    if k > 0 && trails(c, k - 1) {
        lemma_text_end(c, k - 1);
    }
}

/// The position behind the last token of a statement.
pub fn find_text_end(c: &[char]) -> (r: usize)
    ensures
        r == text_end(c@),
        r <= c@.len(),
{
    let text = from_chars(c);
    let toks = tokenize(text.as_str());
    let ends = token_ends(&toks, c);
    proof {
        lemma_text_end(c@, lexemes(c@).len() as int);
    }
    let mut k: usize = toks.len();
    while k > 0
        invariant
            tokens_of(c@, toks@),
            k <= toks@.len(),
            ends@.len() == toks@.len(),
            forall|j: int| 0 <= j < ends@.len() ==> #[trigger] ends@[j] == lexemes(c@)[j].end,
            end_before(c@, k as int) == text_end(c@),
            0 <= text_end(c@) <= c@.len(),
        decreases k,
    {
        proof {
            assert(token_is(c@, toks@[k - 1], lexemes(c@)[k - 1]));
        }
        if !is_separator(toks[k - 1].kind) && !(toks[k - 1].kind == TokenKind::Punct && str_eq(toks[k - 1].text, ";")) {
            return ends[k - 1];
        }
        k = k - 1;
    }
    0
}

/// Whether a text ends outside of literals, quoted identifiers and comments:
/// white space behind it is a token of its own.
pub open spec fn is_closed(b: Seq<char>) -> bool {
    lexemes(b.push(' ')).last().start == b.len()
}

pub fn ends_closed(b: &[char]) -> (r: bool)
    ensures
        r == is_closed(b@),
{
    let mut text = from_chars(b);
    text.push(' ');
    let toks = tokenize(text.as_str());
    let n: usize = toks.len();
    let ghost d = b@.push(' ');
    proof {
        law_lexemes_adjacent(d);
        assert(text@ == d);
    }
    if n == 0 {
        return false;
    }
    proof {
        assert(token_is(d, toks@[n - 1], lexemes(d)[n - 1]));
        assert(lexemes(d).last() == lexemes(d)[n - 1]);
    }
    to_chars(toks[n - 1].text).len() == 1
}

// ── A word put in ───────────────────────────────────────────────────

proof fn lemma_run_all(c: Seq<char>, i: int, p: spec_fn(char) -> bool, k: int)
    requires
        0 <= i <= k < run_end(c, i, p),
    ensures
        k < c.len(),
        p(c[k]),
    decreases k - i,
{
    if i < k {
        lemma_run_all(c, i + 1, p, k);
    }
}

pub(crate) proof fn lemma_run_is(c: Seq<char>, i: int, p: spec_fn(char) -> bool, r: int)
    requires
        0 <= i <= r <= c.len(),
        forall|k: int| i <= k < r ==> p(#[trigger] c[k]),
        r == c.len() || !p(c[r]),
    ensures
        run_end(c, i, p) == r,
    decreases r - i,
{
    if i < r {
        assert(p(c[i]));
        lemma_run_is(c, i + 1, p, r);
    }
}

/// Whether the word `w`, made of letters in upper case, stands at `r` with white
/// space behind it.
pub open spec fn word_stands(c: Seq<char>, r: int, w: Seq<char>) -> bool {
    &&& 0 <= r
    &&& r + w.len() < c.len()
    &&& w.len() > 0
    &&& forall|k: int| 0 <= k < w.len() ==> 'A' <= #[trigger] w[k] <= 'Z' && c[r + k] == w[k]
    &&& c[r + w.len()] == ' '
}

/// A word behind a space, or more white space, that begins outside of literals and comments is a
/// word of the text.
pub proof fn law_word_between_tokens(c: Seq<char>, n: int, r: int, w: Seq<char>)
    requires
        0 <= n < r,
        breaks_at(c, 0, Before::Start, n),
        forall|k: int| n <= k < r ==> is_space(#[trigger] c[k]),
        c[r - 1] == ' ',
        word_stands(c, r, w),
    ensures
        holds_word(c, w),
{
    let (k, before) = lemma_reach(c, 0, Before::Start, n);
    let all = lexemes(c);
    let e = r + w.len();
    assert(is_space(c[n]));
    assert(c[r] == w[0]);
    if match_at(c, seq!['-', '-'], n) {
        assert(c.subrange(n, n + 2)[0] == c[n]);
    }
    if match_at(c, seq!['/', '*'], n) {
        assert(c.subrange(n, n + 2)[0] == c[n]);
    }
    lemma_run_is(c, n, |x: char| is_space(x), r);
    assert(token_at(c, n, before) == (TokenKind::Whitespace, r));
    if match_at(c, seq!['-', '-'], r) {
        assert(c.subrange(r, r + 2)[0] == c[r]);
    }
    if match_at(c, seq!['/', '*'], r) {
        assert(c.subrange(r, r + 2)[0] == c[r]);
    }
    assert forall|j: int| r + 1 <= j < e implies is_word_char(#[trigger] c[j]) by {
        assert(c[r + (j - r)] == w[j - r]);
    }
    lemma_run_is(c, r + 1, |x: char| is_word_char(x), e);
    let ws = Lexeme { kind: TokenKind::Whitespace, start: n, end: r };
    let word = Lexeme { kind: TokenKind::Ident, start: r, end: e };
    assert(token_at(c, r, before) == (TokenKind::Ident, e));
    let tail = all.skip(k);
    assert(tail == seq![ws] + lexemes_from(c, r, before));
    assert(lexemes_from(c, r, before) == seq![word] + lexemes_from(c, e, before_next(c, r, TokenKind::Ident, before)));
    assert(tail[0] == ws && tail[1] == word);
    assert(all[k] == ws && all[k + 1] == word);
    assert(ascii_uppercase(c.subrange(r, e)) =~= w) by {
        assert forall|j: int| 0 <= j < w.len() implies ascii_uppercase(c.subrange(r, e))[j] == #[trigger] w[j] by {
            assert(c[r + j] == w[j]);
        }
    }
    assert(c.subrange(n, r).last() == c[r - 1]);
    assert(word_at(c, k + 1, w));
}

/// A text with another put in at `at`.
pub open spec fn inserted(s: Seq<char>, at: int, t: Seq<char>) -> Seq<char> {
    s.take(at) + t + s.skip(at)
}

/// A word put in where white space stands is a word of the text.
pub proof fn law_word_in_white_space(s: Seq<char>, at: int, w: Seq<char>, t: Seq<char>)
    requires
        lies_in(s, at, TokenKind::Whitespace),
        s[at] == ' ',
        t.len() > 0,
        t[0] == ' ',
        word_stands(t, 1, w),
    ensures
        holds_word(inserted(s, at, t), w),
{
    let c = inserted(s, at, t);
    let k = choose|k: int|
        0 <= k < lexemes(s).len() && (#[trigger] lexemes(s)[k]).start <= at < lexemes(s)[k].end && lexemes(s)[k].kind
            == TokenKind::Whitespace;
    let b = lemma_lexeme(s, 0, Before::Start, k);
    let n = lexemes(s)[k].start;
    assert forall|j: int| n <= j <= at implies is_space(#[trigger] s[j]) by {
        lemma_run_all(s, n, |x: char| is_space(x), j);
    }
    assert forall|j: int| 0 <= j <= at implies c[j] == s[j] by {
    }
    assert(same_up_to_stop(c, s, n)) by {
        assert(is_space(s[n]));
    }
    law_break_before_stop(c, s, n);
    assert(c.subrange(at, at + t.len()) =~= t);
    lemma_word_put_in(c, n, at, w, t);
}

proof fn lemma_word_put_in(c: Seq<char>, n: int, at: int, w: Seq<char>, t: Seq<char>)
    requires
        0 <= n <= at,
        at + t.len() <= c.len(),
        c.subrange(at, at + t.len()) == t,
        breaks_at(c, 0, Before::Start, n),
        forall|j: int| n <= j < at ==> is_space(#[trigger] c[j]),
        t.len() > 0,
        t[0] == ' ',
        word_stands(t, 1, w),
    ensures
        holds_word(c, w),
{
    assert forall|j: int| 0 <= j < t.len() implies c[at + j] == #[trigger] t[j] by {
        assert(c.subrange(at, at + t.len())[j] == c[at + j]);
    }
    assert(c[at] == t[0]);
    assert forall|j: int| 0 <= j < w.len() implies 'A' <= #[trigger] w[j] <= 'Z' && c[at + 1 + j] == w[j] by {
        assert(t[1 + j] == w[j]);
        assert(c[at + (1 + j)] == t[1 + j]);
    }
    assert(c[at + (1 + w.len())] == t[1 + w.len() as int]);
    assert(word_stands(c, at + 1, w));
    law_word_between_tokens(c, n, at + 1, w);
}

proof fn lemma_end_breaks(c: Seq<char>, k: int)
    requires
        0 <= k <= lexemes(c).len(),
        end_before(c, k) < c.len(),
    ensures
        breaks_at(c, 0, Before::Start, end_before(c, k)),
    decreases k,
{
    law_lexemes_adjacent(c);
    if k > 0 {
        if trails(c, k - 1) {
            lemma_end_breaks(c, k - 1);
        } else {
            assert(k < lexemes(c).len()) by {
                if k == lexemes(c).len() {
                    assert(lexemes(c).last() == lexemes(c)[k - 1]);
                }
            }
            assert(lexemes(c)[k - 1].end == lexemes(c)[k].start);
            let b = lemma_lexeme(c, 0, Before::Start, k);
        }
    }
}

/// A word put in behind a statement that ends outside of literals and comments
/// is a word of the text; white space may stand between.
pub proof fn law_word_behind_statement(s: Seq<char>, at: int, w: Seq<char>, t: Seq<char>)
    requires
        text_end(s) <= at <= s.len(),
        is_closed(s.take(text_end(s))),
        forall|j: int| text_end(s) <= j < at ==> is_space(#[trigger] s[j]),
        t.len() > 0,
        t[0] == ' ',
        word_stands(t, 1, w),
    ensures
        holds_word(inserted(s, at, t), w),
{
    let e = text_end(s);
    let c = inserted(s, at, t);
    lemma_text_end(s, lexemes(s).len() as int);
    assert(c.subrange(at, at + t.len()) =~= t);
    if e < at {
        lemma_end_breaks(s, lexemes(s).len() as int);
        assert(is_space(s[e]));
        assert(same_up_to_stop(c, s, e));
        law_break_before_stop(c, s, e);
    } else {
        let d = s.take(e).push(' ');
        law_lexemes_adjacent(d);
        let before = lemma_lexeme(d, 0, Before::Start, lexemes(d).len() - 1);
        assert(c[e] == t[0]);
        assert(same_up_to_stop(c, d, e));
        law_break_before_stop(c, d, e);
    }
    lemma_word_put_in(c, e, at, w, t);
}

} // verus!
