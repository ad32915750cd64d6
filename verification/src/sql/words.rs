//! Words of an SQL text: keywords and calls outside literals, quoted names and
//! comments.

use crate::sql::lex::{lexeme_text, lexemes, token_is, tokenize, Token, TokenKind};
use crate::text::{ascii_uppercase, char_is_word_char, chars_are, is_word_char, str_eq, to_ascii_uppercase, to_chars};
use vstd::prelude::*;

verus! {

/// Whether a text ends with a character of a word.
pub open spec fn ends_in_word(s: Seq<char>) -> bool {
    s.len() > 0 && is_word_char(s.last())
}

/// Whether token `k` of a text is the identifier or keyword `w`, in whatever
/// case.
pub open spec fn ident_at(c: Seq<char>, k: int, w: Seq<char>) -> bool {
    let toks = lexemes(c);
    0 <= k < toks.len() && toks[k].kind == TokenKind::Ident && ascii_uppercase(lexeme_text(c, toks[k])) == w
}

/// Whether token `k` of a text is the word `w`, in whatever case, with no
/// character of a word right before it.
pub open spec fn word_at(c: Seq<char>, k: int, w: Seq<char>) -> bool {
    ident_at(c, k, w) && (k == 0 || !ends_in_word(lexeme_text(c, lexemes(c)[k - 1])))
}

/// Whether a text holds the word `w`.
pub open spec fn holds_word(c: Seq<char>, w: Seq<char>) -> bool {
    exists|k: int| word_at(c, k, w)
}

/// Whether a token separates others: white space or a comment.
pub open spec fn separates(kind: TokenKind) -> bool {
    kind == TokenKind::Whitespace || kind == TokenKind::LineComment || kind == TokenKind::BlockComment
}

/// The first token from `k` on that does not only separate others.
pub open spec fn next_token(c: Seq<char>, k: int) -> int
    decreases lexemes(c).len() - k,
{
    if 0 <= k < lexemes(c).len() && separates(lexemes(c)[k].kind) {
        next_token(c, k + 1)
    } else {
        k
    }
}

/// The last token before `k` that does not only separate others, -1 if there is
/// none.
pub open spec fn previous_token(c: Seq<char>, k: int) -> int
    decreases k,
{
    if 0 < k <= lexemes(c).len() && separates(lexemes(c)[k - 1].kind) {
        previous_token(c, k - 1)
    } else {
        k - 1
    }
}

/// Whether token `k` is an opening bracket.
pub open spec fn opens_bracket(c: Seq<char>, k: int) -> bool {
    punct_at(c, k, "("@)
}

/// Whether token `k` of a text is the quoted name `w`, in whatever case.
pub open spec fn quoted_at(c: Seq<char>, k: int, w: Seq<char>) -> bool {
    let toks = lexemes(c);
    0 <= k < toks.len() && toks[k].kind == TokenKind::QuotedIdent && ascii_uppercase(lexeme_text(c, toks[k]))
        == seq!['"'] + w + seq!['"']
}

/// Whether token `k` of a text is the name `w`, quoted or not.
pub open spec fn name_at(c: Seq<char>, k: int, w: Seq<char>) -> bool {
    word_at(c, k, w) || quoted_at(c, k, w)
}

/// Whether a text calls the function `w`: its name, and an opening bracket
/// behind it.
pub open spec fn calls_function(c: Seq<char>, w: Seq<char>) -> bool {
    exists|k: int| #[trigger] name_at(c, k, w) && opens_bracket(c, next_token(c, k + 1))
}

/// Whether token `k` is the punctuation character `x`.
pub open spec fn punct_at(c: Seq<char>, k: int, x: Seq<char>) -> bool {
    0 <= k < lexemes(c).len() && lexemes(c)[k].kind == TokenKind::Punct && lexeme_text(c, lexemes(c)[k]) == x
}

/// The last bracket before token `k` that is open there, `depth` others that
/// were opened behind it left out; -1 if there is none.
pub open spec fn opening_of(c: Seq<char>, k: int, depth: nat) -> int
    decreases k,
{
    if k <= 0 {
        -1
    } else if punct_at(c, k - 1, ")"@) {
        opening_of(c, k - 1, depth + 1)
    } else if punct_at(c, k - 1, "("@) {
        if depth == 0 {
            k - 1
        } else {
            opening_of(c, k - 1, (depth - 1) as nat)
        }
    } else {
        opening_of(c, k - 1, depth)
    }
}

/// Whether the identifier or keyword `w` stands behind token `k`.
pub open spec fn ident_behind(c: Seq<char>, k: int, w: Seq<char>) -> bool {
    exists|j: int| k < j && #[trigger] ident_at(c, j, w)
}

/// Whether tokens are those of a text.
pub open spec fn tokens_of(c: Seq<char>, v: Seq<Token>) -> bool {
    &&& v.len() == lexemes(c).len()
    &&& forall|k: int| 0 <= k < v.len() ==> token_is(c, #[trigger] v[k], lexemes(c)[k])
}

/// Whether token `k` is the identifier or keyword `w`.
pub(crate) fn is_ident_at(toks: &Vec<Token>, k: usize, w: &str, Ghost(c): Ghost<Seq<char>>) -> (r: bool)
    requires
        tokens_of(c, toks@),
    ensures
        r == ident_at(c, k as int, w@),
{
    if k >= toks.len() {
        return false;
    }
    proof {
        assert(token_is(c, toks@[k as int], lexemes(c)[k as int]));
    }
    if toks[k].kind != TokenKind::Ident {
        return false;
    }
    let text = to_chars(toks[k].text);
    chars_are(&to_ascii_uppercase(&text), w)
}

fn is_word_at(toks: &Vec<Token>, k: usize, w: &str, Ghost(c): Ghost<Seq<char>>) -> (r: bool)
    requires
        tokens_of(c, toks@),
    ensures
        r == word_at(c, k as int, w@),
{
    if !is_ident_at(toks, k, w, Ghost(c)) {
        return false;
    }
    if k == 0 {
        return true;
    }
    proof {
        assert(token_is(c, toks@[k - 1], lexemes(c)[k - 1]));
    }
    let before = to_chars(toks[k - 1].text);
    let n: usize = before.len();
    n == 0 || !char_is_word_char(before[n - 1])
}

fn is_name_at(toks: &Vec<Token>, k: usize, w: &str, Ghost(c): Ghost<Seq<char>>) -> (r: bool)
    requires
        tokens_of(c, toks@),
    ensures
        r == name_at(c, k as int, w@),
{
    if is_word_at(toks, k, w, Ghost(c)) {
        return true;
    }
    if k >= toks.len() {
        return false;
    }
    proof {
        assert(token_is(c, toks@[k as int], lexemes(c)[k as int]));
    }
    if toks[k].kind != TokenKind::QuotedIdent {
        return false;
    }
    let mut quoted = String::new();
    quoted.push('"');
    quoted.push_str(w);
    quoted.push('"');
    proof {
        assert(quoted@ =~= seq!['"'] + w@ + seq!['"']);
    }
    let text = to_chars(toks[k].text);
    chars_are(&to_ascii_uppercase(&text), quoted.as_str())
}

pub(crate) fn is_separator(kind: TokenKind) -> (r: bool)
    ensures
        r == separates(kind),
{
    kind == TokenKind::Whitespace || kind == TokenKind::LineComment || kind == TokenKind::BlockComment
}

pub(crate) fn skip_separators(toks: &Vec<Token>, from: usize, Ghost(c): Ghost<Seq<char>>) -> (r: usize)
    requires
        tokens_of(c, toks@),
        from <= toks@.len(),
    ensures
        r == next_token(c, from as int),
        r <= toks@.len(),
{
    let mut k: usize = from;
    while k < toks.len() && is_separator(toks[k].kind)
        invariant
            tokens_of(c, toks@),
            k <= toks@.len(),
            next_token(c, from as int) == next_token(c, k as int),
        decreases toks@.len() - k,
    {
        proof {
            assert(token_is(c, toks@[k as int], lexemes(c)[k as int]));
        }
        k = k + 1;
    }
    proof {
        assert(k < toks@.len() ==> token_is(c, toks@[k as int], lexemes(c)[k as int]));
    }
    k
}

/// Whether token `k` is the punctuation character `x`.
pub(crate) fn is_punct_at(toks: &Vec<Token>, k: usize, x: &str, Ghost(c): Ghost<Seq<char>>) -> (r: bool)
    requires
        tokens_of(c, toks@),
    ensures
        r == punct_at(c, k as int, x@),
{
    if k >= toks.len() {
        return false;
    }
    proof {
        assert(token_is(c, toks@[k as int], lexemes(c)[k as int]));
    }
    toks[k].kind == TokenKind::Punct && str_eq(toks[k].text, x)
}

/// The last bracket before token `from` that is open there.
pub(crate) fn find_opening(toks: &Vec<Token>, from: usize, Ghost(c): Ghost<Seq<char>>) -> (r: Option<usize>)
    requires
        tokens_of(c, toks@),
        from <= toks@.len(),
    ensures
        match r {
            Some(p) => p == opening_of(c, from as int, 0) && p < from,
            None => opening_of(c, from as int, 0) == -1,
        },
{
    let mut k: usize = from;
    let mut depth: usize = 0;
    while k > 0
        invariant
            tokens_of(c, toks@),
            k <= from <= toks@.len(),
            depth <= from - k,
            opening_of(c, from as int, 0) == opening_of(c, k as int, depth as nat),
        decreases k,
    {
        k = k - 1;
        if is_punct_at(toks, k, ")", Ghost(c)) {
            depth = depth + 1;
        } else if is_punct_at(toks, k, "(", Ghost(c)) {
            if depth == 0 {
                return Some(k);
            }
            depth = depth - 1;
        }
    }
    None
}

/// The last token before `k` that does not only separate others.
pub(crate) fn find_previous(toks: &Vec<Token>, k: usize, Ghost(c): Ghost<Seq<char>>) -> (r: Option<usize>)
    requires
        tokens_of(c, toks@),
        k <= toks@.len(),
    ensures
        match r {
            Some(p) => p == previous_token(c, k as int) && p < k,
            None => previous_token(c, k as int) == -1,
        },
{
    let mut p: usize = k;
    while p > 0 && is_separator(toks[p - 1].kind)
        invariant
            tokens_of(c, toks@),
            p <= k <= toks@.len(),
            previous_token(c, k as int) == previous_token(c, p as int),
        decreases p,
    {
        proof {
            assert(token_is(c, toks@[p - 1], lexemes(c)[p - 1]));
        }
        p = p - 1;
    }
    if p == 0 {
        return None;
    }
    proof {
        assert(token_is(c, toks@[p - 1], lexemes(c)[p - 1]));
    }
    Some(p - 1)
}

/// Whether the identifier or keyword `w` stands behind token `k`.
pub(crate) fn has_ident_behind(toks: &Vec<Token>, k: usize, w: &str, Ghost(c): Ghost<Seq<char>>) -> (r: bool)
    requires
        tokens_of(c, toks@),
        k < toks@.len(),
    ensures
        r == ident_behind(c, k as int, w@),
{
    let n: usize = toks.len();
    let mut j: usize = k + 1;
    while j < n
        invariant
            tokens_of(c, toks@),
            n == toks@.len(),
            k < j <= n,
            forall|i: int| k < i < j ==> !(#[trigger] ident_at(c, i, w@)),
        decreases toks@.len() - j,
    {
        if is_ident_at(toks, j, w, Ghost(c)) {
            return true;
        }
        j = j + 1;
    }
    false
}

/// Whether a text holds the word `w`.
pub fn contains_word(sql: &str, w: &str) -> (r: bool)
    ensures
        r == holds_word(sql@, w@),
{
    let toks = tokenize(sql);
    let mut k: usize = 0;
    while k < toks.len()
        invariant
            tokens_of(sql@, toks@),
            k <= toks@.len(),
            forall|j: int| 0 <= j < k ==> !word_at(sql@, j, w@),
        decreases toks@.len() - k,
    {
        if is_word_at(&toks, k, w, Ghost(sql@)) {
            return true;
        }
        k = k + 1;
    }
    false
}

/// Whether the first token of a text is the word `w`.
pub fn begins_with_word(sql: &str, w: &str) -> (r: bool)
    ensures
        r == word_at(sql@, 0, w@),
{
    let toks = tokenize(sql);
    is_word_at(&toks, 0, w, Ghost(sql@))
}

/// Whether a text calls the function `w`.
pub fn contains_call(sql: &str, w: &str) -> (r: bool)
    ensures
        r == calls_function(sql@, w@),
{
    let toks = tokenize(sql);
    let ghost c = sql@;
    let mut k: usize = 0;
    while k < toks.len()
        invariant
            c == sql@,
            tokens_of(c, toks@),
            k <= toks@.len(),
            forall|j: int|
                0 <= j < k ==> !(#[trigger] name_at(c, j, w@) && opens_bracket(c, next_token(c, j + 1))),
        decreases toks@.len() - k,
    {
        if is_name_at(&toks, k, w, Ghost(c)) {
            let next = skip_separators(&toks, k + 1, Ghost(c));
            if is_punct_at(&toks, next, "(", Ghost(c)) {
                proof {
                    assert(name_at(c, k as int, w@) && opens_bracket(c, next_token(c, k + 1)));
                }
                return true;
            }
        }
        k = k + 1;
    }
    false
}

} // verus!
