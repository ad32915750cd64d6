//! SQL lexical tokenizer shared by masking and ID substitution.
//!
//! It finds token boundaries and attempts no structural or grammatical
//! parsing. Every character of the source belongs to exactly one token.

use crate::text::{
    char_is_ascii_letter, char_is_digit, char_is_space, find_chars_from, find_from, char_is_letter,
    char_is_word_char, is_ascii_letter, is_digit, is_match_at, is_space, lemma_encode_concat,
    lemma_find_from, match_at, prefix_utf8_len, split_after, to_chars, utf8_len, is_letter,
    is_word_char,
};
use std::ops::Range;
use vstd::prelude::*;
use vstd::slice::slice_subrange;

verus! {

/// Byte offsets into the source, the end exclusive.
pub type Span = Range<usize>;

#[derive(Debug, Clone, Copy, PartialEq, Eq, Structural)]
pub enum TokenKind {
    Whitespace,
    Ident,
    StringLiteral,
    DollarString,
    QuotedIdent,
    Number,
    BindParam,
    LineComment,
    BlockComment,
    Punct,
}

#[derive(Debug, PartialEq, Eq)]
pub struct Token<'a> {
    pub kind: TokenKind,
    pub text: &'a str,
    pub span: Span,
}

/// What stands before a token, white space left out. It decides whether a `-`
/// before a digit is the sign of a number.
#[derive(Debug, Clone, Copy, PartialEq, Eq, Structural)]
pub enum Before {
    /// Nothing: the token is the first of the input.
    Start,
    /// A punctuation character.
    Punct(char),
    /// Any other token, a comment included.
    Other,
}

// ── The tokens of a text ────────────────────────────────────────────

/// The first position from `i` on whose character does not satisfy `p`.
pub open spec fn run_end(c: Seq<char>, i: int, p: spec_fn(char) -> bool) -> int
    decreases c.len() - i,
{
    if 0 <= i < c.len() && p(c[i]) {
        run_end(c, i + 1, p)
    } else {
        i
    }
}

/// The position behind the closing quote of a quoted text whose opening quote
/// stands before `j`, or the end of input. A doubled quote does not close it.
pub open spec fn quoted_end(c: Seq<char>, j: int, q: char) -> int
    decreases c.len() - j,
{
    if j < 0 || j >= c.len() {
        c.len() as int
    } else if c[j] != q {
        quoted_end(c, j + 1, q)
    } else if j + 1 < c.len() && c[j + 1] == q {
        quoted_end(c, j + 2, q)
    } else {
        j + 1
    }
}

/// The position behind the first occurrence of `close` from `from` on, or the
/// end of input.
pub open spec fn closed_by(c: Seq<char>, close: Seq<char>, from: int) -> int {
    match find_from(c, close, from) {
        Some(j) => j + close.len(),
        None => c.len() as int,
    }
}

/// A character of a dollar-quote tag.
pub open spec fn is_tag_char(x: char) -> bool {
    is_ascii_letter(x) || is_digit(x) || x == '_'
}

/// The position of the `$` that ends the opening delimiter at `i`, if the
/// text has one there: `$`, tag characters, `$`.
pub open spec fn dollar_tag_end(c: Seq<char>, i: int) -> Option<int> {
    let t = run_end(c, i + 1, |x: char| is_tag_char(x));
    if t < c.len() && c[t] == '$' {
        Some(t)
    } else {
        None
    }
}

/// Whether `i` is the position of a decimal digit.
pub open spec fn digit_at(c: Seq<char>, i: int) -> bool {
    0 <= i < c.len() && is_digit(c[i])
}

/// Whether a `-` with `before` ahead of it is a sign: at the start of input
/// and behind an operator, an opening bracket or a comma.
pub open spec fn sign_allowed(before: Before) -> bool {
    match before {
        Before::Start => true,
        Before::Punct(p) => is_operator(p),
        Before::Other => false,
    }
}

/// A punctuation character behind which an operand is expected.
pub open spec fn is_operator(p: char) -> bool {
    p == '=' || p == '<' || p == '>' || p == '+' || p == '-' || p == '*' || p == '/' || p == '%'
        || p == '^' || p == '|' || p == '&' || p == '~' || p == '!' || p == '@' || p == '#' || p == '?'
        || p == '(' || p == '[' || p == ',' || p == ':'
}

/// Whether a number begins at `i`.
pub open spec fn number_at(c: Seq<char>, i: int, before: Before) -> bool {
    digit_at(c, i) || (c[i] == '-' && digit_at(c, i + 1) && sign_allowed(before))
}

/// The end of the fraction that begins at `d`, or `d` if none does.
pub open spec fn fraction_end(c: Seq<char>, d: int) -> int {
    if d < c.len() && c[d] == '.' && digit_at(c, d + 1) {
        run_end(c, d + 1, |x: char| is_digit(x))
    } else {
        d
    }
}

/// The end of the exponent that begins at `e`, or `e` if none does.
pub open spec fn exponent_end(c: Seq<char>, e: int) -> int {
    if e < c.len() && (c[e] == 'e' || c[e] == 'E') {
        if digit_at(c, e + 1) {
            run_end(c, e + 1, |x: char| is_digit(x))
        } else if e + 1 < c.len() && (c[e + 1] == '+' || c[e + 1] == '-') && digit_at(c, e + 2) {
            run_end(c, e + 2, |x: char| is_digit(x))
        } else {
            e
        }
    } else {
        e
    }
}

/// The end of the unsigned number that begins at `i`: digits, then a fraction
/// and an exponent where they follow.
pub open spec fn number_end(c: Seq<char>, i: int) -> int {
    exponent_end(c, fraction_end(c, run_end(c, i, |x: char| is_digit(x))))
}

/// The kind of the token that begins at `i`, and the position behind it.
pub open spec fn token_at(c: Seq<char>, i: int, before: Before) -> (TokenKind, int) {
    if match_at(c, seq!['-', '-'], i) {
        (TokenKind::LineComment, run_end(c, i, |x: char| x != '\n'))
    } else if match_at(c, seq!['/', '*'], i) {
        (TokenKind::BlockComment, closed_by(c, seq!['*', '/'], i + 2))
    } else if is_space(c[i]) {
        (TokenKind::Whitespace, run_end(c, i, |x: char| is_space(x)))
    } else if c[i] == '\'' {
        (TokenKind::StringLiteral, quoted_end(c, i + 1, '\''))
    } else if c[i] == '$' {
        match dollar_tag_end(c, i) {
            Some(t) => (TokenKind::DollarString, closed_by(c, c.subrange(i, t + 1), t + 1)),
            None => if digit_at(c, i + 1) {
                (TokenKind::BindParam, run_end(c, i + 1, |x: char| is_digit(x)))
            } else {
                (TokenKind::Punct, i + 1)
            },
        }
    } else if c[i] == '"' {
        (TokenKind::QuotedIdent, quoted_end(c, i + 1, '"'))
    } else if number_at(c, i, before) {
        (TokenKind::Number, number_end(c, if c[i] == '-' { i + 1 } else { i }))
    } else if is_letter(c[i]) || c[i] == '_' {
        (TokenKind::Ident, run_end(c, i + 1, |x: char| is_word_char(x)))
    } else {
        (TokenKind::Punct, i + 1)
    }
}

/// What stands before the token behind one of kind `kind` at `i`.
pub open spec fn before_next(c: Seq<char>, i: int, kind: TokenKind, before: Before) -> Before {
    match kind {
        TokenKind::Whitespace => before,
        TokenKind::Punct => Before::Punct(c[i]),
        _ => Before::Other,
    }
}

/// A token as positions in the text: its kind, its first character and the
/// position behind its last.
pub struct Lexeme {
    pub kind: TokenKind,
    pub start: int,
    pub end: int,
}

/// The tokens from position `i` on.
pub open spec fn lexemes_from(c: Seq<char>, i: int, before: Before) -> Seq<Lexeme>
    decreases c.len() - i,
{
    if i < 0 || i >= c.len() {
        Seq::empty()
    } else {
        let (kind, end) = token_at(c, i, before);
        if end <= i || end > c.len() {
            Seq::empty()
        } else {
            seq![Lexeme { kind, start: i, end }] + lexemes_from(c, end, before_next(c, i, kind, before))
        }
    }
}

/// The tokens of a text.
pub open spec fn lexemes(c: Seq<char>) -> Seq<Lexeme> {
    lexemes_from(c, 0, Before::Start)
}

/// The characters of a token.
pub open spec fn lexeme_text(c: Seq<char>, t: Lexeme) -> Seq<char> {
    c.subrange(t.start, t.end)
}

// ── Laws ────────────────────────────────────────────────────────────

pub(crate) proof fn lemma_run_end(c: Seq<char>, i: int, p: spec_fn(char) -> bool)
    requires
        0 <= i <= c.len(),
    ensures
        i <= run_end(c, i, p) <= c.len(),
        i < c.len() && p(c[i]) ==> i < run_end(c, i, p),
    decreases c.len() - i,
{
    if i < c.len() && p(c[i]) {
        lemma_run_end(c, i + 1, p);
    }
}

pub(crate) proof fn lemma_quoted_end(c: Seq<char>, j: int, q: char)
    requires
        0 <= j <= c.len(),
    ensures
        j <= quoted_end(c, j, q) <= c.len(),
    decreases c.len() - j,
{
    if j < c.len() {
        if c[j] != q {
            lemma_quoted_end(c, j + 1, q);
        } else if j + 1 < c.len() && c[j + 1] == q {
            lemma_quoted_end(c, j + 2, q);
        }
    }
}

proof fn lemma_closed_by(c: Seq<char>, close: Seq<char>, from: int)
    requires
        0 <= from <= c.len(),
    ensures
        from <= closed_by(c, close, from) <= c.len(),
{
    lemma_find_from(c, close, from);
}

proof fn lemma_number_end(c: Seq<char>, i: int)
    requires
        digit_at(c, i),
    ensures
        i < number_end(c, i) <= c.len(),
{
    let p = |x: char| is_digit(x);
    lemma_run_end(c, i, p);
    let d = run_end(c, i, p);
    if d < c.len() {
        lemma_run_end(c, d + 1, p);
    }
    let e = fraction_end(c, d);
    if e < c.len() {
        lemma_run_end(c, e + 1, p);
    }
    if e + 1 < c.len() {
        lemma_run_end(c, e + 2, p);
    }
}

/// A token is not empty and does not reach past the end of the text.
pub proof fn law_token_nonempty(c: Seq<char>, i: int, before: Before)
    requires
        0 <= i < c.len(),
    ensures
        i < token_at(c, i, before).1 <= c.len(),
{
    lemma_run_end(c, i, |x: char| x != '\n');
    if i + 2 <= c.len() {
        lemma_closed_by(c, seq!['*', '/'], i + 2);
    }
    lemma_run_end(c, i, |x: char| is_space(x));
    lemma_quoted_end(c, i + 1, '\'');
    lemma_quoted_end(c, i + 1, '"');
    lemma_run_end(c, i + 1, |x: char| is_digit(x));
    lemma_run_end(c, i + 1, |x: char| is_tag_char(x));
    if let Some(t) = dollar_tag_end(c, i) {
        lemma_closed_by(c, c.subrange(i, t + 1), t + 1);
    }
    if digit_at(c, i) {
        lemma_number_end(c, i);
    }
    if digit_at(c, i + 1) {
        lemma_number_end(c, i + 1);
    }
    lemma_run_end(c, i + 1, |x: char| is_word_char(x));
    if match_at(c, seq!['-', '-'], i) {
        assert(c.subrange(i, i + 2)[0] == c[i]);
    }
}

/// The texts of the tokens, one behind the other.
pub open spec fn concat_lexemes(c: Seq<char>, toks: Seq<Lexeme>) -> Seq<char>
    decreases toks.len(),
{
    if toks.len() == 0 {
        Seq::empty()
    } else {
        lexeme_text(c, toks[0]) + concat_lexemes(c, toks.skip(1))
    }
}

proof fn lemma_lexemes_lossless_from(c: Seq<char>, i: int, before: Before)
    requires
        0 <= i <= c.len(),
    ensures
        concat_lexemes(c, lexemes_from(c, i, before)) == c.skip(i),
    decreases c.len() - i,
{
    if i < c.len() {
        law_token_nonempty(c, i, before);
        let (kind, end) = token_at(c, i, before);
        let next = before_next(c, i, kind, before);
        lemma_lexemes_lossless_from(c, end, next);
        let toks = lexemes_from(c, i, before);
        assert(toks.skip(1) =~= lexemes_from(c, end, next));
        assert(c.subrange(i, end) + c.skip(end) =~= c.skip(i));
    } else {
        assert(c.skip(i) =~= Seq::<char>::empty());
    }
}

/// Tokenizing loses nothing: the texts of the tokens, one behind the other,
/// are the source.
pub proof fn law_lexemes_lossless(c: Seq<char>)
    ensures
        concat_lexemes(c, lexemes(c)) == c,
{
    lemma_lexemes_lossless_from(c, 0, Before::Start);
    assert(c.skip(0) =~= c);
}

proof fn lemma_lexemes_adjacent_from(c: Seq<char>, i: int, before: Before)
    requires
        0 <= i <= c.len(),
    ensures
        ({
            let toks = lexemes_from(c, i, before);
            &&& i < c.len() ==> toks.len() > 0
            &&& toks.len() > 0 ==> toks[0].start == i && toks.last().end == c.len()
            &&& forall|k: int| 0 <= k < toks.len() ==> 0 <= (#[trigger] toks[k]).start < toks[k].end <= c.len()
            &&& forall|j: int, k: int|
                0 <= j && k == j + 1 && k < toks.len() ==> (#[trigger] toks[j]).end == (#[trigger] toks[k]).start
        }),
    decreases c.len() - i,
{
    if i < c.len() {
        law_token_nonempty(c, i, before);
        let (kind, end) = token_at(c, i, before);
        let next = before_next(c, i, kind, before);
        lemma_lexemes_adjacent_from(c, end, next);
        let rest = lexemes_from(c, end, next);
        let toks = lexemes_from(c, i, before);
        assert(toks =~= seq![Lexeme { kind, start: i, end }] + rest);
        assert forall|k: int| 0 <= k < toks.len() implies 0 <= (#[trigger] toks[k]).start < toks[k].end
            <= c.len() by {
            if k > 0 {
                assert(toks[k] == rest[k - 1]);
            }
        }
        assert forall|j: int, k: int| 0 <= j && k == j + 1 && k < toks.len() implies (#[trigger] toks[j]).end
            == (#[trigger] toks[k]).start by {
            assert(toks[k] == rest[k - 1]);
            if j > 0 {
                assert(toks[j] == rest[j - 1]);
            }
        }
        if rest.len() > 0 {
            assert(toks.last() == rest.last());
        }
    }
}

/// The tokens stand side by side: the first begins at the start of the text,
/// each other one where the one before it ends, the last ends at the end of
/// the text, and none is empty.
pub proof fn law_lexemes_adjacent(c: Seq<char>)
    ensures
        lexemes(c).len() == 0 <==> c.len() == 0,
        c.len() > 0 ==> lexemes(c)[0].start == 0 && lexemes(c).last().end == c.len(),
        forall|k: int|
            0 <= k < lexemes(c).len() ==> 0 <= (#[trigger] lexemes(c)[k]).start < lexemes(c)[k].end
                && lexemes(c)[k].end <= c.len(),
        forall|j: int, k: int|
            0 <= j && k == j + 1 && k < lexemes(c).len() ==> (#[trigger] lexemes(c)[j]).end == (
            #[trigger] lexemes(c)[k]).start,
{
    lemma_lexemes_adjacent_from(c, 0, Before::Start);
}

// ── Scanning ────────────────────────────────────────────────────────

fn scan_digits(c: &[char], i: usize) -> (r: usize)
    requires
        i <= c@.len(),
    ensures
        r == run_end(c@, i as int, |x: char| is_digit(x)),
        i <= r <= c@.len(),
{
    let mut j: usize = i;
    while j < c.len() && char_is_digit(c[j])
        invariant
            i <= j <= c@.len(),
            run_end(c@, j as int, |x: char| is_digit(x)) == run_end(c@, i as int, |x: char| is_digit(x)),
        decreases c@.len() - j,
    {
        j = j + 1;
    }
    j
}

fn scan_spaces(c: &[char], i: usize) -> (r: usize)
    requires
        i <= c@.len(),
    ensures
        r == run_end(c@, i as int, |x: char| is_space(x)),
        i <= r <= c@.len(),
{
    let mut j: usize = i;
    while j < c.len() && char_is_space(c[j])
        invariant
            i <= j <= c@.len(),
            run_end(c@, j as int, |x: char| is_space(x)) == run_end(c@, i as int, |x: char| is_space(x)),
        decreases c@.len() - j,
    {
        j = j + 1;
    }
    j
}

fn scan_line(c: &[char], i: usize) -> (r: usize)
    requires
        i <= c@.len(),
    ensures
        r == run_end(c@, i as int, |x: char| x != '\n'),
        i <= r <= c@.len(),
{
    let mut j: usize = i;
    while j < c.len() && c[j] != '\n'
        invariant
            i <= j <= c@.len(),
            run_end(c@, j as int, |x: char| x != '\n') == run_end(c@, i as int, |x: char| x != '\n'),
        decreases c@.len() - j,
    {
        j = j + 1;
    }
    j
}

fn scan_ident(c: &[char], i: usize) -> (r: usize)
    requires
        i <= c@.len(),
    ensures
        r == run_end(c@, i as int, |x: char| is_word_char(x)),
        i <= r <= c@.len(),
{
    let mut j: usize = i;
    while j < c.len() && char_is_word_char(c[j])
        invariant
            i <= j <= c@.len(),
            run_end(c@, j as int, |x: char| is_word_char(x)) == run_end(
                c@,
                i as int,
                |x: char| is_word_char(x),
            ),
        decreases c@.len() - j,
    {
        j = j + 1;
    }
    j
}

/// Scans a quoted text behind its opening quote. A doubled quote stands for
/// the quote itself; an unterminated text reaches to the end of input.
fn scan_quoted(c: &[char], i: usize, q: char) -> (r: usize)
    requires
        i <= c@.len(),
    ensures
        r == quoted_end(c@, i as int, q),
        i <= r <= c@.len(),
{
    let mut j: usize = i;
    while j < c.len()
        invariant
            i <= j <= c@.len(),
            quoted_end(c@, j as int, q) == quoted_end(c@, i as int, q),
        decreases c@.len() - j,
    {
        if c[j] != q {
            j = j + 1;
        } else if j + 1 < c.len() && c[j + 1] == q {
            j = j + 2;
        } else {
            return j + 1;
        }
    }
    j
}

fn scan_closed_by(c: &[char], close: &[char], from: usize) -> (r: usize)
    requires
        from <= c@.len(),
    ensures
        r == closed_by(c@, close@, from as int),
        from <= r <= c@.len(),
{
    let n: usize = c.len();
    match find_chars_from(c, close, from) {
        Some(j) => j + close.len(),
        None => n,
    }
}

/// Scans a dollar-quoted string whose first `$` stands at `i`. `None` if the
/// `$` opens none, as in `$1` or `$,`.
fn scan_dollar_quoted(c: &[char], i: usize) -> (r: Option<usize>)
    requires
        i < c@.len(),
    ensures
        r is Some <==> dollar_tag_end(c@, i as int) is Some,
        r matches Some(e) ==> i < e <= c@.len() && dollar_tag_end(c@, i as int) is Some && e == closed_by(
            c@,
            c@.subrange(i as int, dollar_tag_end(c@, i as int)->0 + 1),
            dollar_tag_end(c@, i as int)->0 + 1,
        ),
{
    let ghost p = |x: char| is_tag_char(x);
    let n: usize = c.len();
    let mut t: usize = i + 1;
    while t < n && (char_is_ascii_letter(c[t]) || char_is_digit(c[t]) || c[t] == '_')
        invariant
            i < t <= n,
            n == c@.len(),
            p == (|x: char| is_tag_char(x)),
            run_end(c@, t as int, p) == run_end(c@, i + 1, p),
        decreases c@.len() - t,
    {
        t = t + 1;
    }
    if t >= n || c[t] != '$' {
        return None;
    }
    Some(scan_closed_by(c, slice_subrange(c, i, t + 1), t + 1))
}

fn is_digit_at(c: &[char], i: usize) -> (r: bool)
    ensures
        r == digit_at(c@, i as int),
{
    i < c.len() && char_is_digit(c[i])
}

/// Scans an unsigned number whose first digit stands at `i`.
fn scan_number(c: &[char], i: usize) -> (r: usize)
    requires
        digit_at(c@, i as int),
    ensures
        r == number_end(c@, i as int),
        i < r <= c@.len(),
{
    proof {
        lemma_number_end(c@, i as int);
    }
    let d = scan_digits(c, i);
    let e = if d < c.len() && c[d] == '.' && is_digit_at(c, d + 1) {
        scan_digits(c, d + 1)
    } else {
        d
    };
    if e < c.len() && (c[e] == 'e' || c[e] == 'E') {
        if is_digit_at(c, e + 1) {
            return scan_digits(c, e + 1);
        }
        if e + 1 < c.len() && (c[e + 1] == '+' || c[e + 1] == '-') && is_digit_at(c, e + 2) {
            return scan_digits(c, e + 2);
        }
    }
    e
}

fn allows_sign(before: Before) -> (r: bool)
    ensures
        r == sign_allowed(before),
{
    match before {
        Before::Start => true,
        Before::Punct(p) => p == '=' || p == '<' || p == '>' || p == '+' || p == '-' || p == '*' || p
            == '/' || p == '%' || p == '^' || p == '|' || p == '&' || p == '~' || p == '!' || p == '@'
            || p == '#' || p == '?' || p == '(' || p == '[' || p == ',' || p == ':',
        Before::Other => false,
    }
}

/// Scans the token that begins at `i`.
fn scan_token(c: &[char], i: usize, before: Before) -> (r: (TokenKind, usize))
    requires
        i < c@.len(),
    ensures
        (r.0, r.1 as int) == token_at(c@, i as int, before),
        i < r.1 <= c@.len(),
{
    proof {
        law_token_nonempty(c@, i as int, before);
    }
    let first = c[i];
    let dashes: [char; 2] = ['-', '-'];
    let open: [char; 2] = ['/', '*'];
    let close: [char; 2] = ['*', '/'];
    proof {
        assert(dashes@ =~= seq!['-', '-']);
        assert(open@ =~= seq!['/', '*']);
        assert(close@ =~= seq!['*', '/']);
    }
    if is_match_at(c, &dashes, i) {
        return (TokenKind::LineComment, scan_line(c, i));
    }
    if is_match_at(c, &open, i) {
        return (TokenKind::BlockComment, scan_closed_by(c, &close, i + 2));
    }
    if char_is_space(first) {
        return (TokenKind::Whitespace, scan_spaces(c, i));
    }
    if first == '\'' {
        return (TokenKind::StringLiteral, scan_quoted(c, i + 1, '\''));
    }
    if first == '$' {
        if let Some(end) = scan_dollar_quoted(c, i) {
            return (TokenKind::DollarString, end);
        }
        if is_digit_at(c, i + 1) {
            return (TokenKind::BindParam, scan_digits(c, i + 1));
        }
        return (TokenKind::Punct, i + 1);
    }
    if first == '"' {
        return (TokenKind::QuotedIdent, scan_quoted(c, i + 1, '"'));
    }
    if char_is_digit(first) {
        return (TokenKind::Number, scan_number(c, i));
    }
    if first == '-' && is_digit_at(c, i + 1) && allows_sign(before) {
        return (TokenKind::Number, scan_number(c, i + 1));
    }
    if char_is_letter(first) || first == '_' {
        return (TokenKind::Ident, scan_ident(c, i + 1));
    }
    (TokenKind::Punct, i + 1)
}

// ── The lexer ───────────────────────────────────────────────────────

/// Reads the tokens of a source text from left to right.
pub struct SqlLexer<'a> {
    src: &'a str,
    chars: Vec<char>,
    at: usize,
    rest: &'a str,
    pos: usize,
    before: Before,
}

impl<'a> SqlLexer<'a> {
    /// The source text.
    pub closed spec fn source(&self) -> Seq<char> {
        self.src@
    }

    /// The position of the next token, in characters.
    pub closed spec fn position(&self) -> int {
        self.at as int
    }

    /// What stands before the next token.
    pub closed spec fn preceding(&self) -> Before {
        self.before
    }

    /// The position lies within the source, and the byte offset and the rest
    /// of the source agree with it.
    pub closed spec fn wf(&self) -> bool {
        &&& self.chars@ == self.src@
        &&& self.at <= self.src@.len()
        &&& self.rest@ == self.src@.skip(self.at as int)
        &&& self.pos == utf8_len(self.src@.take(self.at as int))
    }

    /// The position never lies outside the source.
    pub proof fn lemma_wf_bounds(&self)
        requires
            self.wf(),
        ensures
            0 <= self.position() <= self.source().len(),
    {
    }

    /// A lexer at the start of `src`.
    pub fn new(src: &'a str) -> (r: Self)
        ensures
            r.wf(),
            r.source() == src@,
            r.position() == 0,
            r.preceding() == Before::Start,
    {
        let chars = to_chars(src);
        proof {
            assert(src@.skip(0) =~= src@);
            assert(src@.take(0) =~= Seq::<char>::empty());
        }
        SqlLexer { src, chars, at: 0, rest: src, pos: 0, before: Before::Start }
    }

    /// The next token, or `None` at the end of the source.
    pub fn next(&mut self) -> (r: Option<Token<'a>>)
        requires
            old(self).wf(),
        ensures
            final(self).wf(),
            final(self).source() == old(self).source(),
            r is None <==> old(self).position() == old(self).source().len(),
            r is None ==> final(self).position() == old(self).position() && final(self).preceding()
                == old(self).preceding(),
            r matches Some(t) ==> {
                let c = old(self).source();
                let i = old(self).position();
                let (kind, end) = token_at(c, i, old(self).preceding());
                &&& t.kind == kind
                &&& t.text@ == c.subrange(i, end)
                &&& t.span.start == utf8_len(c.take(i))
                &&& t.span.end == utf8_len(c.take(end))
                &&& final(self).position() == end
                &&& final(self).preceding() == before_next(c, i, kind, old(self).preceding())
            },
    {
        if self.at >= self.chars.len() {
            return None;
        }
        let (kind, end) = scan_token(&self.chars, self.at, self.before);
        let n = prefix_utf8_len(self.src, &self.chars, self.at, end);
        let ghost c = self.src@;
        let ghost i = self.at as int;
        let limit = self.src.as_bytes().len();
        proof {
            assert(c.take(end as int) =~= c.take(i) + c.subrange(i, end as int));
            lemma_encode_concat(c.take(i), c.subrange(i, end as int));
            assert(c =~= c.take(end as int) + c.skip(end as int));
            lemma_encode_concat(c.take(end as int), c.skip(end as int));
            assert(self.rest@.take(end - i) =~= c.subrange(i, end as int));
            assert(self.rest@.skip(end - i) =~= c.skip(end as int));
        }
        let (text, rest) = split_after(self.rest, n, Ghost(end - i));
        let start = self.pos;
        self.before = match kind {
            TokenKind::Whitespace => self.before,
            TokenKind::Punct => Before::Punct(self.chars[self.at]),
            _ => Before::Other,
        };
        self.rest = rest;
        self.pos = start + n;
        self.at = end;
        Some(Token { kind, text, span: start..start + n })
    }
}

/// Whether a token has the kind, the text and the byte span of a lexeme.
pub open spec fn token_is(c: Seq<char>, t: Token, l: Lexeme) -> bool {
    &&& t.kind == l.kind
    &&& t.text@ == lexeme_text(c, l)
    &&& t.span.start == utf8_len(c.take(l.start))
    &&& t.span.end == utf8_len(c.take(l.end))
}

/// All tokens of a source text.
pub fn tokenize<'a>(src: &'a str) -> (r: Vec<Token<'a>>)
    ensures
        r@.len() == lexemes(src@).len(),
        forall|k: int| 0 <= k < r@.len() ==> token_is(src@, #[trigger] r@[k], lexemes(src@)[k]),
{
    let mut lexer = SqlLexer::new(src);
    let mut out: Vec<Token<'a>> = Vec::new();
    let ghost c = src@;
    loop
        invariant
            lexer.wf(),
            lexer.source() == c,
            c == src@,
            lexemes(c) == lexemes(c).take(out@.len() as int) + lexemes_from(
                c,
                lexer.position(),
                lexer.preceding(),
            ),
            out@.len() <= lexemes(c).len(),
            forall|k: int| 0 <= k < out@.len() ==> token_is(c, #[trigger] out@[k], lexemes(c)[k]),
        ensures
            lexer.wf(),
            lexer.source() == c,
            lexer.position() == c.len(),
            lexemes(c) == lexemes(c).take(out@.len() as int) + lexemes_from(
                c,
                lexer.position(),
                lexer.preceding(),
            ),
            out@.len() <= lexemes(c).len(),
            forall|k: int| 0 <= k < out@.len() ==> token_is(c, #[trigger] out@[k], lexemes(c)[k]),
        decreases c.len() - lexer.position(),
    {
        proof {
            lexer.lemma_wf_bounds();
        }
        let ghost i = lexer.position();
        let ghost b = lexer.preceding();
        match lexer.next() {
            Some(t) => {
                proof {
                    law_token_nonempty(c, i, b);
                    let (kind, end) = token_at(c, i, b);
                    let l = Lexeme { kind, start: i, end };
                    let rest = lexemes_from(c, end, before_next(c, i, kind, b));
                    let n = out@.len() as int;
                    assert(lexemes_from(c, i, b) == seq![l] + rest);
                    assert(lexemes(c)[n] == (lexemes(c).take(n) + (seq![l] + rest))[n]);
                    assert(lexemes(c)[n] == l);
                    assert(lexemes(c).take(n + 1) =~= lexemes(c).take(n).push(l));
                    assert(lexemes(c) =~= lexemes(c).take(n + 1) + rest);
                }
                out.push(t);
            },
            None => {
                break;
            },
        }
    }
    proof {
        assert(lexemes_from(c, lexer.position(), lexer.preceding()) =~= Seq::<Lexeme>::empty());
        assert(lexemes(c).len() == out@.len());
    }
    out
}

} // verus!
