//! Substitution of captured IDs in SQL text.

use crate::capture::masking::lemma_concat_push;
use crate::correlate::map::{id_entries, map_get, map_is_empty};
use crate::sql::lex::{
    concat_lexemes, law_lexemes_lossless, lexeme_text, lexemes, token_is, tokenize, Lexeme, Token,
    TokenKind,
};
use crate::text::{
    ascii_uppercase, char_is_digit, chars_are, is_digit, push_chars, str_eq, to_ascii_uppercase,
    to_chars,
};
use dashmap::DashMap;
use std::borrow::Cow;
use vstd::prelude::*;
use vstd::slice::slice_subrange;

verus! {

/// Eligibility state for whether the next literal should be substituted.
#[derive(Debug, Clone, Copy, PartialEq, Eq, Structural)]
pub enum Eligibility {
    /// Default / neutral: literals are eligible for substitution.
    Neutral,
    /// Next literal is explicitly eligible (after WHERE, AND, =, IN, etc.).
    Eligible,
    /// Next literal should NOT be substituted (after LIMIT, OFFSET, FETCH).
    Ineligible,
    /// A name is expected (after AS, FROM, JOIN, INTO, TABLE, INDEX).
    IdentifierContext,
}

/// A keyword behind which a literal is eligible.
pub open spec fn opens_value(k: Seq<char>) -> bool {
    k == "WHERE"@ || k == "AND"@ || k == "OR"@ || k == "ON"@ || k == "IN"@ || k == "VALUES"@ || k
        == "SET"@ || k == "BETWEEN"@ || k == "HAVING"@
}

/// A keyword behind which a literal is a row count.
pub open spec fn opens_row_count(k: Seq<char>) -> bool {
    k == "LIMIT"@ || k == "OFFSET"@ || k == "FETCH"@
}

/// A keyword behind which a name is expected.
pub open spec fn opens_name(k: Seq<char>) -> bool {
    k == "AS"@ || k == "FROM"@ || k == "JOIN"@ || k == "INTO"@ || k == "TABLE"@ || k == "INDEX"@
}

/// A character that may stand in a number put into SQL text.
pub open spec fn is_number_char(c: char) -> bool {
    is_digit(c) || c == '.' || c == '-' || c == 'e' || c == 'E' || c == '+'
}

/// Whether a text can stand in the place of a number: all its characters may.
pub open spec fn is_number_like(s: Seq<char>) -> bool {
    forall|i: int| 0 <= i < s.len() ==> is_number_char(#[trigger] s[i])
}

/// The text between the quotes of a string literal; of an unterminated one,
/// the text behind the opening quote.
pub open spec fn unquoted(s: Seq<char>) -> Seq<char> {
    if s.len() >= 2 && s[0] == '\'' && s.last() == '\'' {
        s.subrange(1, s.len() - 1)
    } else {
        s.skip(1)
    }
}

/// Whether a literal met in this state is looked up.
pub open spec fn looks_up(e: Eligibility) -> bool {
    e == Eligibility::Neutral || e == Eligibility::Eligible
}

/// What stands for a token after substitution, if it is replaced at all.
pub open spec fn replacement(
    entries: Map<Seq<char>, Seq<char>>,
    e: Eligibility,
    kind: TokenKind,
    text: Seq<char>,
) -> Option<Seq<char>> {
    if !looks_up(e) {
        None
    } else if kind == TokenKind::StringLiteral && entries.dom().contains(unquoted(text)) {
        Some(seq!['\''] + entries[unquoted(text)] + seq!['\''])
    } else if kind == TokenKind::Number && entries.dom().contains(text) && is_number_like(entries[text]) {
        Some(entries[text])
    } else {
        None
    }
}

/// The state behind a token.
pub open spec fn eligibility_after(e: Eligibility, kind: TokenKind, text: Seq<char>) -> Eligibility {
    let name_seen = if e == Eligibility::IdentifierContext {
        Eligibility::Neutral
    } else {
        e
    };
    match kind {
        TokenKind::StringLiteral | TokenKind::Number => Eligibility::Neutral,
        TokenKind::Ident => {
            let k = ascii_uppercase(text);
            if opens_value(k) {
                Eligibility::Eligible
            } else if opens_row_count(k) {
                Eligibility::Ineligible
            } else if opens_name(k) {
                Eligibility::IdentifierContext
            } else {
                name_seen
            }
        },
        TokenKind::QuotedIdent => name_seen,
        TokenKind::Punct => if text == "="@ || text == "<"@ || text == ">"@ {
            Eligibility::Eligible
        } else {
            e
        },
        _ => e,
    }
}

/// The state of a substitution: eligibility of the next literal, the text so
/// far and the number of replacements so far.
pub struct Substitution {
    pub eligibility: Eligibility,
    pub out: Seq<char>,
    pub count: nat,
}

/// The substitution over a sequence of tokens of the text `c`.
pub open spec fn substitution(
    c: Seq<char>,
    entries: Map<Seq<char>, Seq<char>>,
    toks: Seq<Lexeme>,
) -> Substitution
    decreases toks.len(),
{
    if toks.len() == 0 {
        Substitution { eligibility: Eligibility::Neutral, out: Seq::empty(), count: 0 }
    } else {
        let s = substitution(c, entries, toks.drop_last());
        let t = toks.last();
        let text = lexeme_text(c, t);
        let next = eligibility_after(s.eligibility, t.kind, text);
        match replacement(entries, s.eligibility, t.kind, text) {
            Some(r) => Substitution { eligibility: next, out: s.out + r, count: s.count + 1 },
            None => Substitution { eligibility: next, out: s.out + text, count: s.count },
        }
    }
}

/// The text with the IDs that `entries` holds replaced.
pub open spec fn substituted(c: Seq<char>, entries: Map<Seq<char>, Seq<char>>) -> Seq<char> {
    substitution(c, entries, lexemes(c)).out
}

/// The number of replacements that `substituted` makes.
pub open spec fn substitution_count(c: Seq<char>, entries: Map<Seq<char>, Seq<char>>) -> nat {
    substitution(c, entries, lexemes(c)).count
}

proof fn lemma_count_bound(c: Seq<char>, entries: Map<Seq<char>, Seq<char>>, toks: Seq<Lexeme>)
    ensures
        substitution(c, entries, toks).count <= toks.len(),
    decreases toks.len(),
{
    if toks.len() > 0 {
        lemma_count_bound(c, entries, toks.drop_last());
    }
}

proof fn lemma_count_zero(c: Seq<char>, entries: Map<Seq<char>, Seq<char>>, toks: Seq<Lexeme>)
    requires
        substitution(c, entries, toks).count == 0,
    ensures
        substitution(c, entries, toks).out == concat_lexemes(c, toks),
    decreases toks.len(),
{
    if toks.len() > 0 {
        let p = toks.drop_last();
        lemma_count_zero(c, entries, p);
        assert(p.push(toks.last()) =~= toks);
        lemma_concat_push(c, p, toks.last());
    }
}

proof fn lemma_no_entries(c: Seq<char>, entries: Map<Seq<char>, Seq<char>>, toks: Seq<Lexeme>)
    requires
        forall|k: Seq<char>| !entries.dom().contains(k),
    ensures
        substitution(c, entries, toks).count == 0,
    decreases toks.len(),
{
    if toks.len() > 0 {
        lemma_no_entries(c, entries, toks.drop_last());
    }
}

/// Where nothing is replaced the text stays as it is.
pub proof fn law_no_substitution_keeps_text(c: Seq<char>, entries: Map<Seq<char>, Seq<char>>)
    requires
        substitution_count(c, entries) == 0,
    ensures
        substituted(c, entries) == c,
{
    lemma_count_zero(c, entries, lexemes(c));
    law_lexemes_lossless(c);
}

/// Without entries nothing is replaced.
pub proof fn law_empty_map_substitutes_nothing(c: Seq<char>, entries: Map<Seq<char>, Seq<char>>)
    requires
        forall|k: Seq<char>| !entries.dom().contains(k),
    ensures
        substitution_count(c, entries) == 0,
        substituted(c, entries) == c,
{
    lemma_no_entries(c, entries, lexemes(c));
    law_no_substitution_keeps_text(c, entries);
}

/// A literal behind LIMIT, OFFSET or FETCH, with white space between, is kept
/// whatever the entries are.
pub proof fn law_row_count_is_kept(
    entries: Map<Seq<char>, Seq<char>>,
    e: Eligibility,
    keyword: Seq<char>,
    space: Seq<char>,
    kind: TokenKind,
    text: Seq<char>,
)
    requires
        opens_row_count(ascii_uppercase(keyword)),
        !opens_value(ascii_uppercase(keyword)),
    ensures
        replacement(
            entries,
            eligibility_after(
                eligibility_after(e, TokenKind::Ident, keyword),
                TokenKind::Whitespace,
                space,
            ),
            kind,
            text,
        ) is None,
{
}

/// A replacement of a number holds nothing but characters of numbers.
pub proof fn law_number_replacement_is_numeric(
    entries: Map<Seq<char>, Seq<char>>,
    e: Eligibility,
    text: Seq<char>,
)
    ensures
        replacement(entries, e, TokenKind::Number, text) matches Some(r) ==> is_number_like(r),
{
}

fn keyword_opens_value(k: &[char]) -> (r: bool)
    ensures
        r == opens_value(k@),
{
    chars_are(k, "WHERE") || chars_are(k, "AND") || chars_are(k, "OR") || chars_are(k, "ON") || chars_are(
        k,
        "IN",
    ) || chars_are(k, "VALUES") || chars_are(k, "SET") || chars_are(k, "BETWEEN") || chars_are(k, "HAVING")
}

fn keyword_opens_row_count(k: &[char]) -> (r: bool)
    ensures
        r == opens_row_count(k@),
{
    chars_are(k, "LIMIT") || chars_are(k, "OFFSET") || chars_are(k, "FETCH")
}

fn keyword_opens_name(k: &[char]) -> (r: bool)
    ensures
        r == opens_name(k@),
{
    chars_are(k, "AS") || chars_are(k, "FROM") || chars_are(k, "JOIN") || chars_are(k, "INTO") || chars_are(
        k,
        "TABLE",
    ) || chars_are(k, "INDEX")
}

/// Whether every character of a string may stand in a number.
fn has_number_chars(s: &str) -> (r: bool)
    ensures
        r == is_number_like(s@),
{
    let v = to_chars(s);
    for i in 0..v.len()
        invariant
            v@ == s@,
            forall|k: int| 0 <= k < i ==> is_number_char(#[trigger] s@[k]),
    {
        let c = v[i];
        if !(char_is_digit(c) || c == '.' || c == '-' || c == 'e' || c == 'E' || c == '+') {
            proof {
                assert(!is_number_char(s@[i as int]));
            }
            return false;
        }
    }
    true
}

/// Strip the leading and trailing single quote from a string literal.
fn strip_single_quotes(text: &str) -> (r: String)
    requires
        text@.len() > 0,
    ensures
        r@ == unquoted(text@),
{
    let v = to_chars(text);
    let n = v.len();
    let mut out = String::new();
    if n >= 2 && v[0] == '\'' && v[n - 1] == '\'' {
        push_chars(&mut out, slice_subrange(&v, 1, n - 1));
    } else {
        push_chars(&mut out, slice_subrange(&v, 1, n));
    }
    proof {
        assert(out@ =~= unquoted(text@));
    }
    out
}

fn next_eligibility(e: Eligibility, kind: TokenKind, text: &str) -> (r: Eligibility)
    ensures
        r == eligibility_after(e, kind, text@),
{
    match kind {
        TokenKind::StringLiteral | TokenKind::Number => Eligibility::Neutral,
        TokenKind::Ident => {
            let v = to_chars(text);
            let k = to_ascii_uppercase(&v);
            if keyword_opens_value(&k) {
                Eligibility::Eligible
            } else if keyword_opens_row_count(&k) {
                Eligibility::Ineligible
            } else if keyword_opens_name(&k) {
                Eligibility::IdentifierContext
            } else if e == Eligibility::IdentifierContext {
                Eligibility::Neutral
            } else {
                e
            }
        },
        TokenKind::QuotedIdent => if e == Eligibility::IdentifierContext {
            Eligibility::Neutral
        } else {
            e
        },
        TokenKind::Punct => if str_eq(text, "=") || str_eq(text, "<") || str_eq(text, ">") {
            Eligibility::Eligible
        } else {
            e
        },
        _ => e,
    }
}

fn find_replacement(map: &DashMap<String, String>, e: Eligibility, t: &Token) -> (r: Option<String>)
    requires
        t.text@.len() > 0,
    ensures
        r is Some <==> replacement(id_entries(*map), e, t.kind, t.text@) is Some,
        r is Some ==> replacement(id_entries(*map), e, t.kind, t.text@) == Some(r->0@),
{
    if !(e == Eligibility::Neutral || e == Eligibility::Eligible) {
        return None;
    }
    match t.kind {
        TokenKind::StringLiteral => {
            let inner = strip_single_quotes(t.text);
            match map_get(map, inner.as_str()) {
                Some(v) => {
                    let mut s = String::new();
                    s.push('\'');
                    s.push_str(v.as_str());
                    s.push('\'');
                    proof {
                        assert(s@ =~= seq!['\''] + v@ + seq!['\'']);
                    }
                    Some(s)
                },
                None => None,
            }
        },
        TokenKind::Number => match map_get(map, t.text) {
            Some(v) => if has_number_chars(v.as_str()) {
                Some(v)
            } else {
                None
            },
            None => None,
        },
        _ => None,
    }
}

/// Substitute captured IDs in SQL with their replayed counterparts.
///
/// The keyword context (WHERE/AND/OR make the next literal eligible;
/// LIMIT/OFFSET/FETCH ineligible; AS/FROM/JOIN announce a name) decides which
/// literals are looked up. Returns the SQL, borrowed if nothing was replaced,
/// and the count of substitutions made. The map's entries are those it has
/// during the call; nobody else writes to it meanwhile.
pub fn substitute_ids<'a>(sql: &'a str, map: &DashMap<String, String>) -> (r: (Cow<'a, str>, usize))
    ensures
        r.0@ == substituted(sql@, id_entries(*map)),
        r.1 == substitution_count(sql@, id_entries(*map)),
        r.0 is Borrowed <==> r.1 == 0,
{
    let ghost entries = id_entries(*map);
    if map_is_empty(map) {
        proof {
            law_empty_map_substitutes_nothing(sql@, entries);
        }
        return (Cow::Borrowed(sql), 0);
    }
    let toks = tokenize(sql);
    let mut out = String::new();
    let mut count: usize = 0;
    let mut eligibility = Eligibility::Neutral;
    let ghost ls = lexemes(sql@);
    proof {
        crate::sql::lex::law_lexemes_adjacent(sql@);
    }
    for i in 0..toks.len()
        invariant
            ls == lexemes(sql@),
            entries == id_entries(*map),
            toks@.len() == ls.len(),
            forall|k: int| 0 <= k < toks@.len() ==> token_is(sql@, #[trigger] toks@[k], ls[k]),
            forall|k: int|
                0 <= k < ls.len() ==> 0 <= (#[trigger] ls[k]).start < ls[k].end && ls[k].end <= sql@.len(),
            out@ == substitution(sql@, entries, ls.take(i as int)).out,
            eligibility == substitution(sql@, entries, ls.take(i as int)).eligibility,
            count == substitution(sql@, entries, ls.take(i as int)).count,
            count <= i,
    {
        proof {
            assert(token_is(sql@, toks@[i as int], ls[i as int]));
            assert(ls[i as int].start < ls[i as int].end);
            assert(ls.take(i + 1).drop_last() =~= ls.take(i as int));
            assert(ls.take(i + 1).last() == ls[i as int]);
        }
        match find_replacement(map, eligibility, &toks[i]) {
            Some(s) => {
                out.push_str(s.as_str());
                count = count + 1;
            },
            None => {
                out.push_str(toks[i].text);
            },
        }
        eligibility = next_eligibility(eligibility, toks[i].kind, toks[i].text);
    }
    proof {
        assert(ls.take(ls.len() as int) =~= ls);
    }
    if count == 0 {
        proof {
            law_no_substitution_keeps_text(sql@, entries);
        }
        (Cow::Borrowed(sql), 0)
    } else {
        (Cow::Owned(out), count)
    }
}

} // verus!
