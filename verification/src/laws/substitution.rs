//! Laws of substituting captured IDs.

use crate::correlate::substitute::{replacement, substituted, substitution, substitution_count, Eligibility};
use crate::sql::lex::{lexeme_text, lexemes, TokenKind};
use crate::text::{ascii_uppercase, is_digit};
use vstd::prelude::*;

verus! {

// ── Which literals are looked up ────────────────────────────────────

/// A word behind which a value is expected.
pub open spec fn value_word(k: Seq<char>) -> bool {
    k == "WHERE"@ || k == "AND"@ || k == "OR"@ || k == "ON"@ || k == "IN"@ || k == "VALUES"@ || k == "SET"@ || k == "BETWEEN"@ || k == "HAVING"@
}

/// A word behind which a number of rows is expected.
pub open spec fn count_word(k: Seq<char>) -> bool {
    k == "LIMIT"@ || k == "OFFSET"@ || k == "FETCH"@
}

/// A word behind which a name is expected.
pub open spec fn name_word(k: Seq<char>) -> bool {
    k == "AS"@ || k == "FROM"@ || k == "JOIN"@ || k == "INTO"@ || k == "TABLE"@ || k == "INDEX"@
}

proof fn lemma_words_differ(k: Seq<char>)
    ensures
        !(value_word(k) && count_word(k)),
        !(value_word(k) && name_word(k)),
        !(count_word(k) && name_word(k)),
{
    reveal_strlit("WHERE");
    assert("WHERE"@[0] == 'W' && "WHERE"@[1] == 'H' && "WHERE"@.len() == 5);
    reveal_strlit("AND");
    assert("AND"@[0] == 'A' && "AND"@[1] == 'N' && "AND"@.len() == 3);
    reveal_strlit("OR");
    assert("OR"@[0] == 'O' && "OR"@[1] == 'R' && "OR"@.len() == 2);
    reveal_strlit("ON");
    assert("ON"@[0] == 'O' && "ON"@[1] == 'N' && "ON"@.len() == 2);
    reveal_strlit("IN");
    assert("IN"@[0] == 'I' && "IN"@[1] == 'N' && "IN"@.len() == 2);
    reveal_strlit("VALUES");
    assert("VALUES"@[0] == 'V' && "VALUES"@[1] == 'A' && "VALUES"@.len() == 6);
    reveal_strlit("SET");
    assert("SET"@[0] == 'S' && "SET"@[1] == 'E' && "SET"@.len() == 3);
    reveal_strlit("BETWEEN");
    assert("BETWEEN"@[0] == 'B' && "BETWEEN"@[1] == 'E' && "BETWEEN"@.len() == 7);
    reveal_strlit("HAVING");
    assert("HAVING"@[0] == 'H' && "HAVING"@[1] == 'A' && "HAVING"@.len() == 6);
    reveal_strlit("LIMIT");
    assert("LIMIT"@[0] == 'L' && "LIMIT"@[1] == 'I' && "LIMIT"@.len() == 5);
    reveal_strlit("OFFSET");
    assert("OFFSET"@[0] == 'O' && "OFFSET"@[1] == 'F' && "OFFSET"@.len() == 6);
    reveal_strlit("FETCH");
    assert("FETCH"@[0] == 'F' && "FETCH"@[1] == 'E' && "FETCH"@.len() == 5);
    reveal_strlit("AS");
    assert("AS"@[0] == 'A' && "AS"@[1] == 'S' && "AS"@.len() == 2);
    reveal_strlit("FROM");
    assert("FROM"@[0] == 'F' && "FROM"@[1] == 'R' && "FROM"@.len() == 4);
    reveal_strlit("JOIN");
    assert("JOIN"@[0] == 'J' && "JOIN"@[1] == 'O' && "JOIN"@.len() == 4);
    reveal_strlit("INTO");
    assert("INTO"@[0] == 'I' && "INTO"@[1] == 'N' && "INTO"@.len() == 4);
    reveal_strlit("TABLE");
    assert("TABLE"@[0] == 'T' && "TABLE"@[1] == 'A' && "TABLE"@.len() == 5);
    reveal_strlit("INDEX");
    assert("INDEX"@[0] == 'I' && "INDEX"@[1] == 'N' && "INDEX"@.len() == 5);
}

/// The kind of token `k`.
pub open spec fn kind_at(c: Seq<char>, k: int) -> TokenKind {
    lexemes(c)[k].kind
}

/// The text of token `k`.
pub open spec fn text_at(c: Seq<char>, k: int) -> Seq<char> {
    lexeme_text(c, lexemes(c)[k])
}

/// Whether token `k` is a literal.
pub open spec fn is_literal_at(c: Seq<char>, k: int) -> bool {
    kind_at(c, k) == TokenKind::StringLiteral || kind_at(c, k) == TokenKind::Number
}

/// Whether token `k` is one of `=`, `<` and `>`.
pub open spec fn compares_at(c: Seq<char>, k: int) -> bool {
    kind_at(c, k) == TokenKind::Punct && (text_at(c, k) == "="@ || text_at(c, k) == "<"@ || text_at(c, k) == ">"@)
}

/// Whether a value is expected behind token `k`.
pub open spec fn values_at(c: Seq<char>, k: int) -> bool {
    kind_at(c, k) == TokenKind::Ident && value_word(ascii_uppercase(text_at(c, k)))
}

/// Whether token `k` is LIMIT, OFFSET or FETCH.
pub open spec fn counts_at(c: Seq<char>, k: int) -> bool {
    kind_at(c, k) == TokenKind::Ident && count_word(ascii_uppercase(text_at(c, k)))
}

/// Whether token `k` is AS, FROM, JOIN, INTO, TABLE or INDEX.
pub open spec fn names_at(c: Seq<char>, k: int) -> bool {
    kind_at(c, k) == TokenKind::Ident && name_word(ascii_uppercase(text_at(c, k)))
}

/// Whether a number of rows, expected before token `k`, is expected behind it
/// still.
pub open spec fn keeps_count(c: Seq<char>, k: int) -> bool {
    !is_literal_at(c, k) && !compares_at(c, k) && !values_at(c, k) && !counts_at(c, k) && !names_at(c, k)
}

/// Whether a name, expected before token `k`, is expected behind it still.
pub open spec fn keeps_name(c: Seq<char>, k: int) -> bool {
    !is_literal_at(c, k) && !compares_at(c, k) && kind_at(c, k) != TokenKind::Ident && kind_at(c, k)
        != TokenKind::QuotedIdent
}

/// Whether a number of rows is expected at token `k`: LIMIT, OFFSET or FETCH
/// stands before it, and between them nothing that tells otherwise.
pub open spec fn expects_count(c: Seq<char>, k: int) -> bool {
    exists|j: int|
        0 <= j < k && #[trigger] counts_at(c, j) && forall|m: int| j < m < k ==> #[trigger]
            keeps_count(c, m)
}

/// Whether a name is expected at token `k`: AS, FROM, JOIN, INTO, TABLE or INDEX
/// stands before it, and between them neither a name nor a value.
pub open spec fn expects_name(c: Seq<char>, k: int) -> bool {
    exists|j: int|
        0 <= j < k && #[trigger] names_at(c, j) && forall|m: int| j < m < k ==> #[trigger]
            keeps_name(c, m)
}

proof fn lemma_expects_count_next(c: Seq<char>, k: int)
    requires
        0 <= k,
    ensures
        expects_count(c, k + 1) <==> counts_at(c, k) || (expects_count(c, k)
            && keeps_count(c, k)),
{
    if counts_at(c, k) {
        assert(forall|m: int| k < m < k + 1 ==> #[trigger] keeps_count(c, m));
    }
    if expects_count(c, k) && keeps_count(c, k) {
        let j = choose|j: int|
            0 <= j < k && #[trigger] counts_at(c, j) && forall|m: int| j < m < k ==> #[trigger]
                keeps_count(c, m);
        assert(forall|m: int| j < m < k + 1 ==> #[trigger] keeps_count(c, m));
    }
    if expects_count(c, k + 1) {
        let j = choose|j: int|
            0 <= j < k + 1 && #[trigger] counts_at(c, j) && forall|m: int|
                j < m < k + 1 ==> #[trigger] keeps_count(c, m);
        if j < k {
            assert(keeps_count(c, k));
        }
    }
}

proof fn lemma_expects_name_next(c: Seq<char>, k: int)
    requires
        0 <= k,
    ensures
        expects_name(c, k + 1) <==> names_at(c, k) || (expects_name(c, k)
            && keeps_name(c, k)),
{
    if names_at(c, k) {
        assert(forall|m: int| k < m < k + 1 ==> #[trigger] keeps_name(c, m));
    }
    if expects_name(c, k) && keeps_name(c, k) {
        let j = choose|j: int|
            0 <= j < k && #[trigger] names_at(c, j) && forall|m: int| j < m < k ==> #[trigger]
                keeps_name(c, m);
        assert(forall|m: int| j < m < k + 1 ==> #[trigger] keeps_name(c, m));
    }
    if expects_name(c, k + 1) {
        let j = choose|j: int|
            0 <= j < k + 1 && #[trigger] names_at(c, j) && forall|m: int|
                j < m < k + 1 ==> #[trigger] keeps_name(c, m);
        if j < k {
            assert(keeps_name(c, k));
        }
    }
}

proof fn lemma_state(c: Seq<char>, entries: Map<Seq<char>, Seq<char>>, k: int)
    requires
        0 <= k <= lexemes(c).len(),
    ensures
        ({
            let e = substitution(c, entries, lexemes(c).take(k)).eligibility;
            &&& e == Eligibility::Ineligible <==> expects_count(c, k)
            &&& e == Eligibility::IdentifierContext <==> expects_name(c, k)
        }),
    decreases k,
{
    if k > 0 {
        let ls = lexemes(c);
        lemma_state(c, entries, k - 1);
        lemma_expects_count_next(c, k - 1);
        lemma_expects_name_next(c, k - 1);
        lemma_words_differ(ascii_uppercase(text_at(c, k - 1)));
        assert(ls.take(k).drop_last() =~= ls.take(k - 1));
        assert(ls.take(k).last() == ls[k - 1]);
    }
}

// ── The text ────────────────────────────────────────────────────────

/// A text that reads as a number: nothing in it but digits, points, signs and
/// the letter of an exponent.
pub open spec fn reads_as_number(s: Seq<char>) -> bool {
    forall|i: int|
        0 <= i < s.len() ==> is_digit(#[trigger] s[i]) || s[i] == '.' || s[i] == '-' || s[i] == '+' || s[i] == 'e'
            || s[i] == 'E'
}

/// The text between the quotes of a literal, which an unterminated one has only
/// before it.
pub open spec fn between_quotes(t: Seq<char>) -> Seq<char> {
    if t.len() >= 2 && t[0] == '\'' && t[t.len() - 1] == '\'' {
        t.subrange(1, t.len() - 1)
    } else {
        t.subrange(1, t.len() as int)
    }
}

/// Whether token `k` is replaced: it is a literal, neither a number of rows nor
/// a name is expected in its place, and the entries hold it; a number only by
/// what reads as a number.
pub open spec fn is_replaced(c: Seq<char>, entries: Map<Seq<char>, Seq<char>>, k: int) -> bool {
    let t = text_at(c, k);
    &&& !expects_count(c, k)
    &&& !expects_name(c, k)
    &&& (kind_at(c, k) == TokenKind::StringLiteral && entries.contains_key(between_quotes(t))) || (kind_at(c, k)
        == TokenKind::Number && entries.contains_key(t) && reads_as_number(entries[t]))
}

/// What stands for token `k`.
pub open spec fn new_text_at(c: Seq<char>, entries: Map<Seq<char>, Seq<char>>, k: int) -> Seq<char> {
    let t = text_at(c, k);
    if !is_replaced(c, entries, k) {
        t
    } else if kind_at(c, k) == TokenKind::Number {
        entries[t]
    } else {
        seq!['\''] + entries[between_quotes(t)] + seq!['\'']
    }
}

/// What stands for the first `n` tokens, one behind the other.
pub open spec fn new_text(c: Seq<char>, entries: Map<Seq<char>, Seq<char>>, n: int) -> Seq<char>
    decreases n,
{
    if n <= 0 {
        Seq::empty()
    } else {
        new_text(c, entries, n - 1) + new_text_at(c, entries, n - 1)
    }
}

/// The number of replaced tokens among the first `n`.
pub open spec fn replaced_before(c: Seq<char>, entries: Map<Seq<char>, Seq<char>>, n: int) -> nat
    decreases n,
{
    if n <= 0 {
        0
    } else {
        replaced_before(c, entries, n - 1) + (if is_replaced(c, entries, n - 1) { 1nat } else { 0nat })
    }
}

proof fn lemma_new_text(c: Seq<char>, entries: Map<Seq<char>, Seq<char>>, n: int)
    requires
        0 <= n <= lexemes(c).len(),
    ensures
        substitution(c, entries, lexemes(c).take(n)).out == new_text(c, entries, n),
        substitution(c, entries, lexemes(c).take(n)).count == replaced_before(c, entries, n),
    decreases n,
{
    if n > 0 {
        let ls = lexemes(c);
        let k = n - 1;
        lemma_new_text(c, entries, k);
        lemma_state(c, entries, k);
        assert(ls.take(n).drop_last() =~= ls.take(k));
        assert(ls.take(n).last() == ls[k]);
        crate::sql::lex::law_lexemes_adjacent(c);
        let t = text_at(c, k);
        assert(t.len() > 0);
        assert(t.skip(1) =~= t.subrange(1, t.len() as int));
        let e = substitution(c, entries, ls.take(k)).eligibility;
        assert(replacement(entries, e, kind_at(c, k), t) is Some <==> is_replaced(c, entries, k));
    }
}

/// Every literal that the entries hold is replaced by its entry, a string in
/// quotes, unless a number of rows or a name is expected in its place; everything
/// else stays as it is, and the replacements are counted.
pub proof fn law_ids_are_replaced(c: Seq<char>, entries: Map<Seq<char>, Seq<char>>)
    ensures
        substituted(c, entries) == new_text(c, entries, lexemes(c).len() as int),
        substitution_count(c, entries) == replaced_before(c, entries, lexemes(c).len() as int),
{
    let ls = lexemes(c);
    lemma_new_text(c, entries, ls.len() as int);
    assert(ls.take(ls.len() as int) =~= ls);
}

/// A literal behind another is looked up, with nothing but space, commas and
/// brackets between them: in a list every ID is replaced.
pub proof fn law_listed_ids_are_replaced(c: Seq<char>, entries: Map<Seq<char>, Seq<char>>, j: int, k: int)
    requires
        0 <= j < k < lexemes(c).len(),
        is_literal_at(c, j),
        forall|m: int|
            j < m < k ==> #[trigger] kind_at(c, m) == TokenKind::Whitespace || (kind_at(c, m) == TokenKind::Punct),
    ensures
        kind_at(c, k) == TokenKind::Number && entries.contains_key(text_at(c, k)) && reads_as_number(
            entries[text_at(c, k)],
        ) ==> new_text_at(c, entries, k) == entries[text_at(c, k)],
        kind_at(c, k) == TokenKind::StringLiteral && entries.contains_key(between_quotes(text_at(c, k)))
            ==> new_text_at(c, entries, k) == seq!['\''] + entries[between_quotes(text_at(c, k))] + seq!['\''],
{
    if expects_count(c, k) {
        let i = choose|i: int|
            0 <= i < k && #[trigger] counts_at(c, i) && forall|m: int| i < m < k ==> #[trigger]
                keeps_count(c, m);
        if i < j {
            assert(keeps_count(c, j));
        } else {
            assert(kind_at(c, i) == TokenKind::Ident);
        }
    }
    if expects_name(c, k) {
        let i = choose|i: int|
            0 <= i < k && #[trigger] names_at(c, i) && forall|m: int| i < m < k ==> #[trigger]
                keeps_name(c, m);
        if i < j {
            assert(keeps_name(c, j));
        } else {
            assert(kind_at(c, i) == TokenKind::Ident);
        }
    }
}

} // verus!
