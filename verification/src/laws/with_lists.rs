//! Laws of statements that begin with WITH: which brackets belong together, and
//! what kind such a statement has.

use crate::profile::{can_begin, kind_of_upper, with_kind, write_at, QueryKind};
use crate::sql::lex::{lexemes, TokenKind};
use crate::sql::words::{ident_at, ident_behind, next_token, opening_of, previous_token, punct_at, separates};
use crate::text::starts_with;
use vstd::prelude::*;

verus! {

// ── Tokens ──────────────────────────────────────────────────────────

/// The next token that counts is the first one behind others that only separate,
/// and the previous one the last before such.
pub proof fn law_separators_are_passed_over(c: Seq<char>, i: int, k: int)
    requires
        0 <= i < k < lexemes(c).len(),
        !separates(lexemes(c)[i].kind),
        !separates(lexemes(c)[k].kind),
        forall|j: int| i < j < k ==> separates((#[trigger] lexemes(c)[j]).kind),
    ensures
        next_token(c, i + 1) == k,
        previous_token(c, k) == i,
{
    lemma_next(c, i + 1, k);
    lemma_previous(c, k, i);
}

proof fn lemma_next(c: Seq<char>, j: int, k: int)
    requires
        0 <= j <= k < lexemes(c).len(),
        !separates(lexemes(c)[k].kind),
        forall|x: int| j <= x < k ==> separates((#[trigger] lexemes(c)[x]).kind),
    ensures
        next_token(c, j) == k,
    decreases k - j,
{
    if j < k {
        assert(separates(lexemes(c)[j].kind));
        lemma_next(c, j + 1, k);
    }
}

proof fn lemma_previous(c: Seq<char>, j: int, i: int)
    requires
        0 <= i < j <= lexemes(c).len(),
        !separates(lexemes(c)[i].kind),
        forall|x: int| i < x < j ==> separates((#[trigger] lexemes(c)[x]).kind),
    ensures
        previous_token(c, j) == i,
    decreases j - i,
{
    if j - 1 > i {
        assert(separates(lexemes(c)[j - 1].kind));
        lemma_previous(c, j - 1, i);
    }
}

/// White space and comments separate tokens, and nothing else does.
pub proof fn law_separators(kind: TokenKind)
    ensures
        separates(TokenKind::Whitespace),
        separates(TokenKind::LineComment),
        separates(TokenKind::BlockComment),
        separates(kind) ==> kind == TokenKind::Whitespace || kind == TokenKind::LineComment || kind
            == TokenKind::BlockComment,
{
}

// ── Brackets ────────────────────────────────────────────────────────

proof fn lemma_pair_passed_over(c: Seq<char>, k: int, e: nat, d: nat)
    requires
        opening_of(c, k, e) >= 0,
    ensures
        opening_of(c, k, e + 1 + d) == opening_of(c, opening_of(c, k, e), d),
    decreases k,
{
    reveal_strlit("(");
    reveal_strlit(")");
    assert("("@[0] == '(' && ")"@[0] == ')');
    if k > 0 {
        if punct_at(c, k - 1, ")"@) {
            lemma_pair_passed_over(c, k - 1, e + 1, d);
        } else if punct_at(c, k - 1, "("@) {
            if e > 0 {
                lemma_pair_passed_over(c, k - 1, (e - 1) as nat, d);
            }
        } else {
            lemma_pair_passed_over(c, k - 1, e, d);
        }
    }
}

/// The bracket that is open before a token is the one right before it, if that
/// is an opening one; a token that is no bracket changes nothing; and a closing
/// one takes away what belongs to it, so that what was open before its own
/// opening bracket is open again.
pub proof fn law_brackets_belong_together(c: Seq<char>, k: int)
    requires
        0 <= k < lexemes(c).len(),
    ensures
        punct_at(c, k, "("@) ==> opening_of(c, k + 1, 0) == k,
        !punct_at(c, k, "("@) && !punct_at(c, k, ")"@) ==> opening_of(c, k + 1, 0) == opening_of(c, k, 0),
        punct_at(c, k, ")"@) && opening_of(c, k, 0) >= 0 ==> opening_of(c, k + 1, 0) == opening_of(
            c,
            opening_of(c, k, 0),
            0,
        ),
        opening_of(c, 0, 0) == -1,
{
    reveal_strlit("(");
    reveal_strlit(")");
    assert("("@[0] == '(' && ")"@[0] == ')');
    if punct_at(c, k, ")"@) && opening_of(c, k, 0) >= 0 {
        lemma_pair_passed_over(c, k, 0, 0);
    }
}

// ── The kind ────────────────────────────────────────────────────────

/// A statement of a WITH list begins behind the bracket that AS or MATERIALIZED
/// stands before, and the main one behind the bracket that closes such a query;
/// none begins behind any other punctuation.
pub proof fn law_where_statements_begin(u: Seq<char>, k: int, p: int)
    requires
        previous_token(u, k) == p,
        0 <= p < lexemes(u).len(),
    ensures
        punct_at(u, p, "("@) && (ident_at(u, previous_token(u, p), "AS"@) || ident_at(
            u,
            previous_token(u, p),
            "MATERIALIZED"@,
        )) ==> can_begin(u, k),
        punct_at(u, p, ")"@) && punct_at(u, opening_of(u, p, 0), "("@) && ident_at(
            u,
            previous_token(u, opening_of(u, p, 0)),
            "AS"@,
        ) ==> can_begin(u, k),
        lexemes(u)[p].kind == TokenKind::Punct && !punct_at(u, p, "("@) && !punct_at(u, p, ")"@) ==> !can_begin(u, k),
        punct_at(u, p, "("@) && !ident_at(u, previous_token(u, p), "AS"@) && !ident_at(
            u,
            previous_token(u, p),
            "MATERIALIZED"@,
        ) ==> !can_begin(u, k),
{
    reveal_strlit("(");
    reveal_strlit(")");
    assert("("@[0] == '(' && ")"@[0] == ')');
}

/// A word that can begin a statement begins a write of its kind: INSERT and MERGE
/// with INTO behind them, DELETE with FROM, UPDATE with a SET further on; no
/// other word does, and none where no statement begins.
pub proof fn law_writes_of_a_with_list(u: Seq<char>, k: int)
    ensures
        !can_begin(u, k) ==> write_at(u, k) is None,
        can_begin(u, k) && ident_at(u, k, "INSERT"@) && ident_at(u, next_token(u, k + 1), "INTO"@) ==> write_at(u, k)
            == Some(QueryKind::Insert),
        can_begin(u, k) && ident_at(u, k, "UPDATE"@) && ident_behind(u, k, "SET"@) ==> write_at(u, k) == Some(
            QueryKind::Update,
        ),
        can_begin(u, k) && ident_at(u, k, "DELETE"@) && ident_at(u, next_token(u, k + 1), "FROM"@) ==> write_at(u, k)
            == Some(QueryKind::Delete),
        can_begin(u, k) && ident_at(u, k, "MERGE"@) && ident_at(u, next_token(u, k + 1), "INTO"@) ==> write_at(u, k)
            == Some(QueryKind::Other),
        ident_at(u, k, "SELECT"@) ==> write_at(u, k) is None,
{
    reveal_strlit("INSERT");
    reveal_strlit("UPDATE");
    reveal_strlit("DELETE");
    reveal_strlit("MERGE");
    reveal_strlit("SELECT");
    assert("INSERT"@[0] == 'I');
    assert("UPDATE"@[0] == 'U');
    assert("DELETE"@[0] == 'D');
    assert("MERGE"@[0] == 'M');
    assert("SELECT"@[0] == 'S');
}

/// A statement that begins with WITH has the kind of its first write, and is a
/// SELECT where it has none.
pub proof fn law_first_write_gives_the_kind(u: Seq<char>, k: int)
    requires
        starts_with(u, "WITH"@),
        0 <= k,
        forall|j: int| 0 <= j < k ==> #[trigger] write_at(u, j) is None,
    ensures
        k < lexemes(u).len() && write_at(u, k) is Some ==> kind_of_upper(u) == write_at(u, k)->0,
        k >= lexemes(u).len() ==> kind_of_upper(u) == QueryKind::Select,
{
    reveal_strlit("SELECT");
    reveal_strlit("WITH");
    if starts_with(u, "SELECT"@) {
        assert(u.subrange(0, 6)[0] == u[0]);
        assert(u.subrange(0, 4)[0] == u[0]);
    }
    lemma_kind_from(u, 0, k);
}

proof fn lemma_kind_from(u: Seq<char>, i: int, k: int)
    requires
        0 <= i <= k,
        forall|j: int| 0 <= j < k ==> #[trigger] write_at(u, j) is None,
    ensures
        k < lexemes(u).len() && write_at(u, k) is Some ==> with_kind(u, i) == write_at(u, k)->0,
        k >= lexemes(u).len() ==> with_kind(u, i) == QueryKind::Select,
    decreases k - i,
{
    if i < k && i < lexemes(u).len() {
        assert(write_at(u, i) is None);
        lemma_kind_from(u, i + 1, k);
    }
}

/// A name behind SET or USING ends a SEARCH or CYCLE clause, so that a statement
/// can begin behind it.
pub proof fn law_search_clauses_end(u: Seq<char>, k: int, p: int)
    requires
        previous_token(u, k) == p,
        0 <= p < lexemes(u).len(),
        lexemes(u)[p].kind == TokenKind::Ident || lexemes(u)[p].kind == TokenKind::QuotedIdent,
    ensures
        can_begin(u, k) <==> ident_at(u, previous_token(u, p), "SET"@) || ident_at(
            u,
            previous_token(u, p),
            "USING"@,
        ),
{
}

} // verus!
