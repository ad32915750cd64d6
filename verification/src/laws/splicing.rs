//! Laws of parsed statements: which of them return rows, and where a clause is
//! put into their text.

use crate::correlate::capture::PkView;
use crate::laws::csv_log::is_trimmed;
use crate::laws::texts::law_first_match_is_found;
use crate::sql::ast::{
    any_returns, ast_injected, block_start, comment_start, first_insert, line_start, may_return, node_returns,
    pk_of, skip_comments, space_start, spliced, statement_end, StmtNode,
};
use crate::text::{
    ascii_uppercase, is_space, join, lemma_rfind_below, match_at, rfind_below, starts_with, trim_end,
    trim_start,
};
use vstd::prelude::*;

verus! {

// ── Statements that return rows ─────────────────────────────────────

/// Statements return rows just where one of them does.
pub proof fn law_one_that_returns_is_enough(s: Seq<StmtNode>)
    ensures
        any_returns(s) <==> exists|i: int| 0 <= i < s.len() && node_returns(#[trigger] s[i]),
    decreases s.len(),
{
    if s.len() > 0 {
        let t = s.subrange(1, s.len() as int);
        law_one_that_returns_is_enough(t);
        if any_returns(t) {
            let i = choose|i: int| 0 <= i < t.len() && node_returns(#[trigger] t[i]);
            assert(s[i + 1] == t[i]);
        }
        if exists|i: int| 0 <= i < s.len() && node_returns(#[trigger] s[i]) {
            let i = choose|i: int| 0 <= i < s.len() && node_returns(#[trigger] s[i]);
            if i > 0 {
                assert(t[i - 1] == s[i]);
            }
        }
    }
}

/// A write returns rows where it says so or where a query of its WITH clause
/// does, and a SELECT only for the latter reason; nothing else returns any.
pub proof fn law_writes_return_rows(returning: bool, target: Option<(String, String)>, ctes: Vec<StmtNode>)
    ensures
        node_returns(StmtNode::Insert { returning, target, ctes }) <==> returning || any_returns(ctes@),
        node_returns(StmtNode::Update { returning, ctes }) <==> returning || any_returns(ctes@),
        node_returns(StmtNode::Delete { returning, ctes }) <==> returning || any_returns(ctes@),
        node_returns(StmtNode::Merge { returning, ctes }) <==> returning || any_returns(ctes@),
        node_returns(StmtNode::Select { ctes }) <==> any_returns(ctes@),
        !node_returns(StmtNode::Other),
{
}

/// The first INSERT among statements is the one that counts.
pub proof fn law_first_insert_counts(s: Seq<StmtNode>, i: int, schema: String, table: String, ctes: Vec<StmtNode>)
    requires
        0 <= i < s.len(),
        s[i] == (StmtNode::Insert { returning: false, target: Some((schema, table)), ctes }),
        forall|j: int| 0 <= j < i ==> !((#[trigger] s[j]) is Insert),
    ensures
        first_insert(s) == Some(Some((schema@, table@))),
    decreases i,
{
    if i > 0 {
        let t = s.skip(1);
        assert(!(s[0] is Insert));
        assert(t[i - 1] == s[i]);
        assert forall|j: int| 0 <= j < i - 1 implies !((#[trigger] t[j]) is Insert) by {
            assert(!(s[j + 1] is Insert));
        }
        law_first_insert_counts(t, i - 1, schema, table, ctes);
    }
}

/// A key belongs to a table by its name, and by its schema where one is given;
/// the first such key is taken.
pub proof fn law_key_of_a_table(pks: Seq<PkView>, schema: Seq<char>, table: Seq<char>, i: int)
    requires
        0 <= i < pks.len(),
        forall|j: int|
            0 <= j < i ==> (#[trigger] pks[j]).table != table || (schema.len() > 0 && pks[j].schema != schema),
    ensures
        pks[i].table == table && (schema.len() == 0 || pks[i].schema == schema) ==> pk_of(pks, schema, table) == Some(
            pks[i],
        ),
        i == pks.len() - 1 && (pks[i].table != table || (schema.len() > 0 && pks[i].schema != schema)) ==> pk_of(
            pks,
            schema,
            table,
        ) is None,
    decreases i,
{
    if i > 0 {
        let t = pks.skip(1);
        assert(pks[0].table != table || (schema.len() > 0 && pks[0].schema != schema));
        assert(t[i - 1] == pks[i]);
        assert forall|j: int| 0 <= j < i - 1 implies (#[trigger] t[j]).table != table || (schema.len() > 0
            && t[j].schema != schema) by {
            assert(t[j] == pks[j + 1]);
        }
        law_key_of_a_table(t, schema, table, i - 1);
    } else {
        assert(pk_of(pks.skip(1), schema, table) is None || pks.len() > 1);
    }
}

// ── The cheap test ──────────────────────────────────────────────────

proof fn lemma_line_comment_skipped(t: Seq<char>, rest: Seq<char>)
    requires
        forall|i: int| 0 <= i < t.len() ==> #[trigger] t[i] != '\n',
    ensures
        skip_comments(seq!['-', '-'] + t + seq!['\n'] + rest) == skip_comments(rest),
{
    let a = seq!['-', '-'] + t + seq!['\n'] + rest;
    let n = t.len() as int + 2;
    assert(a[0] == '-');
    assert(trim_start(a) == a);
    assert(a.subrange(0, 2) =~= seq!['-', '-']);
    assert(a.subrange(n, n + 1) =~= seq!['\n']);
    assert(match_at(a, seq!['\n'], n));
    assert forall|k: int| 2 <= k < n implies !match_at(a, seq!['\n'], k) by {
        if match_at(a, seq!['\n'], k) {
            assert(a.subrange(k, k + 1)[0] == a[k]);
            assert(a[k] == t[k - 2]);
        }
    }
    law_first_match_is_found(a, seq!['\n'], 2, n);
    assert(a.skip(n + 1) =~= rest);
}

proof fn lemma_block_comment_skipped(t: Seq<char>, rest: Seq<char>)
    requires
        forall|i: int| 0 <= i < t.len() ==> #[trigger] t[i] != '*',
    ensures
        skip_comments(seq!['/', '*'] + t + seq!['*', '/'] + rest) == skip_comments(rest),
{
    let b = seq!['/', '*'] + t + seq!['*', '/'] + rest;
    let n = t.len() as int + 2;
    assert(b[0] == '/');
    assert(trim_start(b) == b);
    if starts_with(b, seq!['-', '-']) {
        assert(b.subrange(0, 2)[0] == b[0]);
    }
    assert(b.subrange(0, 2) =~= seq!['/', '*']);
    assert(b.subrange(n, n + 2) =~= seq!['*', '/']);
    assert(match_at(b, seq!['*', '/'], n));
    assert forall|k: int| 2 <= k < n implies !match_at(b, seq!['*', '/'], k) by {
        if match_at(b, seq!['*', '/'], k) {
            assert(b.subrange(k, k + 2)[0] == b[k]);
            assert(b[k] == t[k - 2]);
        }
    }
    law_first_match_is_found(b, seq!['*', '/'], 2, n);
    assert(b.skip(n + 2) =~= rest);
}

proof fn lemma_no_comment_kept(rest: Seq<char>)
    requires
        rest.len() > 0,
        !is_space(rest[0]),
        rest[0] != '-',
        rest[0] != '/',
    ensures
        skip_comments(rest) == rest,
{
    assert(trim_start(rest) == rest);
    if starts_with(rest, seq!['-', '-']) {
        assert(rest.subrange(0, 2)[0] == rest[0]);
    }
    if starts_with(rest, seq!['/', '*']) {
        assert(rest.subrange(0, 2)[0] == rest[0]);
    }
}

/// Comments before a statement are skipped, and nothing of the statement.
pub proof fn law_leading_comments_are_skipped(t: Seq<char>, rest: Seq<char>)
    requires
        forall|i: int| 0 <= i < t.len() ==> #[trigger] t[i] != '\n' && t[i] != '*',
    ensures
        skip_comments(seq!['-', '-'] + t + seq!['\n'] + rest) == skip_comments(rest),
        skip_comments(seq!['/', '*'] + t + seq!['*', '/'] + rest) == skip_comments(rest),
        rest.len() > 0 && !is_space(rest[0]) && rest[0] != '-' && rest[0] != '/' ==> skip_comments(rest) == rest,
{
    lemma_line_comment_skipped(t, rest);
    lemma_block_comment_skipped(t, rest);
    if rest.len() > 0 && !is_space(rest[0]) && rest[0] != '-' && rest[0] != '/' {
        lemma_no_comment_kept(rest);
    }
}

proof fn lemma_word_may_return(w: Seq<char>, rest: Seq<char>)
    requires
        0 < w.len() <= 8,
        forall|i: int| 0 <= i < w.len() ==> 'A' <= #[trigger] w[i] <= 'Z',
    ensures
        ({
            let t = skip_comments(w + rest);
            let u = ascii_uppercase(if t.len() > 8 { t.take(8) } else { t });
            starts_with(u, w)
        }),
{
    let c = w + rest;
    assert(c[0] == w[0]);
    assert(trim_start(c) == c);
    if starts_with(c, seq!['-', '-']) {
        assert(c.subrange(0, 2)[0] == c[0]);
    }
    if starts_with(c, seq!['/', '*']) {
        assert(c.subrange(0, 2)[0] == c[0]);
    }
    let h = if c.len() > 8 { c.take(8) } else { c };
    let u = ascii_uppercase(h);
    assert forall|i: int| 0 <= i < w.len() implies u[i] == #[trigger] w[i] by {
        assert(h[i] == w[i]);
    }
    assert(u.subrange(0, w.len() as int) =~= w);
}

/// A statement may return rows where it begins with the word of a write or with
/// WITH, and not where it begins with another letter.
pub proof fn law_writes_may_return(rest: Seq<char>)
    ensures
        may_return("INSERT"@ + rest),
        may_return("UPDATE"@ + rest),
        may_return("DELETE"@ + rest),
        may_return("MERGE"@ + rest),
        may_return("WITH"@ + rest),
        !may_return("SELECT"@ + rest),
        !may_return("CREATE"@ + rest),
{
    reveal_strlit("INSERT");
    reveal_strlit("UPDATE");
    reveal_strlit("DELETE");
    reveal_strlit("MERGE");
    reveal_strlit("WITH");
    reveal_strlit("SELECT");
    reveal_strlit("CREATE");
    lemma_word_may_return("INSERT"@, rest);
    lemma_word_may_return("UPDATE"@, rest);
    lemma_word_may_return("DELETE"@, rest);
    lemma_word_may_return("MERGE"@, rest);
    lemma_word_may_return("WITH"@, rest);
    lemma_word_may_return("SELECT"@, rest);
    lemma_word_may_return("CREATE"@, rest);
    assert forall|u: Seq<char>, p: Seq<char>, q: Seq<char>|
        p.len() > 0 && q.len() > 0 && #[trigger] starts_with(u, p) && #[trigger] starts_with(u, q) implies p[0]
        == q[0] by {
        assert(u.subrange(0, p.len() as int)[0] == u[0]);
        assert(u.subrange(0, q.len() as int)[0] == u[0]);
    }
}

// ── The end of a statement ──────────────────────────────────────────

proof fn lemma_no_comment_start(c: Seq<char>, i: int, end: int, in_string: bool)
    requires
        0 <= i,
        end <= c.len(),
        forall|k: int| 0 <= k < end - 1 ==> !(#[trigger] c[k] == '-' && c[k + 1] == '-'),
    ensures
        comment_start(c, i, end, in_string) is None,
    decreases end - i,
{
    if i >= end {
    } else if in_string && c[i] == '\'' && i + 1 < end && c[i + 1] == '\'' {
        lemma_no_comment_start(c, i + 2, end, in_string);
    } else if c[i] == '\'' {
        lemma_no_comment_start(c, i + 1, end, !in_string);
    } else {
        if i < end - 1 {
            assert(!(c[i] == '-' && c[i + 1] == '-'));
        }
        lemma_no_comment_start(c, i + 1, end, in_string);
    }
}

proof fn lemma_comment_found(c: Seq<char>, i: int, d: int, end: int)
    requires
        0 <= i <= d,
        d + 1 < end <= c.len(),
        c[d] == '-',
        c[d + 1] == '-',
        forall|k: int| i <= k < d ==> #[trigger] c[k] != '\'' && !(c[k] == '-' && c[k + 1] == '-'),
    ensures
        comment_start(c, i, end, false) == Some(d),
    decreases d - i,
{
    if i < d {
        assert(c[i] != '\'' && !(c[i] == '-' && c[i + 1] == '-'));
        lemma_comment_found(c, i + 1, d, end);
    }
}

/// The text of a statement: it ends in neither white space nor a semicolon nor a
/// comment, and holds no two dashes.
pub open spec fn is_statement_text(s: Seq<char>) -> bool {
    &&& is_trimmed(s)
    &&& s.last() != ';'
    &&& s.last() != '/'
    &&& forall|k: int| 0 <= k < s.len() - 1 ==> !(#[trigger] s[k] == '-' && s[k + 1] == '-')
}

proof fn lemma_end_of_statement(c: Seq<char>, n: int)
    requires
        0 < n <= c.len(),
        is_statement_text(c.take(n)),
    ensures
        statement_end(c, n) == n,
{
    let s = c.take(n);
    assert(c[n - 1] == s.last());
    assert(space_start(c, n) == n);
    assert forall|k: int| 0 <= k < n - 1 implies !(#[trigger] c[k] == '-' && c[k + 1] == '-') by {
        assert(s[k] == c[k] && s[k + 1] == c[k + 1]);
    }
    lemma_rfind_below(c, seq!['\n'], n);
    lemma_no_comment_start(c, line_start(c, n), n, false);
    assert(block_start(c, n) is None) by {
        if n >= 2 && match_at(c, seq!['*', '/'], n - 2) {
            assert(c.subrange(n - 2, n)[1] == c[n - 1]);
        }
    }
}

proof fn lemma_kept_end(s: Seq<char>)
    requires
        is_trimmed(s),
    ensures
        trim_end(s) == s,
{
}

/// The clause goes to the end of a statement, before a semicolon behind it; the
/// statement and the semicolon stay.
pub proof fn law_clause_goes_before_the_semicolon(s: Seq<char>, columns: Seq<char>)
    requires
        is_statement_text(s),
    ensures
        spliced(s, columns) == s + " RETURNING "@ + columns,
        spliced(s + seq![';'], columns) == s + " RETURNING "@ + columns + seq![';'],
{
    let n = s.len() as int;
    let none = Seq::<char>::empty();
    assert(s.take(n) =~= s);
    lemma_end_of_statement(s, n);
    lemma_kept_end(s);
    assert(s.skip(n) =~= none);
    assert(s + " RETURNING "@ + columns + none + none =~= s + " RETURNING "@ + columns);
    let c = s + seq![';'];
    assert(c.take(n) =~= s);
    lemma_end_of_statement(c, n);
    assert(c[n] == ';');
    assert(space_start(c, n + 1) == n + 1);
    assert forall|k: int| 0 <= k < n implies !(#[trigger] c[k] == '-' && c[k + 1] == '-') by {
        if k < n - 1 {
            assert(c[k] == s[k] && c[k + 1] == s[k + 1]);
        }
    }
    lemma_rfind_below(c, seq!['\n'], n + 1);
    lemma_no_comment_start(c, line_start(c, n + 1), n + 1, false);
    assert(block_start(c, n + 1) is None) by {
        if match_at(c, seq!['*', '/'], n - 1) {
            assert(c.subrange(n - 1, n + 1)[1] == c[n]);
        }
    }
    assert(statement_end(c, n + 1) == statement_end(c, n));
    assert(c.skip(n) =~= seq![';']);
    assert(s + " RETURNING "@ + columns + none + seq![';'] =~= s + " RETURNING "@ + columns + seq![';']);
}

/// The clause goes before a comment behind the statement, which stays.
pub proof fn law_clause_goes_before_a_comment(s: Seq<char>, note: Seq<char>, columns: Seq<char>)
    requires
        is_statement_text(s),
        forall|k: int| 0 <= k < s.len() ==> #[trigger] s[k] != '\'',
        is_trimmed(note),
        forall|k: int| 0 <= k < note.len() ==> #[trigger] note[k] != '\n',
    ensures
        spliced(s + " --"@ + note, columns) == s + " RETURNING "@ + columns + (" --"@ + note),
{
    reveal_strlit(" --");
    let none = Seq::<char>::empty();
    let c = s + " --"@ + note;
    let n = s.len() as int;
    let all = c.len() as int;
    assert(c.last() == note.last());
    assert(space_start(c, all) == all);
    lemma_rfind_below(c, seq!['\n'], all);
    let l = line_start(c, all);
    assert(l <= n + 1) by {
        if rfind_below(c, seq!['\n'], all) is Some {
            let i = rfind_below(c, seq!['\n'], all)->0;
            assert(c.subrange(i, i + 1)[0] == c[i]);
            if i >= n + 3 {
                assert(c[i] == note[i - n - 3]);
            }
        }
    }
    assert forall|k: int| l <= k < n + 1 implies #[trigger] c[k] != '\'' && !(c[k] == '-' && c[k + 1] == '-') by {
        if k < n {
            assert(c[k] == s[k]);
            if k < n - 1 {
                assert(c[k + 1] == s[k + 1]);
            }
        }
    }
    assert(c[n] == ' ' && c[n + 1] == '-' && c[n + 2] == '-');
    lemma_comment_found(c, l, n + 1, all);
    assert(c.take(n) =~= s);
    lemma_end_of_statement(c, n);
    assert(space_start(c, n + 1) == space_start(c, n));
    assert(space_start(c, n) == n) by {
        assert(c[n - 1] == s.last());
    }
    assert(statement_end(c, n + 1) == statement_end(c, n));
    assert(statement_end(c, all) == statement_end(c, n + 1));
    lemma_kept_end(s);
    assert(c.skip(n) =~= " --"@ + note);
    assert(c.skip(n)[0] == ' ');
    assert(s + " RETURNING "@ + columns + none + (" --"@ + note) =~= s + " RETURNING "@ + columns + (" --"@ + note));
}

/// A parsed INSERT without a RETURNING clause, into a table with a known key, is
/// given one for the columns of that key; where a statement returns rows
/// already, or none is an INSERT, nothing is changed.
pub proof fn law_parsed_insert_is_given_a_clause(
    c: Seq<char>,
    pks: Seq<PkView>,
    stmts: Seq<StmtNode>,
    schema: Seq<char>,
    table: Seq<char>,
)
    ensures
        any_returns(stmts) ==> ast_injected(c, pks, stmts) is None,
        first_insert(stmts) is None ==> ast_injected(c, pks, stmts) is None,
        !any_returns(stmts) && first_insert(stmts) == Some(Some((schema, table))) ==> (ast_injected(c, pks, stmts)
            is Some <==> pk_of(pks, schema, table) is Some),
        !any_returns(stmts) && first_insert(stmts) == Some(Some((schema, table))) && pk_of(pks, schema, table) is Some
            ==> ast_injected(c, pks, stmts) == Some(spliced(c, join(pk_of(pks, schema, table)->0.columns, ", "@))),
{
}

} // verus!
