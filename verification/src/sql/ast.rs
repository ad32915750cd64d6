//! RETURNING detection and RETURNING splice points from a parsed statement.
//!
//! The parser is PostgreSQL's own, outside this library; a statement comes as
//! the parts of its tree that matter here. Hot-path callers should ask
//! `might_have_returning` before they parse.

use crate::correlate::capture::{pk_views, PkView, TablePk};
use crate::text::{
    ascii_uppercase, char_is_ascii_letter, char_is_ascii_space, chars_start_with, copy_string,
    find_chars_from, find_from, is_ascii_letter, is_ascii_space, is_match_at, join, join_strings,
    lemma_find_from, lemma_rfind_below, match_at, push_chars, rfind_below, rfind_chars_below, starts_with,
    str_eq, to_ascii_uppercase, to_chars, trim_end, trim_end_slice, trim_start, trim_start_len,
};
use vstd::prelude::*;
use vstd::slice::slice_subrange;

verus! {

/// Errors returned by the functions in this module.
#[derive(Debug)]
pub enum AstError {
    /// The parser refused the statement.
    Parse(String),
    /// The tree has not the expected shape.
    Shape(String),
}

/// The words of a parse error.
pub open spec fn parse_failed(e: AstError) -> Option<Seq<char>> {
    match e {
        AstError::Parse(s) => Some(s@),
        AstError::Shape(_) => None,
    }
}

impl AstError {
    /// The error in words.
    pub fn message(&self) -> (r: String)
        ensures
            r@ == match *self {
                AstError::Parse(s) => "pg_query parse failed: "@ + s@,
                AstError::Shape(s) => "unexpected AST shape: "@ + s@,
            },
    {
        let mut out = String::new();
        match self {
            AstError::Parse(s) => {
                out.push_str("pg_query parse failed: ");
                out.push_str(s.as_str());
                proof {
                    assert(out@ =~= "pg_query parse failed: "@ + s@);
                }
            },
            AstError::Shape(s) => {
                out.push_str("unexpected AST shape: ");
                out.push_str(s.as_str());
                proof {
                    assert(out@ =~= "unexpected AST shape: "@ + s@);
                }
            },
        }
        out
    }
}

/// A parsed statement, with the queries of its WITH clause.
#[derive(Debug)]
pub enum StmtNode {
    /// An INSERT, with schema (empty if not given) and table of its target.
    Insert { returning: bool, target: Option<(String, String)>, ctes: Vec<StmtNode> },
    Update { returning: bool, ctes: Vec<StmtNode> },
    Delete { returning: bool, ctes: Vec<StmtNode> },
    Merge { returning: bool, ctes: Vec<StmtNode> },
    Select { ctes: Vec<StmtNode> },
    Other,
}

/// Whether a statement, or a query of its WITH clause, is a write with a
/// RETURNING clause.
pub open spec fn node_returns(n: StmtNode) -> bool
    decreases n,
{
    match n {
        StmtNode::Insert { returning, target, ctes } => returning || any_returns(ctes@),
        StmtNode::Update { returning, ctes } => returning || any_returns(ctes@),
        StmtNode::Delete { returning, ctes } => returning || any_returns(ctes@),
        StmtNode::Merge { returning, ctes } => returning || any_returns(ctes@),
        StmtNode::Select { ctes } => any_returns(ctes@),
        StmtNode::Other => false,
    }
}

/// Whether one of the statements has a RETURNING clause.
pub open spec fn any_returns(s: Seq<StmtNode>) -> bool
    decreases s,
{
    s.len() > 0 && (node_returns(s[0]) || any_returns(s.subrange(1, s.len() as int)))
}

fn node_has_returning(n: &StmtNode) -> (r: bool)
    ensures
        r == node_returns(*n),
    decreases n, 0int,
{
    match n {
        StmtNode::Insert { returning, target, ctes } => *returning || any_has_returning(ctes),
        StmtNode::Update { returning, ctes } => *returning || any_has_returning(ctes),
        StmtNode::Delete { returning, ctes } => *returning || any_has_returning(ctes),
        StmtNode::Merge { returning, ctes } => *returning || any_has_returning(ctes),
        StmtNode::Select { ctes } => any_has_returning(ctes),
        StmtNode::Other => false,
    }
}

fn any_has_returning(s: &Vec<StmtNode>) -> (r: bool)
    ensures
        r == any_returns(s@),
    decreases s, 1int,
{
    let mut i: usize = 0;
    proof {
        assert(s@.subrange(0, s@.len() as int) =~= s@);
    }
    while i < s.len()
        invariant
            i <= s@.len(),
            any_returns(s@) == any_returns(s@.subrange(i as int, s@.len() as int)),
        decreases s@.len() - i,
    {
        proof {
            let t = s@.subrange(i as int, s@.len() as int);
            assert(t[0] == s@[i as int]);
            assert(t.subrange(1, t.len() as int) =~= s@.subrange(i + 1, s@.len() as int));
            assert(decreases_to!(*s => s@[i as int]));
        }
        if node_has_returning(&s[i]) {
            return true;
        }
        i = i + 1;
    }
    false
}

// ── The cheap test ──────────────────────────────────────────────────

/// A text without its leading white space and comments.
pub open spec fn skip_comments(c: Seq<char>) -> Seq<char>
    decreases c.len(),
    via skip_comments_ends
{
    let t = trim_start(c);
    if starts_with(t, seq!['-', '-']) {
        match find_from(t, seq!['\n'], 2) {
            Some(i) => skip_comments(t.skip(i + 1)),
            None => Seq::empty(),
        }
    } else if starts_with(t, seq!['/', '*']) {
        match find_from(t, seq!['*', '/'], 2) {
            Some(i) => skip_comments(t.skip(i + 2)),
            None => Seq::empty(),
        }
    } else {
        t
    }
}

#[via_fn]
proof fn skip_comments_ends(c: Seq<char>) {
    lemma_trim_start_len(c);
    lemma_find_from(trim_start(c), seq!['\n'], 2);
    lemma_find_from(trim_start(c), seq!['*', '/'], 2);
}

proof fn lemma_trim_start_len(c: Seq<char>)
    ensures
        trim_start(c).len() <= c.len(),
    decreases c.len(),
{
    if c.len() > 0 && crate::text::is_space(c[0]) {
        lemma_trim_start_len(c.skip(1));
    }
}

/// Whether a statement begins with a word that can have a RETURNING clause, or
/// with WITH, behind white space and comments.
pub open spec fn may_return(c: Seq<char>) -> bool {
    let t = skip_comments(c);
    let u = ascii_uppercase(if t.len() > 8 { t.take(8) } else { t });
    starts_with(u, "INSERT"@) || starts_with(u, "UPDATE"@) || starts_with(u, "DELETE"@) || starts_with(
        u,
        "MERGE"@,
    ) || starts_with(u, "WITH"@)
}

fn skip_leading_whitespace_and_comments(c: &[char]) -> (r: &[char])
    ensures
        r@ == skip_comments(c@),
{
    let dashes: [char; 2] = ['-', '-'];
    let open: [char; 2] = ['/', '*'];
    let close: [char; 2] = ['*', '/'];
    let newline: [char; 1] = ['\n'];
    proof {
        assert(dashes@ =~= seq!['-', '-']);
        assert(open@ =~= seq!['/', '*']);
        assert(close@ =~= seq!['*', '/']);
        assert(newline@ =~= seq!['\n']);
        assert(c@.skip(0) =~= c@);
    }
    let n: usize = c.len();
    let mut at: usize = 0;
    loop
        invariant
            at <= n,
            n == c@.len(),
            dashes@ == seq!['-', '-'],
            open@ == seq!['/', '*'],
            close@ == seq!['*', '/'],
            newline@ == seq!['\n'],
            skip_comments(c@.skip(at as int)) == skip_comments(c@),
        decreases n - at,
    {
        let rest = slice_subrange(c, at, n);
        proof {
            assert(rest@ =~= c@.skip(at as int));
        }
        let lead = trim_start_len(rest);
        let t = slice_subrange(rest, lead, rest.len());
        proof {
            assert(t@ =~= rest@.skip(lead as int));
            assert(t@ =~= trim_start(c@.skip(at as int)));
            lemma_find_from(t@, seq!['\n'], 2);
            lemma_find_from(t@, seq!['*', '/'], 2);
        }
        let from: usize = at + lead;
        if chars_start_with(t, &dashes) {
            match find_chars_from(t, &newline, 2) {
                Some(i) => {
                    proof {
                        assert(t@.skip(i + 1) =~= c@.skip(from + i + 1));
                    }
                    at = from + i + 1;
                },
                None => {
                    let r = slice_subrange(c, n, n);
                    proof {
                        assert(r@ =~= Seq::<char>::empty());
                    }
                    return r;
                },
            }
        } else if chars_start_with(t, &open) {
            match find_chars_from(t, &close, 2) {
                Some(i) => {
                    proof {
                        assert(t@.skip(i + 2) =~= c@.skip(from + i + 2));
                    }
                    at = from + i + 2;
                },
                None => {
                    let r = slice_subrange(c, n, n);
                    proof {
                        assert(r@ =~= Seq::<char>::empty());
                    }
                    return r;
                },
            }
        } else {
            return t;
        }
    }
}

/// Cheap prefix check: if this returns false, the SQL definitely has no
/// RETURNING clause we care about and the full parse can be skipped. If it
/// returns true, a full parse is required to answer correctly.
///
/// Matches any SQL whose first keyword (ignoring leading whitespace and
/// `--` / `/* */` comments) is INSERT, UPDATE, DELETE, MERGE, or WITH (the
/// last catches CTE-wrapped writes).
pub fn might_have_returning(sql: &str) -> (r: bool)
    ensures
        r == may_return(sql@),
{
    let c = to_chars(sql);
    let t = skip_leading_whitespace_and_comments(&c);
    let n: usize = if t.len() > 8 { 8 } else { t.len() };
    let head = slice_subrange(t, 0, n);
    proof {
        assert(head@ =~= (if t@.len() > 8 { t@.take(8) } else { t@ }));
    }
    let u = to_ascii_uppercase(head);
    begins(&u, "INSERT") || begins(&u, "UPDATE") || begins(&u, "DELETE") || begins(&u, "MERGE") || begins(
        &u,
        "WITH",
    )
}

fn begins(c: &[char], word: &str) -> (r: bool)
    ensures
        r == starts_with(c@, word@),
{
    let w = to_chars(word);
    chars_start_with(c, &w)
}

// ── Detection ───────────────────────────────────────────────────────

/// Whether the statement (or any query nested under a top-level `WITH`) is an
/// INSERT, UPDATE, DELETE, or MERGE with a RETURNING clause. `parsed` is what
/// the parser makes of the SQL; an error of the parser is passed on. Callers
/// should treat it as the safe default (usually "assume no RETURNING").
pub fn has_returning(sql: &str, parsed: &Result<Vec<StmtNode>, String>) -> (r: Result<bool, AstError>)
    ensures
        !may_return(sql@) ==> r == Ok::<bool, AstError>(false),
        may_return(sql@) ==> match *parsed {
            Ok(stmts) => r == Ok::<bool, AstError>(any_returns(stmts@)),
            Err(e) => r is Err && parse_failed(r->Err_0) == Some(e@),
        },
{
    if !might_have_returning(sql) {
        return Ok(false);
    }
    match parsed {
        Ok(stmts) => Ok(any_has_returning(stmts)),
        Err(e) => Err(AstError::Parse(copy_string(e.as_str()))),
    }
}

// ── Injection ───────────────────────────────────────────────────────

/// A query of a WITH clause with a RETURNING clause makes its statement return,
/// whatever the statement itself is.
pub proof fn law_nested_returning_counts(n: StmtNode, k: int)
    requires
        0 <= k < nested(n).len(),
        node_returns(nested(n)[k]),
    ensures
        node_returns(n),
{
    lemma_any_returns(nested(n), k);
}

/// The queries of a statement's WITH clause.
pub open spec fn nested(n: StmtNode) -> Seq<StmtNode> {
    match n {
        StmtNode::Insert { returning, target, ctes } => ctes@,
        StmtNode::Update { returning, ctes } => ctes@,
        StmtNode::Delete { returning, ctes } => ctes@,
        StmtNode::Merge { returning, ctes } => ctes@,
        StmtNode::Select { ctes } => ctes@,
        StmtNode::Other => Seq::empty(),
    }
}

proof fn lemma_any_returns(s: Seq<StmtNode>, k: int)
    requires
        0 <= k < s.len(),
        node_returns(s[k]),
    ensures
        any_returns(s),
    decreases k,
{
    if k > 0 {
        let t = s.subrange(1, s.len() as int);
        assert(t[k - 1] == s[k]);
        lemma_any_returns(t, k - 1);
    }
}

/// The first top-level INSERT among the statements.
pub open spec fn first_insert(s: Seq<StmtNode>) -> Option<Option<(Seq<char>, Seq<char>)>>
    decreases s.len(),
{
    if s.len() == 0 {
        None
    } else {
        match s[0] {
            StmtNode::Insert { returning, target, ctes } => Some(
                match target {
                    Some((schema, table)) => Some((schema@, table@)),
                    None => None,
                },
            ),
            _ => first_insert(s.skip(1)),
        }
    }
}

/// The first primary key of the table, in the given schema if one is given.
pub open spec fn pk_of(pks: Seq<PkView>, schema: Seq<char>, table: Seq<char>) -> Option<PkView>
    decreases pks.len(),
{
    if pks.len() == 0 {
        None
    } else if pks[0].table == table && (schema.len() == 0 || pks[0].schema == schema) {
        Some(pks[0])
    } else {
        pk_of(pks.skip(1), schema, table)
    }
}

/// The position from which on the text up to `end` is white space.
pub open spec fn space_start(c: Seq<char>, end: int) -> int
    decreases end,
{
    if 0 < end <= c.len() && is_ascii_space(c[end - 1]) {
        space_start(c, end - 1)
    } else {
        end
    }
}

/// The position behind the last line feed before `end`.
pub open spec fn line_start(c: Seq<char>, end: int) -> int {
    match rfind_below(c, seq!['\n'], end) {
        Some(i) => i + 1,
        None => 0,
    }
}

/// The first `--` outside string literals from `i` on and before `end`.
pub open spec fn comment_start(c: Seq<char>, i: int, end: int, in_string: bool) -> Option<int>
    decreases end - i,
{
    if i < 0 || i >= end || end > c.len() {
        None
    } else if in_string && c[i] == '\'' && i + 1 < end && c[i + 1] == '\'' {
        comment_start(c, i + 2, end, in_string)
    } else if c[i] == '\'' {
        comment_start(c, i + 1, end, !in_string)
    } else if !in_string && c[i] == '-' && i + 1 < end && c[i + 1] == '-' {
        Some(i)
    } else {
        comment_start(c, i + 1, end, in_string)
    }
}

/// Where the block comment that ends at `end` begins.
pub open spec fn block_start(c: Seq<char>, end: int) -> Option<int> {
    if end >= 2 && match_at(c, seq!['*', '/'], end - 2) {
        rfind_below(c, seq!['/', '*'], end - 3)
    } else {
        None
    }
}

/// The end of the statement in the text up to `end`: trailing white space,
/// comments and semicolons left out.
pub open spec fn statement_end(c: Seq<char>, end: int) -> int
    decreases end,
    via statement_end_ends
{
    let e = space_start(c, end);
    match comment_start(c, line_start(c, e), e, false) {
        Some(d) => statement_end(c, d),
        None => match block_start(c, e) {
            Some(b) => statement_end(c, b),
            None => if 0 < e <= c.len() && c[e - 1] == ';' {
                statement_end(c, e - 1)
            } else {
                e
            },
        },
    }
}

#[via_fn]
proof fn statement_end_ends(c: Seq<char>, end: int) {
    let e = space_start(c, end);
    lemma_space_start(c, end);
    lemma_rfind_below(c, seq!['\n'], e);
    lemma_comment_start(c, line_start(c, e), e, false);
    lemma_rfind_below(c, seq!['/', '*'], e - 3);
}

proof fn lemma_space_start(c: Seq<char>, end: int)
    ensures
        space_start(c, end) <= end,
        0 <= end ==> 0 <= space_start(c, end),
    decreases end,
{
    if 0 < end <= c.len() && is_ascii_space(c[end - 1]) {
        lemma_space_start(c, end - 1);
    }
}

proof fn lemma_comment_start(c: Seq<char>, i: int, end: int, in_string: bool)
    ensures
        comment_start(c, i, end, in_string) matches Some(d) ==> 0 <= i <= d < end,
    decreases end - i,
{
    if i < 0 || i >= end || end > c.len() {
    } else if in_string && c[i] == '\'' && i + 1 < end && c[i + 1] == '\'' {
        lemma_comment_start(c, i + 2, end, in_string);
    } else if c[i] == '\'' {
        lemma_comment_start(c, i + 1, end, !in_string);
    } else if !in_string && c[i] == '-' && i + 1 < end && c[i + 1] == '-' {
    } else {
        lemma_comment_start(c, i + 1, end, in_string);
    }
}

/// The statement with a RETURNING clause for the columns, at its end but
/// before trailing comments and semicolons.
pub open spec fn spliced(c: Seq<char>, columns: Seq<char>) -> Seq<char> {
    let e = statement_end(c, c.len() as int);
    let after = c.skip(e);
    let sep = if after.len() > 0 && is_ascii_letter(after[0]) { seq![' '] } else { Seq::empty() };
    trim_end(c.take(e)) + " RETURNING "@ + columns + sep + after
}

/// What injection makes of a parsed statement.
pub open spec fn ast_injected(c: Seq<char>, pks: Seq<PkView>, stmts: Seq<StmtNode>) -> Option<Seq<char>> {
    if any_returns(stmts) {
        None
    } else {
        match first_insert(stmts) {
            Some(Some((schema, table))) => match pk_of(pks, schema, table) {
                Some(pk) => Some(spliced(c, join(pk.columns, ", "@))),
                None => None,
            },
            _ => None,
        }
    }
}

/// Find the position of `--` in the text from `start` to `end` that starts a
/// line comment, ignoring occurrences inside single-quoted string literals.
fn find_line_comment_start(c: &[char], start: usize, end: usize) -> (r: Option<usize>)
    requires
        start <= end <= c@.len(),
    ensures
        r is Some <==> comment_start(c@, start as int, end as int, false) is Some,
        r matches Some(d) ==> comment_start(c@, start as int, end as int, false) == Some(d as int) && d < end,
{
    let mut i: usize = start;
    let mut in_string = false;
    while i < end
        invariant
            start <= i <= end <= c@.len(),
            comment_start(c@, i as int, end as int, in_string) == comment_start(
                c@,
                start as int,
                end as int,
                false,
            ),
        decreases end - i,
    {
        if in_string && c[i] == '\'' && end - i > 1 && c[i + 1] == '\'' {
            i = i + 2;
        } else if c[i] == '\'' {
            in_string = !in_string;
            i = i + 1;
        } else if !in_string && c[i] == '-' && end - i > 1 && c[i + 1] == '-' {
            return Some(i);
        } else {
            i = i + 1;
        }
    }
    None
}

/// Walk backward from the end of the text, skipping trailing whitespace, line
/// comments, block comments, and semicolons.
fn end_of_statement_offset(c: &[char]) -> (r: usize)
    ensures
        r == statement_end(c@, c@.len() as int),
        r <= c@.len(),
{
    let newline: [char; 1] = ['\n'];
    let open: [char; 2] = ['/', '*'];
    let close: [char; 2] = ['*', '/'];
    proof {
        assert(newline@ =~= seq!['\n']);
        assert(open@ =~= seq!['/', '*']);
        assert(close@ =~= seq!['*', '/']);
    }
    let mut end: usize = c.len();
    loop
        invariant
            end <= c@.len(),
            newline@ == seq!['\n'],
            open@ == seq!['/', '*'],
            close@ == seq!['*', '/'],
            statement_end(c@, end as int) == statement_end(c@, c@.len() as int),
        decreases end,
    {
        let mut e: usize = end;
        while e > 0 && char_is_ascii_space(c[e - 1])
            invariant
                e <= end <= c@.len(),
                space_start(c@, e as int) == space_start(c@, end as int),
            decreases e,
        {
            e = e - 1;
        }
        proof {
            assert(e == space_start(c@, end as int));
        }
        let start: usize = match rfind_chars_below(c, &newline, e) {
            Some(i) => i + 1,
            None => 0,
        };
        if let Some(d) = find_line_comment_start(c, start, e) {
            end = d;
            continue;
        }
        if e >= 2 && is_match_at(c, &close, e - 2) {
            let below: usize = if e >= 3 { e - 3 } else { 0 };
            if let Some(b) = rfind_chars_below(c, &open, below) {
                end = b;
                continue;
            }
        }
        if e > 0 && c[e - 1] == ';' {
            end = e - 1;
            continue;
        }
        return e;
    }
}

fn find_top_level_insert(s: &Vec<StmtNode>) -> (r: Option<usize>)
    ensures
        r is Some <==> first_insert(s@) is Some,
        r matches Some(i) ==> i < s@.len() && s@[i as int] is Insert && first_insert(s@) == Some(
            match s@[i as int]->target {
                Some((schema, table)) => Some((schema@, table@)),
                None => None,
            },
        ),
{
    proof {
        assert(s@.skip(0) =~= s@);
    }
    for i in 0..s.len()
        invariant
            first_insert(s@) == first_insert(s@.skip(i as int)),
    {
        proof {
            assert(s@.skip(i as int)[0] == s@[i as int]);
            assert(s@.skip(i as int).skip(1) =~= s@.skip(i + 1));
        }
        match &s[i] {
            StmtNode::Insert { returning, target, ctes } => {
                return Some(i);
            },
            _ => {},
        }
    }
    None
}

fn find_pk_of(pks: &[TablePk], schema: &str, table: &str) -> (r: Option<usize>)
    ensures
        r is Some <==> pk_of(pk_views(pks@), schema@, table@) is Some,
        r matches Some(i) ==> i < pks@.len() && pk_of(pk_views(pks@), schema@, table@) == Some(pks@[i as int]@),
{
    let ghost all = pk_views(pks@);
    proof {
        assert(all.skip(0) =~= all);
    }
    for i in 0..pks.len()
        invariant
            all == pk_views(pks@),
            pk_of(all, schema@, table@) == pk_of(all.skip(i as int), schema@, table@),
    {
        proof {
            assert(all.skip(i as int)[0] == pks@[i as int]@);
            assert(all.skip(i as int).skip(1) =~= all.skip(i + 1));
        }
        if str_eq(pks[i].table.as_str(), table) && (schema.is_empty() || str_eq(pks[i].schema.as_str(), schema)) {
            return Some(i);
        }
    }
    None
}

fn splice(c: &[char], columns: &str) -> (r: String)
    ensures
        r@ == spliced(c@, columns@),
{
    let e = end_of_statement_offset(c);
    let n: usize = c.len();
    let mut out = String::new();
    push_chars(&mut out, trim_end_slice(slice_subrange(c, 0, e)));
    out.push_str(" RETURNING ");
    out.push_str(columns);
    if e < n && char_is_ascii_letter(c[e]) {
        out.push(' ');
    }
    push_chars(&mut out, slice_subrange(c, e, n));
    proof {
        assert(c@.subrange(0, e as int) =~= c@.take(e as int));
        assert(c@.subrange(e as int, n as int) =~= c@.skip(e as int));
        assert(out@ =~= spliced(c@, columns@));
    }
    out
}

/// Adds a RETURNING clause to a bare INSERT. The clause is spliced into the
/// text, so comments and whitespace are preserved. `Ok(None)` if the SQL isn't
/// a bare INSERT targeting a known-PK table, or already has RETURNING.
pub fn inject_returning(
    sql: &str,
    pk_map: &[TablePk],
    parsed: &Result<Vec<StmtNode>, String>,
) -> (r: Result<Option<String>, AstError>)
    ensures
        !may_return(sql@) ==> r == Ok::<Option<String>, AstError>(None),
        may_return(sql@) ==> match *parsed {
            Ok(stmts) => r is Ok && match ast_injected(sql@, pk_views(pk_map@), stmts@) {
                Some(text) => r->Ok_0 is Some && r->Ok_0->0@ == text,
                None => r->Ok_0 is None,
            },
            Err(e) => r is Err && parse_failed(r->Err_0) == Some(e@),
        },
{
    if !might_have_returning(sql) {
        return Ok(None);
    }
    let stmts = match parsed {
        Ok(stmts) => stmts,
        Err(e) => {
            return Err(AstError::Parse(copy_string(e.as_str())));
        },
    };
    if any_has_returning(stmts) {
        return Ok(None);
    }
    let at = match find_top_level_insert(stmts) {
        Some(i) => i,
        None => {
            return Ok(None);
        },
    };
    match &stmts[at] {
        StmtNode::Insert { returning, target, ctes } => match target {
            Some((schema, table)) => match find_pk_of(pk_map, schema.as_str(), table.as_str()) {
                Some(i) => {
                    let columns = join_strings(pk_map[i].columns.as_slice(), ", ");
                    let c = to_chars(sql);
                    Ok(Some(splice(&c, columns.as_str())))
                },
                None => Ok(None),
            },
            None => Ok(None),
        },
        _ => Ok(None),
    }
}

} // verus!
