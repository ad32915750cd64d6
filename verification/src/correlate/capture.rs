//! Capture of generated IDs: RETURNING clauses and primary keys.

use crate::sql::clause::{
    ends_closed, find_in, find_pattern_in, find_text_end, inserted, is_closed, law_word_behind_statement,
    law_word_in_white_space, lemma_find_in, lemma_text_end, text_end, word_stands,
};
use crate::sql::lex::{lexemes, TokenKind};
use crate::sql::words::{
    begins_with_word, calls_function, contains_call, contains_word, holds_word, word_at,
};
use crate::text::{
    ascii_uppercase, char_is_word_char, chars_are, copy_string, from_chars, is_blank, is_space,
    law_trim_of_blank, trim_slice, is_word_char, join, join_strings, push_chars, replace, replace_chars,
    starts_with, str_eq, str_less, text_less, str_starts_with, to_chars, trim_end, trim_end_slice, trim_start,
    trim_start_slice, upper, upper_string, views,
};
use vstd::prelude::*;
use vstd::slice::slice_subrange;

verus! {

/// A single row of captured RETURNING clause results.
#[derive(Debug, Clone)]
pub struct ResponseRow {
    /// (column_name, text_value) pairs from the RETURNING result.
    pub columns: Vec<(String, String)>,
}

/// The model of a response row: names and values.
pub type RowView = Seq<(Seq<char>, Seq<char>)>;

/// The model of a pair of strings.
pub open spec fn pair_view(p: (String, String)) -> (Seq<char>, Seq<char>) {
    (p.0@, p.1@)
}

impl View for ResponseRow {
    type V = RowView;

    open spec fn view(&self) -> RowView {
        Seq::new(self.columns@.len(), |i: int| pair_view(self.columns@[i]))
    }
}

impl ResponseRow {
    /// A copy of the row.
    pub fn duplicate(&self) -> (r: Self)
        ensures
            r@ == self@,
    {
        let mut columns: Vec<(String, String)> = Vec::new();
        for i in 0..self.columns.len()
            invariant
                columns@.len() == i,
                forall|k: int| 0 <= k < i ==> pair_view(#[trigger] columns@[k]) == pair_view(self.columns@[k]),
        {
            columns.push((copy_string(self.columns[i].0.as_str()), copy_string(self.columns[i].1.as_str())));
        }
        let r = ResponseRow { columns };
        proof {
            assert(r@ =~= self@);
        }
        r
    }
}

/// The views of response rows.
pub open spec fn row_views(v: Seq<ResponseRow>) -> Seq<RowView> {
    Seq::new(v.len(), |i: int| v[i]@)
}

/// A copy of response rows.
pub fn copy_rows(v: &Vec<ResponseRow>) -> (r: Vec<ResponseRow>)
    ensures
        row_views(r@) == row_views(v@),
{
    let mut out: Vec<ResponseRow> = Vec::new();
    for i in 0..v.len()
        invariant
            out@.len() == i,
            forall|k: int| 0 <= k < i ==> (#[trigger] out@[k])@ == v@[k]@,
    {
        out.push(v[i].duplicate());
    }
    proof {
        assert(row_views(out@) =~= row_views(v@));
    }
    out
}

/// Primary key column mapping for a table, used for implicit ID capture.
#[derive(Debug, Clone)]
pub struct TablePk {
    pub schema: String,
    pub table: String,
    /// PK column names in ordinal order.
    pub columns: Vec<String>,
}

/// The model of a primary key.
pub struct PkView {
    pub schema: Seq<char>,
    pub table: Seq<char>,
    pub columns: Seq<Seq<char>>,
}

impl View for TablePk {
    type V = PkView;

    open spec fn view(&self) -> PkView {
        PkView { schema: self.schema@, table: self.table@, columns: views(self.columns@) }
    }
}

impl TablePk {
    /// A copy of the primary key.
    pub fn duplicate(&self) -> (r: Self)
        ensures
            r@ == self@,
    {
        let mut columns: Vec<String> = Vec::new();
        for i in 0..self.columns.len()
            invariant
                columns@.len() == i,
                forall|k: int| 0 <= k < i ==> (#[trigger] columns@[k])@ == self.columns@[k]@,
        {
            columns.push(copy_string(self.columns[i].as_str()));
        }
        proof {
            assert(views(columns@) =~= views(self.columns@));
        }
        TablePk { schema: copy_string(self.schema.as_str()), table: copy_string(self.table.as_str()), columns }
    }
}

/// The views of primary keys.
pub open spec fn pk_views(v: Seq<TablePk>) -> Seq<PkView> {
    Seq::new(v.len(), |i: int| v[i]@)
}

// ── RETURNING detection ─────────────────────────────────────────────

/// Whether a text holds the word RETURNING outside literals, quoted names and
/// comments.
pub open spec fn has_returning_word(c: Seq<char>) -> bool {
    holds_word(c, "RETURNING"@)
}

/// Check if SQL contains a RETURNING clause (not inside a string literal).
pub fn has_returning(sql: &str) -> (r: bool)
    ensures
        r == has_returning_word(sql@),
{
    contains_word(sql, "RETURNING")
}

// ── RETURNING injection ─────────────────────────────────────────────

/// A character of a possibly qualified and quoted table name.
pub open spec fn is_name_char(c: char) -> bool {
    is_word_char(c) || c == '.' || c == '"'
}

/// The longest prefix of name characters.
pub open spec fn name_prefix(c: Seq<char>) -> Seq<char>
    decreases c.len(),
{
    if c.len() > 0 && is_name_char(c[0]) {
        seq![c[0]] + name_prefix(c.skip(1))
    } else {
        Seq::empty()
    }
}

/// The table that an INSERT names behind INTO, which counts outside of literals
/// and comments, without double quotes.
pub open spec fn insert_target(sql: Seq<char>) -> Option<Seq<char>> {
    let s = trim_start(sql);
    if !starts_with(upper(s), "INSERT"@) {
        None
    } else {
        match find_in(s, "INTO "@, TokenKind::Ident, 0) {
            Some(p) => Some(replace(name_prefix(trim_start(s.skip(p + 5))), seq!['"'], Seq::empty())),
            None => None,
        }
    }
}

/// Whether a name is that of the table, with or without its schema.
pub open spec fn names_table(name: Seq<char>, pk: PkView) -> bool {
    name == pk.table || name == pk.schema + seq!['.'] + pk.table
}

/// The first primary key whose table has the name.
pub open spec fn find_pk(pks: Seq<PkView>, name: Seq<char>) -> Option<PkView>
    decreases pks.len(),
{
    if pks.len() == 0 {
        None
    } else if names_table(name, pks[0]) {
        Some(pks[0])
    } else {
        find_pk(pks.skip(1), name)
    }
}

/// A text without trailing semicolons.
pub open spec fn strip_semicolons(s: Seq<char>) -> Seq<char>
    decreases s.len(),
{
    if s.len() > 0 && s.last() == ';' {
        strip_semicolons(s.drop_last())
    } else {
        s
    }
}

/// The text of a statement: trailing white space, and semicolons before it, are
/// left out.
pub open spec fn bare_text(sql: Seq<char>) -> Seq<char> {
    strip_semicolons(trim_end(sql))
}

/// Where a RETURNING clause goes: before ON CONFLICT if the statement has it
/// outside of literals and comments, else behind the statement, before comments
/// and semicolons that follow it. Nowhere in a text that ends inside a literal
/// or a quoted name.
pub open spec fn clause_place(s: Seq<char>) -> Option<int> {
    match find_in(s, " ON CONFLICT"@, TokenKind::Whitespace, 0) {
        Some(p) => Some(p),
        None => if !is_closed(s.take(text_end(s))) {
            None
        } else if is_blank(s.skip(text_end(s))) {
            Some(s.len() as int)
        } else {
            Some(text_end(s))
        },
    }
}

/// The RETURNING clause for columns.
pub open spec fn returning_clause(columns: Seq<char>) -> Seq<char> {
    " RETURNING "@ + columns
}

/// A statement with a RETURNING clause for the columns.
pub open spec fn with_returning(sql: Seq<char>, columns: Seq<char>) -> Option<Seq<char>> {
    let s = bare_text(sql);
    match clause_place(s) {
        Some(at) => Some(inserted(s, at, returning_clause(columns))),
        None => None,
    }
}

/// What implicit capture sends in place of a statement, if it changes it.
pub open spec fn injected(sql: Seq<char>, pks: Seq<PkView>) -> Option<Seq<char>> {
    if has_returning_word(sql) {
        None
    } else {
        match insert_target(sql) {
            None => None,
            Some(name) => match find_pk(pks, name) {
                None => None,
                Some(pk) => with_returning(sql, join(pk.columns, ", "@)),
            },
        }
    }
}

fn take_name(c: &[char]) -> (r: Vec<char>)
    ensures
        r@ == name_prefix(c@),
{
    let mut out: Vec<char> = Vec::new();
    let mut i: usize = 0;
    proof {
        assert(c@.skip(0) =~= c@);
        assert(out@ + name_prefix(c@) =~= name_prefix(c@));
    }
    while i < c.len() && (char_is_word_char(c[i]) || c[i] == '.' || c[i] == '"')
        invariant
            i <= c@.len(),
            out@ + name_prefix(c@.skip(i as int)) == name_prefix(c@),
        decreases c@.len() - i,
    {
        let ghost before = out@;
        out.push(c[i]);
        proof {
            assert(c@.skip(i as int).skip(1) =~= c@.skip(i + 1));
            assert(before.push(c@[i as int]) + name_prefix(c@.skip(i + 1)) =~= before + (seq![c@[i as int]]
                + name_prefix(c@.skip(i + 1))));
        }
        i = i + 1;
    }
    proof {
        assert(name_prefix(c@.skip(i as int)) =~= Seq::<char>::empty());
        assert(out@ + Seq::<char>::empty() =~= out@);
    }
    out
}

fn find_insert_target(sql: &[char]) -> (r: Option<Vec<char>>)
    ensures
        r is Some <==> insert_target(sql@) is Some,
        r is Some ==> insert_target(sql@) == Some(r->0@),
{
    let s = trim_start_slice(sql);
    let text = from_chars(s);
    let up = upper_string(text.as_str());
    if !str_starts_with(up.as_str(), "INSERT") {
        return None;
    }
    let n: usize = s.len();
    proof {
        reveal_strlit("INTO ");
    }
    match find_pattern_in(s, "INTO ", TokenKind::Ident) {
        None => None,
        Some(p) => {
            proof {
                assert(s@.subrange(p + 5, n as int) =~= s@.skip(p + 5));
            }
            let name = take_name(trim_start_slice(slice_subrange(s, p + 5, n)));
            let quote: [char; 1] = ['"'];
            let nothing: Vec<char> = Vec::new();
            proof {
                assert(quote@ =~= seq!['"']);
                assert(nothing@ =~= Seq::<char>::empty());
            }
            Some(replace_chars(&name, &quote, &nothing))
        },
    }
}

fn matches_table(name: &[char], pk: &TablePk) -> (r: bool)
    ensures
        r == names_table(name@, pk@),
{
    if chars_are(name, pk.table.as_str()) {
        return true;
    }
    let mut qualified = String::new();
    qualified.push_str(pk.schema.as_str());
    qualified.push('.');
    qualified.push_str(pk.table.as_str());
    proof {
        assert(qualified@ =~= pk@.schema + seq!['.'] + pk@.table);
    }
    chars_are(name, qualified.as_str())
}

fn find_pk_index(pks: &[TablePk], name: &[char]) -> (r: Option<usize>)
    ensures
        r is Some <==> find_pk(pk_views(pks@), name@) is Some,
        r matches Some(i) ==> i < pks@.len() && find_pk(pk_views(pks@), name@) == Some(pks@[i as int]@),
{
    let ghost all = pk_views(pks@);
    proof {
        assert(all.skip(0) =~= all);
    }
    for i in 0..pks.len()
        invariant
            all == pk_views(pks@),
            find_pk(all, name@) == find_pk(all.skip(i as int), name@),
    {
        proof {
            assert(all.skip(i as int)[0] == pks@[i as int]@);
            assert(all.skip(i as int).skip(1) =~= all.skip(i + 1));
        }
        if matches_table(name, &pks[i]) {
            return Some(i);
        }
    }
    None
}

fn strip_semicolons_slice(c: &[char]) -> (r: &[char])
    ensures
        r@ == strip_semicolons(c@),
{
    let mut i: usize = c.len();
    proof {
        assert(c@.take(i as int) =~= c@);
    }
    while i > 0 && c[i - 1] == ';'
        invariant
            i <= c@.len(),
            strip_semicolons(c@.take(i as int)) == strip_semicolons(c@),
        decreases i,
    {
        proof {
            assert(c@.take(i as int).drop_last() =~= c@.take(i - 1));
        }
        i = i - 1;
    }
    let r = slice_subrange(c, 0, i);
    proof {
        assert(r@ =~= c@.take(i as int));
    }
    r
}

fn find_clause_place(s: &[char]) -> (r: Option<usize>)
    ensures
        match r {
            Some(at) => clause_place(s@) == Some(at as int) && at <= s@.len(),
            None => clause_place(s@) is None,
        },
{
    if let Some(p) = find_pattern_in(s, " ON CONFLICT", TokenKind::Whitespace) {
        return Some(p);
    }
    let n: usize = s.len();
    let e = find_text_end(s);
    let before = slice_subrange(s, 0, e);
    let behind = slice_subrange(s, e, n);
    proof {
        assert(before@ =~= s@.take(e as int));
        assert(behind@ =~= s@.skip(e as int));
        law_trim_of_blank(behind@);
    }
    if !ends_closed(before) {
        None
    } else if trim_slice(behind).len() == 0 {
        Some(n)
    } else {
        Some(e)
    }
}

fn append_returning(sql: &[char], columns: &str) -> (r: Option<String>)
    ensures
        match r {
            Some(t) => with_returning(sql@, columns@) == Some(t@),
            None => with_returning(sql@, columns@) is None,
        },
{
    let s = strip_semicolons_slice(trim_end_slice(sql));
    let n: usize = s.len();
    let at: usize = match find_clause_place(s) {
        Some(at) => at,
        None => return None,
    };
    let mut out = String::new();
    push_chars(&mut out, slice_subrange(s, 0, at));
    out.push_str(" RETURNING ");
    out.push_str(columns);
    push_chars(&mut out, slice_subrange(s, at, n));
    proof {
        assert(s@.subrange(0, at as int) =~= s@.take(at as int));
        assert(s@.subrange(at as int, n as int) =~= s@.skip(at as int));
        assert(out@ =~= inserted(s@, at as int, returning_clause(columns@)));
    }
    Some(out)
}

/// If SQL is a bare INSERT (no RETURNING) targeting a known PK table, return
/// modified SQL with RETURNING added. A text that ends inside a literal or a
/// quoted name is left alone.
pub fn inject_returning(sql: &str, pk_map: &[TablePk]) -> (r: Option<String>)
    ensures
        r is Some <==> injected(sql@, pk_views(pk_map@)) is Some,
        r is Some ==> injected(sql@, pk_views(pk_map@)) == Some(r->0@),
{
    if has_returning(sql) {
        return None;
    }
    let c = to_chars(sql);
    match find_insert_target(&c) {
        None => None,
        Some(name) => match find_pk_index(pk_map, &name) {
            None => None,
            Some(i) => {
                let columns = join_strings(pk_map[i].columns.as_slice(), ", ");
                append_returning(&c, columns.as_str())
            },
        },
    }
}

/// A statement that already has a RETURNING clause is never changed.
pub proof fn law_no_second_returning(sql: Seq<char>, pks: Seq<PkView>)
    requires
        has_returning_word(sql),
    ensures
        injected(sql, pks) is None,
{
}

/// What injection makes of a statement has a RETURNING clause, and is not changed
/// again.
pub proof fn law_injected_has_returning(sql: Seq<char>, pks: Seq<PkView>)
    ensures
        injected(sql, pks) matches Some(t) ==> has_returning_word(t) && injected(t, pks) is None,
{
    if injected(sql, pks) is Some {
        let s = bare_text(sql);
        let name = insert_target(sql)->0;
        let columns = join(find_pk(pks, name)->0.columns, ", "@);
        let clause = returning_clause(columns);
        let at = clause_place(s)->0;
        reveal_strlit(" RETURNING ");
        reveal_strlit("RETURNING");
        reveal_strlit(" ON CONFLICT");
        assert(word_stands(clause, 1, "RETURNING"@));
        lemma_find_in(s, " ON CONFLICT"@, TokenKind::Whitespace, 0);
        lemma_text_end(s, lexemes(s).len() as int);
        if find_in(s, " ON CONFLICT"@, TokenKind::Whitespace, 0) is Some {
            assert(ascii_uppercase(s).subrange(at, at + 12)[0] == ' ');
            assert(s[at] == ' ');
            law_word_in_white_space(s, at, "RETURNING"@, clause);
        } else {
            let e = text_end(s);
            assert forall|j: int| e <= j < at implies is_space(#[trigger] s[j]) by {
                assert(s.skip(e)[j - e] == s[j]);
            }
            law_word_behind_statement(s, at, "RETURNING"@, clause);
        }
    }
}

/// Whether a statement reads the value of a sequence that the session used: a
/// SELECT that calls `currval` or `lastval`.
pub open spec fn reads_sequence(sql: Seq<char>) -> bool {
    let c = trim_start(sql);
    word_at(c, 0, "SELECT"@) && (calls_function(c, "CURRVAL"@) || calls_function(c, "LASTVAL"@))
}

/// Detect if a query is SELECT currval(...) or SELECT lastval().
pub fn is_currval_or_lastval(sql: &str) -> (r: bool)
    ensures
        r == reads_sequence(sql@),
{
    let c = to_chars(sql);
    let t = from_chars(trim_start_slice(&c));
    begins_with_word(t.as_str(), "SELECT") && (contains_call(t.as_str(), "CURRVAL") || contains_call(
        t.as_str(),
        "LASTVAL",
    ))
}

// ── Primary keys ────────────────────────────────────────────────────

/// A column of a primary key, with its table.
#[derive(Debug)]
pub struct PkColumn {
    pub schema: String,
    pub table: String,
    pub column: String,
}

/// The model of a primary key column.
pub struct PkColumnView {
    pub schema: Seq<char>,
    pub table: Seq<char>,
    pub column: Seq<char>,
}

impl View for PkColumn {
    type V = PkColumnView;

    open spec fn view(&self) -> PkColumnView {
        PkColumnView { schema: self.schema@, table: self.table@, column: self.column@ }
    }
}

/// Whether a column's table comes before that of a key, by schema and name.
pub open spec fn table_before(c: PkColumnView, pk: PkView) -> bool {
    text_less(c.schema, pk.schema) || (c.schema == pk.schema && text_less(c.table, pk.table))
}

/// Whether a column belongs to the table of a key.
pub open spec fn table_same(c: PkColumnView, pk: PkView) -> bool {
    c.schema == pk.schema && c.table == pk.table
}

/// The keys with one more column: added to its table's key if there is one,
/// else as a new key before the first one that comes behind it.
pub open spec fn add_pk_column(pks: Seq<PkView>, c: PkColumnView) -> Seq<PkView>
    decreases pks.len(),
{
    let fresh = PkView { schema: c.schema, table: c.table, columns: seq![c.column] };
    if pks.len() == 0 {
        seq![fresh]
    } else if table_same(c, pks[0]) {
        seq![PkView { schema: c.schema, table: c.table, columns: pks[0].columns.push(c.column) }] + pks.skip(1)
    } else if table_before(c, pks[0]) {
        seq![fresh] + pks
    } else {
        seq![pks[0]] + add_pk_column(pks.skip(1), c)
    }
}

/// The keys that columns make up, ordered by schema and table, each with its
/// columns in the order in which they came.
pub open spec fn grouped_pks(cols: Seq<PkColumnView>) -> Seq<PkView>
    decreases cols.len(),
{
    if cols.len() == 0 {
        Seq::empty()
    } else {
        add_pk_column(grouped_pks(cols.drop_last()), cols.last())
    }
}

/// The views of primary key columns.
pub open spec fn pk_column_views(v: Seq<PkColumn>) -> Seq<PkColumnView> {
    Seq::new(v.len(), |i: int| v[i]@)
}

/// Adds a column to the keys.
fn insert_pk_column(out: &mut Vec<TablePk>, c: &PkColumn)
    ensures
        pk_views(final(out)@) == add_pk_column(pk_views(old(out)@), c@),
{
    let ghost before = pk_views(out@);
    let n = out.len();
    let mut i: usize = 0;
    proof {
        assert(before.skip(0) =~= before);
        assert(before.take(0) + add_pk_column(before, c@) =~= add_pk_column(before, c@));
    }
    while i < n
        invariant
            i <= n,
            n == before.len(),
            before == pk_views(out@),
            before == pk_views(old(out)@),
            before.take(i as int) + add_pk_column(before.skip(i as int), c@) == add_pk_column(before, c@),
        decreases n - i,
    {
        proof {
            assert(before.skip(i as int)[0] == out@[i as int]@);
            assert(before.skip(i as int).skip(1) =~= before.skip(i + 1));
        }
        let same_schema = str_eq(c.schema.as_str(), out[i].schema.as_str());
        if same_schema && str_eq(c.table.as_str(), out[i].table.as_str()) {
            let old_pk = out.remove(i);
            let ghost columns = views(old_pk.columns@);
            let mut columns_now = old_pk.columns;
            columns_now.push(copy_string(c.column.as_str()));
            proof {
                assert(views(columns_now@) =~= columns.push(c@.column));
            }
            let pk = TablePk { schema: old_pk.schema, table: old_pk.table, columns: columns_now };
            out.insert(i, pk);
            proof {
                assert(pk_views(out@) =~= before.take(i as int) + add_pk_column(before.skip(i as int), c@));
            }
            return;
        }
        if str_less(c.schema.as_str(), out[i].schema.as_str()) || (same_schema && str_less(
            c.table.as_str(),
            out[i].table.as_str(),
        )) {
            out.insert(i, single_column_pk(c));
            proof {
                assert(pk_views(out@) =~= before.take(i as int) + add_pk_column(before.skip(i as int), c@));
            }
            return;
        }
        proof {
            assert(before.take(i as int) + (seq![before[i as int]] + add_pk_column(before.skip(i + 1), c@))
                =~= before.take(i + 1) + add_pk_column(before.skip(i + 1), c@));
        }
        i = i + 1;
    }
    out.push(single_column_pk(c));
    proof {
        assert(before.take(n as int) =~= before);
        assert(pk_views(out@) =~= before + add_pk_column(before.skip(n as int), c@));
    }
}

fn single_column_pk(c: &PkColumn) -> (r: TablePk)
    ensures
        r@ == (PkView { schema: c@.schema, table: c@.table, columns: seq![c@.column] }),
{
    let mut columns: Vec<String> = Vec::new();
    columns.push(copy_string(c.column.as_str()));
    proof {
        assert(views(columns@) =~= seq![c@.column]);
    }
    TablePk { schema: copy_string(c.schema.as_str()), table: copy_string(c.table.as_str()), columns }
}

/// Primary keys from their columns.
pub fn group_primary_keys(cols: &[PkColumn]) -> (r: Vec<TablePk>)
    ensures
        pk_views(r@) == grouped_pks(pk_column_views(cols@)),
{
    let mut out: Vec<TablePk> = Vec::new();
    let ghost all = pk_column_views(cols@);
    proof {
        assert(pk_views(out@) =~= grouped_pks(all.take(0)));
    }
    for i in 0..cols.len()
        invariant
            all == pk_column_views(cols@),
            pk_views(out@) == grouped_pks(all.take(i as int)),
    {
        proof {
            assert(all.take(i + 1).drop_last() =~= all.take(i as int));
            assert(all.take(i + 1).last() == cols@[i as int]@);
        }
        insert_pk_column(&mut out, &cols[i]);
    }
    proof {
        assert(all.take(all.len() as int) =~= all);
    }
    out
}

} // verus!
