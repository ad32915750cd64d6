//! Laws of adding RETURNING clauses, and of the primary keys they name.

use crate::correlate::capture::{
    add_pk_column, bare_text, clause_place, find_pk, grouped_pks, injected, insert_target, is_name_char,
    name_prefix, names_table, reads_sequence, strip_semicolons, table_before, table_same, PkColumnView,
    PkView,
};
use crate::laws::texts::law_first_match_is_replaced;
use crate::sql::clause::{find_in, lemma_find_in, lemma_run_is, lemma_text_end, lies_in, text_end};
use crate::sql::lex::{before_next, lexeme_text, lexemes, lexemes_from, token_at, Before, TokenKind};
use crate::sql::words::{calls_function, name_at, next_token, opens_bracket, word_at};
use crate::text::{
    ascii_uppercase, is_ascii_letter, is_space, is_word_char, join, match_at, replace, text_less, trim_end,
    trim_start,
};
use vstd::prelude::*;
use vstd::utf8::is_ascii_chars;

verus! {

// ── The statement ───────────────────────────────────────────────────

proof fn lemma_trim_end_cut(s: Seq<char>)
    ensures
        trim_end(s).len() <= s.len(),
        trim_end(s) == s.take(trim_end(s).len() as int),
        forall|i: int| trim_end(s).len() <= i < s.len() ==> is_space(#[trigger] s[i]),
        trim_end(s).len() > 0 ==> !is_space(trim_end(s).last()),
    decreases s.len(),
{
    if s.len() > 0 && is_space(s.last()) {
        let t = s.drop_last();
        lemma_trim_end_cut(t);
        assert forall|i: int| trim_end(s).len() <= i < s.len() implies is_space(#[trigger] s[i]) by {
            if i < s.len() - 1 {
                assert(t[i] == s[i]);
            }
        }
        assert(t.take(trim_end(t).len() as int) =~= s.take(trim_end(t).len() as int));
    } else {
        assert(s.take(s.len() as int) =~= s);
    }
}

proof fn lemma_semicolons_cut(s: Seq<char>)
    ensures
        strip_semicolons(s).len() <= s.len(),
        strip_semicolons(s) == s.take(strip_semicolons(s).len() as int),
        forall|i: int| strip_semicolons(s).len() <= i < s.len() ==> #[trigger] s[i] == ';',
        strip_semicolons(s).len() > 0 ==> strip_semicolons(s).last() != ';',
    decreases s.len(),
{
    if s.len() > 0 && s.last() == ';' {
        let t = s.drop_last();
        lemma_semicolons_cut(t);
        assert forall|i: int| strip_semicolons(s).len() <= i < s.len() implies #[trigger] s[i] == ';' by {
            if i < s.len() - 1 {
                assert(t[i] == s[i]);
            }
        }
        assert(t.take(strip_semicolons(t).len() as int) =~= s.take(strip_semicolons(t).len() as int));
    } else {
        assert(s.take(s.len() as int) =~= s);
    }
}

/// Only white space and semicolons at the end of a statement are left out.
pub proof fn law_statement_loses_only_its_end(sql: Seq<char>)
    ensures
        bare_text(sql).len() <= sql.len(),
        bare_text(sql) == sql.take(bare_text(sql).len() as int),
        forall|i: int| bare_text(sql).len() <= i < sql.len() ==> is_space(#[trigger] sql[i]) || sql[i] == ';',
        bare_text(sql).len() > 0 ==> bare_text(sql).last() != ';',
{
    let t = trim_end(sql);
    lemma_trim_end_cut(sql);
    lemma_semicolons_cut(t);
    let b = bare_text(sql);
    assert(b =~= sql.take(b.len() as int));
    assert forall|i: int| b.len() <= i < sql.len() implies is_space(#[trigger] sql[i]) || sql[i] == ';' by {
        if i < t.len() {
            assert(t[i] == sql[i]);
        }
    }
}

/// Injection adds a RETURNING clause to a statement and changes nothing else: it
/// names the columns of the first key of the statement's table, and stands
/// before ON CONFLICT, or at the end of the statement.
pub proof fn law_injection_only_adds_the_clause(sql: Seq<char>, pks: Seq<PkView>) -> (r: (int, int))
    requires
        injected(sql, pks) is Some,
    ensures
        ({
            let (at, k) = r;
            let s = bare_text(sql);
            &&& 0 <= at <= s.len()
            &&& 0 <= k < pks.len()
            &&& insert_target(sql) is Some
            &&& names_table(insert_target(sql)->0, pks[k])
            &&& forall|j: int| 0 <= j < k ==> !names_table(insert_target(sql)->0, #[trigger] pks[j])
            &&& injected(sql, pks)->0 == s.take(at) + (" RETURNING "@ + join(pks[k].columns, ", "@)) + s.skip(at)
            &&& at == s.len() || at == text_end(s) || (match_at(ascii_uppercase(s), " ON CONFLICT"@, at) && lies_in(
                s,
                at,
                TokenKind::Whitespace,
            ))
            &&& (exists|p: int|
                0 <= p && match_at(ascii_uppercase(s), " ON CONFLICT"@, p) && #[trigger] lies_in(
                    s,
                    p,
                    TokenKind::Whitespace,
                )) ==> match_at(ascii_uppercase(s), " ON CONFLICT"@, at)
        }),
{
    let s = bare_text(sql);
    let name = insert_target(sql)->0;
    let at = clause_place(s)->0;
    reveal_strlit(" ON CONFLICT");
    lemma_find_in(s, " ON CONFLICT"@, TokenKind::Whitespace, 0);
    lemma_text_end(s, lexemes(s).len() as int);
    let k = lemma_first_key(pks, name);
    if exists|p: int|
        0 <= p && match_at(ascii_uppercase(s), " ON CONFLICT"@, p) && #[trigger] lies_in(s, p, TokenKind::Whitespace) {
        let p = choose|p: int|
            0 <= p && match_at(ascii_uppercase(s), " ON CONFLICT"@, p) && #[trigger] lies_in(
                s,
                p,
                TokenKind::Whitespace,
            );
        lemma_found(s, " ON CONFLICT"@, TokenKind::Whitespace, 0, p);
    }
    (at, k)
}

proof fn lemma_found(c: Seq<char>, pat: Seq<char>, kind: TokenKind, from: int, p: int)
    requires
        0 <= from <= p,
        match_at(ascii_uppercase(c), pat, p),
        lies_in(c, p, kind),
    ensures
        find_in(c, pat, kind, from) is Some,
    decreases p - from,
{
    if from < p && !(match_at(ascii_uppercase(c), pat, from) && lies_in(c, from, kind)) {
        lemma_found(c, pat, kind, from + 1, p);
    }
}

proof fn lemma_first_key(pks: Seq<PkView>, name: Seq<char>) -> (k: int)
    ensures
        find_pk(pks, name) is Some ==> 0 <= k < pks.len() && find_pk(pks, name) == Some(pks[k]) && names_table(
            name,
            pks[k],
        ) && forall|j: int| 0 <= j < k ==> !names_table(name, #[trigger] pks[j]),
        find_pk(pks, name) is None ==> forall|j: int| 0 <= j < pks.len() ==> !names_table(name, #[trigger] pks[j]),
    decreases pks.len(),
{
    if pks.len() == 0 || names_table(name, pks[0]) {
        0
    } else {
        let t = pks.skip(1);
        let k = lemma_first_key(t, name);
        assert forall|j: int| 0 < j < pks.len() implies #[trigger] pks[j] == t[j - 1] by {}
        assert(find_pk(pks, name) is Some ==> forall|j: int|
            0 <= j < k + 1 ==> !names_table(name, #[trigger] pks[j]));
        k + 1
    }
}

/// A key is found for a table exactly where one has its name, alone or with the
/// schema before it.
pub proof fn law_key_is_found_by_name(pks: Seq<PkView>, name: Seq<char>)
    ensures
        find_pk(pks, name) is Some <==> exists|i: int|
            0 <= i < pks.len() && (name == (#[trigger] pks[i]).table || name == pks[i].schema + seq!['.']
                + pks[i].table),
{
    let k = lemma_first_key(pks, name);
    if find_pk(pks, name) is None {
        assert forall|i: int| 0 <= i < pks.len() implies !(name == (#[trigger] pks[i]).table || name == pks[i].schema
            + seq!['.'] + pks[i].table) by {
            assert(!names_table(name, pks[i]));
        }
    }
}

// ── The table ───────────────────────────────────────────────────────

proof fn lemma_word_token(c: Seq<char>, i: int, e: int, before: Before)
    requires
        0 <= i < e <= c.len(),
        is_ascii_letter(c[i]),
        forall|k: int| i <= k < e ==> is_word_char(#[trigger] c[k]),
        e == c.len() || !is_word_char(c[e]),
    ensures
        token_at(c, i, before) == (TokenKind::Ident, e),
{
    if match_at(c, seq!['-', '-'], i) {
        assert(c.subrange(i, i + 2)[0] == c[i]);
    }
    if match_at(c, seq!['/', '*'], i) {
        assert(c.subrange(i, i + 2)[0] == c[i]);
    }
    lemma_run_is(c, i + 1, |x: char| is_word_char(x), e);
}

proof fn lemma_space_token(c: Seq<char>, i: int, before: Before)
    requires
        0 <= i < c.len() - 1,
        c[i] == ' ',
        !is_space(c[i + 1]),
    ensures
        token_at(c, i, before) == (TokenKind::Whitespace, i + 1),
{
    if match_at(c, seq!['-', '-'], i) {
        assert(c.subrange(i, i + 2)[0] == c[i]);
    }
    if match_at(c, seq!['/', '*'], i) {
        assert(c.subrange(i, i + 2)[0] == c[i]);
    }
    lemma_run_is(c, i, |x: char| is_space(x), i + 1);
}

proof fn lemma_name_prefix(name: Seq<char>, rest: Seq<char>)
    requires
        forall|i: int| 0 <= i < name.len() ==> is_name_char(#[trigger] name[i]),
        rest.len() > 0 ==> !is_name_char(rest[0]),
    ensures
        name_prefix(name + rest) == name,
    decreases name.len(),
{
    let c = name + rest;
    if name.len() > 0 {
        let t = name.skip(1);
        assert(is_name_char(name[0]));
        assert(c.skip(1) =~= t + rest);
        assert forall|i: int| 0 <= i < t.len() implies is_name_char(#[trigger] t[i]) by {
            assert(is_name_char(name[i + 1]));
        }
        lemma_name_prefix(t, rest);
        assert(seq![c[0]] + t =~= name);
    } else {
        assert(c =~= rest);
        assert(name =~= Seq::<char>::empty());
    }
}

proof fn lemma_into(name: Seq<char>, rest: Seq<char>)
    requires
        name.len() > 0,
        forall|i: int| 0 <= i < name.len() ==> is_name_char(#[trigger] name[i]),
        !is_space(name[0]),
        rest.len() > 0 ==> !is_name_char(rest[0]),
        is_ascii_chars("INSERT INTO "@ + name + rest),
    ensures
        insert_target("INSERT INTO "@ + name + rest) == Some(replace(name, seq!['"'], Seq::empty())),
{
    reveal_strlit("INSERT INTO ");
    reveal_strlit("INSERT");
    reveal_strlit("INTO ");
    let c = "INSERT INTO "@ + name + rest;
    let u = ascii_uppercase(c);
    assert(trim_start(c) == c);
    assert(u.subrange(0, 6) =~= "INSERT"@);
    lemma_word_token(c, 0, 6, Before::Start);
    let b1 = before_next(c, 0, TokenKind::Ident, Before::Start);
    lemma_space_token(c, 6, b1);
    let b2 = before_next(c, 6, TokenKind::Whitespace, b1);
    lemma_word_token(c, 7, 11, b2);
    let all = lexemes(c);
    let t1 = lexemes_from(c, 6, b1);
    let t2 = lexemes_from(c, 7, b2);
    assert(all[1] == t1[0]);
    assert(all[2] == t1[1]);
    assert(t1[1] == t2[0]);
    assert(lies_in(c, 7, TokenKind::Ident)) by {
        assert(all[2].start <= 7 < all[2].end);
    }
    assert(u.subrange(7, 12) =~= "INTO "@);
    assert forall|p: int| 0 <= p < 7 implies !match_at(u, "INTO "@, p) by {
        if match_at(u, "INTO "@, p) {
            assert(u.subrange(p, p + 5)[0] == u[p] && u.subrange(p, p + 5)[1] == u[p + 1] && u.subrange(
                p,
                p + 5,
            )[2] == u[p + 2]);
            assert(u[0] == 'I' && u[1] == 'N' && u[2] == 'S' && u[3] == 'E' && u[4] == 'R' && u[5] == 'T' && u[6]
                == ' ');
        }
    }
    lemma_found_at(c, "INTO "@, TokenKind::Ident, 0, 7);
    assert(c.skip(12) =~= name + rest);
    assert((name + rest)[0] == name[0]);
    assert(trim_start(name + rest) == name + rest);
    lemma_name_prefix(name, rest);
}

proof fn lemma_found_at(c: Seq<char>, pat: Seq<char>, kind: TokenKind, from: int, p: int)
    requires
        0 <= from <= p,
        match_at(ascii_uppercase(c), pat, p),
        lies_in(c, p, kind),
        forall|k: int| from <= k < p ==> !match_at(ascii_uppercase(c), pat, k),
    ensures
        find_in(c, pat, kind, from) == Some(p),
    decreases p - from,
{
    if from < p {
        assert(!match_at(ascii_uppercase(c), pat, from));
        lemma_found_at(c, pat, kind, from + 1, p);
    }
}

/// The table of an INSERT is the whole name behind INTO, with its schema if it
/// has one, whether it is quoted or not.
pub proof fn law_insert_names_its_table(name: Seq<char>, rest: Seq<char>)
    requires
        name.len() > 0,
        forall|i: int| 0 <= i < name.len() ==> is_word_char(#[trigger] name[i]) || name[i] == '.',
        !is_space(name[0]),
        rest.len() > 0 ==> !is_name_char(rest[0]),
        is_ascii_chars("INSERT INTO "@ + name + rest),
        is_ascii_chars("INSERT INTO "@ + (seq!['"'] + name + seq!['"']) + rest),
    ensures
        insert_target("INSERT INTO "@ + name + rest) == Some(name),
        insert_target("INSERT INTO "@ + (seq!['"'] + name + seq!['"']) + rest) == Some(name),
{
    let q = seq!['"'];
    let none = Seq::<char>::empty();
    lemma_into(name, rest);
    assert forall|k: int| !match_at(name, q, k) by {
        if match_at(name, q, k) {
            assert(name.subrange(k, k + 1)[0] == name[k]);
        }
    }
    law_first_match_is_replaced(name, q, none, 0);
    let quoted = q + name + q;
    assert forall|i: int| 0 <= i < quoted.len() implies is_name_char(#[trigger] quoted[i]) by {
        if 0 < i <= name.len() {
            assert(quoted[i] == name[i - 1]);
        }
    }
    lemma_into(quoted, rest);
    assert(quoted.subrange(0, 1) =~= q);
    law_first_match_is_replaced(quoted, q, none, 0);
    let t = quoted.skip(1);
    assert(t =~= name + q);
    let n = name.len() as int;
    assert(t.subrange(n, n + 1) =~= q);
    assert forall|k: int| 0 <= k < n implies !match_at(t, q, k) by {
        if match_at(t, q, k) {
            assert(t.subrange(k, k + 1)[0] == name[k]);
        }
    }
    law_first_match_is_replaced(t, q, none, n);
    assert(t.take(n) =~= name);
    assert(t.skip(n + 1) =~= none);
    assert forall|k: int| !match_at(none, q, k) by {}
    law_first_match_is_replaced(none, q, none, 0);
    assert(quoted.take(0) + none + (name + none + none) =~= name);
}

// ── Sequences ───────────────────────────────────────────────────────

proof fn lemma_call_seen(f: Seq<char>, w: Seq<char>, rest: Seq<char>)
    requires
        f.len() > 0,
        is_ascii_letter(f[0]),
        forall|i: int| 0 <= i < f.len() ==> is_word_char(#[trigger] f[i]),
        ascii_uppercase(f) == w,
    ensures
        word_at("SELECT "@ + f + seq!['('] + rest, 0, "SELECT"@),
        calls_function("SELECT "@ + f + seq!['('] + rest, w),
{
    reveal_strlit("SELECT ");
    reveal_strlit("SELECT");
    let c = "SELECT "@ + f + seq!['('] + rest;
    let e = 7 + f.len() as int;
    assert forall|k: int| 7 <= k < e implies is_word_char(#[trigger] c[k]) by {
        assert(c[k] == f[k - 7]);
    }
    assert(c[7] == f[0]);
    assert(c[e] == '(');
    lemma_word_token(c, 0, 6, Before::Start);
    let b1 = before_next(c, 0, TokenKind::Ident, Before::Start);
    lemma_space_token(c, 6, b1);
    let b2 = before_next(c, 6, TokenKind::Whitespace, b1);
    lemma_word_token(c, 7, e, b2);
    let b3 = before_next(c, 7, TokenKind::Ident, b2);
    if match_at(c, seq!['-', '-'], e) {
        assert(c.subrange(e, e + 2)[0] == c[e]);
    }
    if match_at(c, seq!['/', '*'], e) {
        assert(c.subrange(e, e + 2)[0] == c[e]);
    }
    assert(token_at(c, e, b3) == (TokenKind::Punct, e + 1));
    let all = lexemes(c);
    let t1 = lexemes_from(c, 6, b1);
    let t2 = lexemes_from(c, 7, b2);
    let t3 = lexemes_from(c, e, b3);
    assert(all[1] == t1[0] && all[2] == t1[1] && all[3] == t1[2]);
    assert(t1[1] == t2[0] && t1[2] == t2[1]);
    assert(t2[1] == t3[0]);
    assert(ascii_uppercase(lexeme_text(c, all[0])) =~= "SELECT"@);
    assert(lexeme_text(c, all[1])[0] == ' ');
    assert(lexeme_text(c, all[2]) =~= f);
    reveal_strlit("(");
    assert(lexeme_text(c, all[3]) =~= "("@);
    assert(name_at(c, 2, w));
    assert(next_token(c, 3) == 3);
    assert(opens_bracket(c, next_token(c, 3)));
}

/// A SELECT of the current value of a sequence is seen, whatever follows; a
/// statement that begins with another word is none.
pub proof fn law_sequence_reads_are_seen(rest: Seq<char>)
    ensures
        reads_sequence("SELECT currval("@ + rest),
        reads_sequence("SELECT lastval("@ + rest),
        rest.len() > 0 && !is_space(rest[0]) && rest[0] != 's' && rest[0] != 'S' ==> !reads_sequence(rest),
{
    reveal_strlit("SELECT currval(");
    reveal_strlit("SELECT lastval(");
    reveal_strlit("SELECT ");
    reveal_strlit("SELECT");
    reveal_strlit("CURRVAL");
    reveal_strlit("LASTVAL");
    let f = seq!['c', 'u', 'r', 'r', 'v', 'a', 'l'];
    let g = seq!['l', 'a', 's', 't', 'v', 'a', 'l'];
    assert(ascii_uppercase(f) =~= "CURRVAL"@);
    assert(ascii_uppercase(g) =~= "LASTVAL"@);
    lemma_call_seen(f, "CURRVAL"@, rest);
    lemma_call_seen(g, "LASTVAL"@, rest);
    let a = "SELECT currval("@ + rest;
    let b = "SELECT lastval("@ + rest;
    assert(a =~= "SELECT "@ + f + seq!['('] + rest);
    assert(b =~= "SELECT "@ + g + seq!['('] + rest);
    assert(trim_start(a) == a);
    assert(trim_start(b) == b);
    if rest.len() > 0 && !is_space(rest[0]) && rest[0] != 's' && rest[0] != 'S' {
        assert(trim_start(rest) == rest);
        if word_at(rest, 0, "SELECT"@) {
            let t = lexeme_text(rest, lexemes(rest)[0]);
            assert(ascii_uppercase(t).len() == 6);
            assert(lexemes(rest)[0].start == 0);
            assert(t[0] == rest[0]);
            assert(ascii_uppercase(t)[0] == 'S');
        }
    }
}

// ── Primary keys ────────────────────────────────────────────────────

/// Texts are ordered: none comes before itself, of two different ones one comes
/// before the other, and what comes before one comes before those behind it.
pub proof fn law_texts_are_ordered(a: Seq<char>, b: Seq<char>, c: Seq<char>)
    ensures
        !text_less(a, a),
        text_less(a, b) ==> !text_less(b, a),
        a != b ==> text_less(a, b) || text_less(b, a),
        text_less(a, b) && text_less(b, c) ==> text_less(a, c),
    decreases a.len() + b.len() + c.len(),
{
    if a.len() > 0 && b.len() > 0 && a[0] == b[0] {
        if a.skip(1) == b.skip(1) {
            assert(a =~= seq![a[0]] + a.skip(1));
            assert(b =~= seq![b[0]] + b.skip(1));
        }
    }
    if a.len() == 0 && b.len() == 0 {
        assert(a =~= b);
    }
    if a.len() > 0 {
        law_texts_are_ordered(
            a.skip(1),
            if b.len() > 0 { b.skip(1) } else { b },
            if c.len() > 0 { c.skip(1) } else { c },
        );
    }
}

/// Whether the tables of keys are in order, none of them twice.
pub open spec fn tables_ordered(pks: Seq<PkView>) -> bool {
    forall|i: int, j: int| 0 <= i < j < pks.len() ==> key_before(#[trigger] pks[i], #[trigger] pks[j])
}

/// Whether the table of a key comes before that of another, by schema and name.
pub open spec fn key_before(a: PkView, b: PkView) -> bool {
    text_less(a.schema, b.schema) || (a.schema == b.schema && text_less(a.table, b.table))
}

/// The columns that belong to a table.
pub open spec fn of_table(schema: Seq<char>, table: Seq<char>) -> spec_fn(PkColumnView) -> bool {
    |c: PkColumnView| c.schema == schema && c.table == table
}

/// The name of a column.
pub open spec fn column_name() -> spec_fn(PkColumnView) -> Seq<char> {
    |c: PkColumnView| c.column
}

/// Whether keys hold, for a table, exactly the given columns: in its one key, or
/// in none if there are no columns.
pub open spec fn keys_hold(pks: Seq<PkView>, schema: Seq<char>, table: Seq<char>, columns: Seq<Seq<char>>) -> bool {
    if columns.len() == 0 {
        forall|i: int| 0 <= i < pks.len() ==> (#[trigger] pks[i]).schema != schema || pks[i].table != table
    } else {
        exists|i: int|
            0 <= i < pks.len() && (#[trigger] pks[i]).schema == schema && pks[i].table == table && pks[i].columns
                == columns
    }
}

proof fn lemma_key_order(a: PkView, b: PkView, c: PkView)
    ensures
        !key_before(a, a),
        a.schema != b.schema || a.table != b.table ==> key_before(a, b) || key_before(b, a),
        key_before(a, b) && key_before(b, c) ==> key_before(a, c),
{
    law_texts_are_ordered(a.schema, b.schema, c.schema);
    law_texts_are_ordered(a.table, b.table, c.table);
}

proof fn lemma_column_added(pks: Seq<PkView>, c: PkColumnView) -> (k: int)
    requires
        tables_ordered(pks),
    ensures
        0 <= k < add_pk_column(pks, c).len(),
        tables_ordered(add_pk_column(pks, c)),
        add_pk_column(pks, c)[k].schema == c.schema,
        add_pk_column(pks, c)[k].table == c.table,
        ({
            let r = add_pk_column(pks, c);
            ||| r.len() == pks.len() && r[k].columns == pks[k].columns.push(c.column) && pks[k].schema == c.schema
                && pks[k].table == c.table && (forall|i: int| 0 <= i < r.len() && i != k ==> #[trigger] r[i] == pks[i])
            ||| r.len() == pks.len() + 1 && r[k].columns == seq![c.column] && (forall|i: int|
                0 <= i < k ==> #[trigger] r[i] == pks[i]) && (forall|i: int|
                k < i < r.len() ==> #[trigger] r[i] == pks[i - 1])
        }),
    decreases pks.len(),
{
    let r = add_pk_column(pks, c);
    let fresh = PkView { schema: c.schema, table: c.table, columns: seq![c.column] };
    if pks.len() == 0 {
        0
    } else if table_same(c, pks[0]) {
        assert forall|i: int| 0 < i < r.len() implies #[trigger] r[i] == pks[i] by {}
        assert forall|i: int, j: int| 0 <= i < j < r.len() implies key_before(#[trigger] r[i], #[trigger] r[j]) by {
            assert(key_before(pks[i], pks[j]));
        }
        0
    } else if table_before(c, pks[0]) {
        assert forall|i: int| 0 < i < r.len() implies #[trigger] r[i] == pks[i - 1] by {}
        assert forall|i: int, j: int| 0 <= i < j < r.len() implies key_before(#[trigger] r[i], #[trigger] r[j]) by {
            if i > 0 {
                assert(key_before(pks[i - 1], pks[j - 1]));
            } else {
                if j > 1 {
                    assert(key_before(pks[0], pks[j - 1]));
                    lemma_key_order(fresh, pks[0], pks[j - 1]);
                }
            }
        }
        0
    } else {
        let t = pks.skip(1);
        assert(tables_ordered(t)) by {
            assert forall|i: int, j: int| 0 <= i < j < t.len() implies key_before(#[trigger] t[i], #[trigger] t[j]) by {
                assert(key_before(pks[i + 1], pks[j + 1]));
            }
        }
        let k = lemma_column_added(t, c);
        let q = add_pk_column(t, c);
        assert(r[0] == pks[0]);
        assert forall|i: int| 0 < i < r.len() implies #[trigger] r[i] == q[i - 1] by {}
        lemma_key_order(pks[0], fresh, fresh);
        assert(key_before(pks[0], fresh));
        assert forall|i: int, j: int| 0 <= i < j < r.len() implies key_before(#[trigger] r[i], #[trigger] r[j]) by {
            if i > 0 {
                assert(key_before(q[i - 1], q[j - 1]));
            } else if j - 1 == k {
                assert(q[k].schema == c.schema && q[k].table == c.table);
            } else if q.len() == t.len() {
                assert(q[j - 1] == t[j - 1]);
                assert(key_before(pks[0], pks[j]));
            } else if j - 1 < k {
                assert(q[j - 1] == t[j - 1]);
                assert(key_before(pks[0], pks[j]));
            } else {
                assert(q[j - 1] == t[j - 2]);
                assert(key_before(pks[0], pks[j - 1]));
            }
        }
        if q.len() == t.len() {
            assert(t[k] == pks[k + 1]);
            assert forall|i: int| 0 <= i < r.len() && i != k + 1 implies #[trigger] r[i] == pks[i] by {
                if i > 0 {
                    assert(q[i - 1] == t[i - 1]);
                }
            }
        } else {
            assert forall|i: int| 0 <= i < k + 1 implies #[trigger] r[i] == pks[i] by {
                if i > 0 {
                    assert(q[i - 1] == t[i - 1]);
                }
            }
            assert forall|i: int| k + 1 < i < r.len() implies #[trigger] r[i] == pks[i - 1] by {
                assert(q[i - 1] == t[i - 2]);
            }
        }
        k + 1
    }
}

/// The columns of a table make up one key, in the order in which they came, and
/// no column of another table belongs to it; the keys are in the order of their
/// tables.
pub proof fn law_columns_are_grouped(cols: Seq<PkColumnView>, schema: Seq<char>, table: Seq<char>)
    ensures
        keys_hold(
            grouped_pks(cols),
            schema,
            table,
            cols.filter(of_table(schema, table)).map_values(column_name()),
        ),
        tables_ordered(grouped_pks(cols)),
    decreases cols.len(),
{
    reveal(Seq::filter);
    let own = cols.filter(of_table(schema, table)).map_values(column_name());
    if cols.len() > 0 {
        let c = cols.last();
        let before = grouped_pks(cols.drop_last());
        let kept = cols.drop_last().filter(of_table(schema, table));
        let own_before = kept.map_values(column_name());
        law_columns_are_grouped(cols.drop_last(), schema, table);
        let k = lemma_column_added(before, c);
        let r = grouped_pks(cols);
        if of_table(schema, table)(c) {
            assert(own =~= own_before.push(c.column));
            if own_before.len() == 0 {
                assert(r.len() == before.len() + 1) by {
                    if r.len() == before.len() {
                        assert(before[k].schema != schema || before[k].table != table);
                    }
                }
                assert(own =~= seq![c.column]);
                assert(r[k].columns == own);
            } else {
                let i = choose|i: int|
                    0 <= i < before.len() && (#[trigger] before[i]).schema == schema && before[i].table == table
                        && before[i].columns == own_before;
                if r.len() == before.len() {
                    assert(i == k) by {
                        lemma_key_order(before[i], before[k], before[i]);
                        if i < k {
                            assert(key_before(before[i], before[k]));
                            law_texts_are_ordered(schema, schema, schema);
                            law_texts_are_ordered(table, table, table);
                        } else if k < i {
                            assert(key_before(before[k], before[i]));
                            law_texts_are_ordered(schema, schema, schema);
                            law_texts_are_ordered(table, table, table);
                        }
                    }
                    assert(r[k].columns == own);
                } else {
                    law_texts_are_ordered(schema, schema, schema);
                    law_texts_are_ordered(table, table, table);
                    if i < k {
                        assert(r[i] == before[i]);
                        assert(key_before(r[i], r[k]));
                    } else {
                        assert(r[i + 1] == before[i]);
                        assert(key_before(r[k], r[i + 1]));
                    }
                }
            }
        } else {
            assert(own =~= own_before);
            if own.len() == 0 {
                assert forall|i: int| 0 <= i < r.len() implies (#[trigger] r[i]).schema != schema || r[i].table
                    != table by {
                    if i != k {
                        if r.len() == before.len() || i < k {
                            assert(r[i] == before[i]);
                        } else {
                            assert(r[i] == before[i - 1]);
                        }
                    }
                }
            } else {
                let i = choose|i: int|
                    0 <= i < before.len() && (#[trigger] before[i]).schema == schema && before[i].table == table
                        && before[i].columns == own_before;
                if r.len() == before.len() || i < k {
                    assert(i != k);
                    assert(r[i] == before[i]);
                } else {
                    assert(r[i + 1] == before[i]);
                }
            }
        }
    } else {
        assert(own.len() == 0);
    }
}

} // verus!
