//! Laws of the traces and extracts of Oracle and SQL Server.

use crate::capture::csv_log::csv_workload;
use crate::capture::fraction::ten_to;
use crate::capture::mssql_trace::{field_number, is_completed, trace_entries, trace_entry, Columns};
use crate::capture::mssql_xevents::{
    closed_tag, event_entry, event_of, event_sql, is_completed_event, opened, text_read, EventModel,
    XEventsModel,
};
use crate::capture::oracle_trace::{
    begins_event, bind_literal, bind_value, bind_values, executed, fill, next_line, parsed, parsing_cursor,
    section_end, statement_end, trace_step, TraceModel,
};
use crate::capture::rds::rds_workload;
use crate::capture::summary::{layout_queries, row_duration, row_sql, summary_sessions};
use crate::capture::table::{column, field, is_named, law_column_is_first, same_word, RowModel};
use crate::capture::xml::unescaped;
use crate::laws::csv_log::{is_trimmed, law_fraction_is_read, law_trim_takes_space_off};
use crate::laws::texts::law_first_match_is_replaced;
use crate::number::{all_digits, decimal, digits_value, law_decimal_read_back, law_decimal_value};
use crate::profile::{kind_of, QueryView, Timestamp};
use crate::text::{
    ascii_upper, ascii_uppercase, is_digit, is_space, join, match_at, starts_with, trim, trim_start,
};
use vstd::prelude::*;

verus! {

// ── Oracle: bind values ─────────────────────────────────────────────

/// A value in double quotes becomes a string between single quotes; single
/// quotes in it are doubled. Any other value stays as it is.
pub proof fn law_bind_value_is_written(t: Seq<char>, a: Seq<char>, b: Seq<char>, v: Seq<char>)
    requires
        forall|i: int| 0 <= i < t.len() ==> #[trigger] t[i] != '\'',
        forall|i: int| 0 <= i < a.len() ==> #[trigger] a[i] != '\'',
        forall|i: int| 0 <= i < b.len() ==> #[trigger] b[i] != '\'',
    ensures
        bind_literal(seq!['"'] + t + seq!['"']) == seq!['\''] + t + seq!['\''],
        bind_literal(seq!['"'] + (a + seq!['\''] + b) + seq!['"']) == seq!['\''] + a + seq!['\'', '\''] + b
            + seq!['\''],
        is_trimmed(v) && v[0] != '"' ==> bind_literal(v) == v,
{
    let none = Seq::<char>::empty();
    let q = seq!['\''];
    let qq = seq!['\'', '\''];
    let s = seq!['"'] + t + seq!['"'];
    law_trim_takes_space_off(none, s, none);
    assert(s.subrange(1, s.len() - 1) =~= t);
    lemma_unquoted(t);
    law_first_match_is_replaced(t, q, qq, 0);
    let u = a + q + b;
    let c = seq!['"'] + u + seq!['"'];
    law_trim_takes_space_off(none, c, none);
    assert(c.subrange(1, c.len() - 1) =~= u);
    let n = a.len() as int;
    assert(u.subrange(n, n + 1) =~= q);
    assert forall|k: int| 0 <= k < n implies !match_at(u, q, k) by {
        if match_at(u, q, k) {
            assert(u.subrange(k, k + 1)[0] == a[k]);
        }
    }
    law_first_match_is_replaced(u, q, qq, n);
    assert(u.take(n) =~= a);
    assert(u.skip(n + 1) =~= b);
    lemma_unquoted(b);
    law_first_match_is_replaced(b, q, qq, 0);
    assert(q + (a + qq + b) + q =~= q + a + qq + b + q);
    if is_trimmed(v) {
        law_trim_takes_space_off(none, v, none);
    }
}

proof fn lemma_unquoted(t: Seq<char>)
    requires
        forall|i: int| 0 <= i < t.len() ==> #[trigger] t[i] != '\'',
    ensures
        forall|k: int| !match_at(t, seq!['\''], k),
{
    assert forall|k: int| !match_at(t, seq!['\''], k) by {
        if match_at(t, seq!['\''], k) {
            assert(t.subrange(k, k + 1)[0] == t[k]);
        }
    }
}

/// A placeholder is replaced by its value, and stays where there is none.
pub proof fn law_placeholder_takes_its_value(a: Seq<char>, p: Seq<char>, v: Seq<char>, b: Seq<char>)
    ensures
        fill(seq![a, b], seq![p], seq![v], 2) == a + bind_literal(v) + b,
        fill(seq![a, b], seq![p], Seq::empty(), 2) == a + p + b,
{
    reveal_with_fuel(fill, 3);
    let none = Seq::<char>::empty();
    assert(none + a + bind_literal(v) + b + none =~= a + bind_literal(v) + b);
    assert(none + a + p + b + none =~= a + p + b);
}

/// Placeholders take their values in order: the first ones those that come
/// first, the ones behind them the rest.
pub proof fn law_values_go_in_order(
    g1: Seq<Seq<char>>,
    p1: Seq<Seq<char>>,
    v1: Seq<Seq<char>>,
    g2: Seq<Seq<char>>,
    p2: Seq<Seq<char>>,
    v2: Seq<Seq<char>>,
    n: int,
)
    requires
        g1.len() == p1.len(),
        p1.len() == v1.len(),
        0 <= n <= g2.len(),
    ensures
        fill(g1 + g2, p1 + p2, v1 + v2, g1.len() + n) == fill(g1, p1, v1, g1.len() as int) + fill(g2, p2, v2, n),
    decreases n,
{
    let k = g1.len() as int;
    if n == 0 {
        lemma_fill_prefix(g1, p1, v1, g2, p2, v2, k);
        assert(fill(g1, p1, v1, k) + Seq::<char>::empty() =~= fill(g1, p1, v1, k));
    } else {
        law_values_go_in_order(g1, p1, v1, g2, p2, v2, n - 1);
        assert((g1 + g2)[k + n - 1] == g2[n - 1]);
        if n - 1 < p2.len() {
            assert((p1 + p2)[k + n - 1] == p2[n - 1]);
            if n - 1 < v2.len() {
                assert((v1 + v2)[k + n - 1] == v2[n - 1]);
            }
        }
        let x = crate::capture::oracle_trace::filled(p2, v2, n - 1);
        assert(fill(g1, p1, v1, k) + fill(g2, p2, v2, n - 1) + g2[n - 1] + x =~= fill(g1, p1, v1, k) + (fill(
            g2,
            p2,
            v2,
            n - 1,
        ) + g2[n - 1] + x));
    }
}

proof fn lemma_fill_prefix(
    g1: Seq<Seq<char>>,
    p1: Seq<Seq<char>>,
    v1: Seq<Seq<char>>,
    g2: Seq<Seq<char>>,
    p2: Seq<Seq<char>>,
    v2: Seq<Seq<char>>,
    n: int,
)
    requires
        g1.len() == p1.len(),
        p1.len() == v1.len(),
        0 <= n <= g1.len(),
    ensures
        fill(g1 + g2, p1 + p2, v1 + v2, n) == fill(g1, p1, v1, n),
    decreases n,
{
    if n > 0 {
        lemma_fill_prefix(g1, p1, v1, g2, p2, v2, n - 1);
        assert((g1 + g2)[n - 1] == g1[n - 1]);
        assert((p1 + p2)[n - 1] == p1[n - 1]);
        assert((v1 + v2)[n - 1] == v1[n - 1]);
    }
}

/// The values of a section are those of its lines, in order; a line has one
/// where it begins with its name, behind white space.
pub proof fn law_section_values(ls: Seq<Seq<char>>, a: int, b: int, c: int, space: Seq<char>, v: Seq<char>)
    requires
        a <= b <= c,
        forall|i: int| 0 <= i < space.len() ==> is_space(#[trigger] space[i]),
        is_trimmed(v),
    ensures
        bind_values(ls, a, c) == bind_values(ls, a, b) + bind_values(ls, b, c),
        bind_values(ls, a, a + 1) == (match bind_value(ls[a]) {
            Some(x) => seq![x],
            None => Seq::empty(),
        }),
        bind_value(space + ("value="@ + v)) == Some(v),
        v[0] != 'v' ==> bind_value(v) is None,
    decreases c - b,
{
    reveal_strlit("value=");
    reveal_with_fuel(bind_values, 2);
    let none = Seq::<char>::empty();
    let t = "value="@ + v;
    assert(bind_values(ls, a, a).len() == 0);
    law_trim_takes_space_off(space, t, none);
    assert(space + t + none =~= space + t);
    assert(t + none =~= t);
    assert(t.subrange(0, 6) =~= "value="@);
    assert(t.skip(6) =~= v);
    law_trim_takes_space_off(none, v, none);
    assert(trim_start(v) == v);
    if v[0] != 'v' && starts_with(v, "value="@) {
        assert(v.subrange(0, 6)[0] == v[0]);
    }
    if b < c {
        law_section_values(ls, a, b, c - 1, space, v);
        if let Some(x) = bind_value(ls[c - 1]) {
            assert(bind_values(ls, a, b) + bind_values(ls, b, c - 1).push(x) =~= (bind_values(ls, a, b) + bind_values(
                ls,
                b,
                c - 1,
            )).push(x));
        }
    } else {
        assert(bind_values(ls, a, b) + Seq::<Seq<char>>::empty() =~= bind_values(ls, a, b));
    }
}

// ── Oracle: statements ──────────────────────────────────────────────

proof fn lemma_statement_end_at(ls: Seq<Seq<char>>, i: int, e: int)
    requires
        0 <= i <= e < ls.len(),
        forall|k: int| i <= k < e ==> !starts_with(#[trigger] ls[k], "END OF STMT"@),
        starts_with(ls[e], "END OF STMT"@),
    ensures
        statement_end(ls, i) == e,
    decreases e - i,
{
    if i < e {
        assert(!starts_with(ls[i], "END OF STMT"@));
        lemma_statement_end_at(ls, i + 1, e);
    }
}

/// The statement of a cursor is all lines up to the one that ends it, joined by
/// spaces, and reading goes on behind that line.
pub proof fn law_cursor_statement_is_read(ls: Seq<Seq<char>>, i: int, e: int, m: TraceModel)
    requires
        0 <= i < e < ls.len(),
        parsing_cursor(ls[i]) is Some,
        forall|k: int| i < k < e ==> !starts_with(#[trigger] ls[k], "END OF STMT"@),
        starts_with(ls[e], "END OF STMT"@),
    ensures
        trace_step(ls, i, m).cursors.contains_key(parsing_cursor(ls[i])->0),
        ({
            let (sql, dep) = trace_step(ls, i, m).cursors[parsing_cursor(ls[i])->0];
            sql == trim(join(ls.subrange(i + 1, e), " "@))
        }),
        trace_step(ls, i, m).queries == m.queries,
        trace_step(ls, i, m).binds == m.binds,
        next_line(ls, i) == e + 1,
        forall|c: Seq<char>|
            c != parsing_cursor(ls[i])->0 && m.cursors.contains_key(c) ==> trace_step(ls, i, m).cursors.contains_key(c)
                && trace_step(ls, i, m).cursors[c] == m.cursors[c],
{
    assert forall|k: int| i + 1 <= k < e implies !starts_with(#[trigger] ls[k], "END OF STMT"@) by {}
    lemma_statement_end_at(ls, i + 1, e);
}

/// An executed statement becomes a query behind the others, under the time that
/// has passed since the first one, if it was parsed at the top level; one that
/// runs inside another, or of an unknown cursor, does not.
pub proof fn law_executed_statement_is_a_query(
    m: TraceModel,
    cursor: Seq<char>,
    sql: Seq<char>,
    dep: u64,
    elapsed: u64,
    tim: u64,
)
    requires
        !m.binds.contains_key(cursor),
        sql.len() > 0,
    ensures
        ({
            let after = executed(parsed(m, cursor, sql, dep), cursor, elapsed, tim);
            &&& dep == 0 ==> after.queries.len() == m.queries.len() + 1 && after.queries.drop_last() == m.queries && ({
                let q = after.queries.last();
                &&& q.sql == sql
                &&& q.duration_us == elapsed
                &&& q.kind == kind_of(sql)
                &&& m.first_tim is None ==> q.start_offset_us == 0 && after.first_tim == Some(tim)
                &&& m.first_tim matches Some(first) ==> first <= tim ==> first + q.start_offset_us == tim
                &&& m.first_tim matches Some(first) ==> after.first_tim == Some(first)
            })
            &&& dep > 0 ==> after.queries == m.queries
        }),
        !m.cursors.contains_key(cursor) ==> executed(m, cursor, elapsed, tim) == m,
{
    let p = parsed(m, cursor, sql, dep);
    let after = executed(p, cursor, elapsed, tim);
    assert(p.cursors[cursor] == (sql, dep));
    if dep == 0 {
        assert(after.queries.drop_last() =~= m.queries);
    }
}

/// A section ends at the first line that begins an event; the lines that do so
/// are told by their first word.
pub proof fn law_events_end_a_section(ls: Seq<Seq<char>>, i: int, e: int, rest: Seq<char>)
    requires
        0 <= i <= e < ls.len(),
        forall|k: int| i <= k < e ==> !begins_event(#[trigger] ls[k]),
        begins_event(ls[e]),
    ensures
        section_end(ls, i) == e,
        begins_event("EXEC "@ + rest),
        begins_event("BINDS "@ + rest),
        begins_event("PARSING IN CURSOR"@ + rest),
        begins_event("FETCH "@ + rest),
    decreases e - i,
{
    assert(("EXEC "@ + rest).subrange(0, "EXEC "@.len() as int) =~= "EXEC "@);
    assert(("BINDS "@ + rest).subrange(0, "BINDS "@.len() as int) =~= "BINDS "@);
    assert(("PARSING IN CURSOR"@ + rest).subrange(0, "PARSING IN CURSOR"@.len() as int) =~= "PARSING IN CURSOR"@);
    assert(("FETCH "@ + rest).subrange(0, "FETCH "@.len() as int) =~= "FETCH "@);
    if i < e {
        assert(!begins_event(ls[i]));
        law_events_end_a_section(ls, i + 1, e, rest);
    }
}

// ── Tables ──────────────────────────────────────────────────────────

/// Two texts are the same word just where they differ in nothing but the case of
/// letters.
pub proof fn law_same_word_but_for_case(a: Seq<char>, b: Seq<char>)
    ensures
        same_word(a, b) <==> a.len() == b.len() && forall|i: int|
            0 <= i < a.len() ==> #[trigger] a[i] == b[i] || ascii_upper(a[i]) == ascii_upper(b[i]),
        same_word(a, a),
        same_word(a, ascii_uppercase(a)),
{
    let x = ascii_uppercase(a);
    let y = ascii_uppercase(b);
    assert(x.len() == a.len() && y.len() == b.len());
    if same_word(a, b) {
        assert forall|i: int| 0 <= i < a.len() implies #[trigger] a[i] == b[i] || ascii_upper(a[i]) == ascii_upper(
            b[i],
        ) by {
            assert(x[i] == y[i]);
        }
    }
    if a.len() == b.len() && (forall|i: int|
        0 <= i < a.len() ==> #[trigger] a[i] == b[i] || ascii_upper(a[i]) == ascii_upper(b[i])) {
        assert(x =~= y);
    }
    assert(ascii_uppercase(x) =~= x);
}

/// A column is found under any of its names, in whatever case, and the field of
/// a row in it is the one at its place.
pub proof fn law_column_is_found(headers: Seq<Seq<char>>, names: Seq<Seq<char>>, row: Seq<Seq<char>>, i: int, k: int)
    requires
        0 <= i < headers.len(),
        0 <= k < names.len(),
        same_word(headers[i], names[k]),
        forall|j: int| 0 <= j < i ==> !is_named(#[trigger] headers[j], names),
    ensures
        column(headers, names) == Some(i),
        i < row.len() ==> field(row, column(headers, names)) == Some(row[i]),
        row.len() <= i ==> field(row, column(headers, names)) is None,
{
    law_column_is_first(headers, names);
    assert(is_named(headers[i], names));
}

// ── SQL Server: traces ──────────────────────────────────────────────

proof fn lemma_number_field(row: Seq<Seq<char>>, c: Option<int>, n: u64)
    requires
        field(row, c) == Some(decimal(n as nat)),
    ensures
        field_number(row, c) == n,
{
    law_decimal_value(n as nat);
    let d = decimal(n as nat);
    assert(is_digit(d[0]) && is_digit(d[d.len() - 1]));
    law_trim_takes_space_off(Seq::empty(), d, Seq::empty());
    law_decimal_read_back(n as nat, u64::MAX as nat);
}

/// A row with a statement of a completed batch or call becomes an entry with the
/// session, the duration, the user and the database that the row was written
/// with.
pub proof fn law_trace_row_is_an_entry(
    row: Seq<Seq<char>>,
    cols: Columns,
    time: Option<Timestamp>,
    sql: Seq<char>,
    spid: u64,
    us: u64,
)
    requires
        is_trimmed(sql),
        field(row, Some(cols.text)) == Some(sql),
        field(row, cols.spid) == Some(decimal(spid as nat)),
        field(row, cols.duration) == Some(decimal(us as nat)),
        cols.event_class is None || field(row, cols.event_class) == Some("10"@) || field(row, cols.event_class)
            == Some("12"@),
    ensures
        trace_entry(row, cols, time) is Some,
        ({
            let e = trace_entry(row, cols, time)->0;
            &&& e.sql == sql
            &&& e.session == spid
            &&& e.duration_us == us
            &&& e.time == time
            &&& field(row, cols.login) matches Some(user) ==> e.user == user
            &&& field(row, cols.database) matches Some(database) ==> e.database == database
            &&& e.keep
        }),
{
    law_trim_takes_space_off(Seq::empty(), sql, Seq::empty());
    lemma_number_field(row, cols.spid, spid);
    lemma_number_field(row, cols.duration, us);
    reveal_strlit("10");
    reveal_strlit("12");
    law_trim_takes_space_off(Seq::empty(), "10"@, Seq::empty());
    law_trim_takes_space_off(Seq::empty(), "12"@, Seq::empty());
}

/// A row of another event, or without a statement, becomes no entry.
pub proof fn law_other_trace_rows_are_left_out(
    row: Seq<Seq<char>>,
    cols: Columns,
    time: Option<Timestamp>,
    class: Seq<char>,
)
    requires
        is_trimmed(class),
    ensures
        field(row, Some(cols.text)) is None ==> trace_entry(row, cols, time) is None,
        field(row, cols.event_class) == Some(class) && class != "10"@ && class != "12"@ && !same_word(
            class,
            "RPC:Completed"@,
        ) && !same_word(class, "SQL:BatchCompleted"@) ==> trace_entry(row, cols, time) is None,
        is_completed("10"@) && is_completed("12"@),
        same_word(class, "RPC:Completed"@) || same_word(class, "SQL:BatchCompleted"@) ==> is_completed(class),
{
    law_trim_takes_space_off(Seq::empty(), class, Seq::empty());
    assert(trim(Seq::<char>::empty()).len() == 0);
}

/// The entries of a trace are those of its rows, in their order, where each row
/// has one.
pub proof fn law_trace_rows_stand_in_order(rows: Seq<RowModel>, cols: Columns, n: int, k: int)
    requires
        1 <= n <= rows.len(),
        forall|i: int|
            1 <= i < n ==> trace_entry(
                (#[trigger] rows[i])->0,
                cols,
                crate::capture::mssql_trace::field_time(rows[i]->0, cols.start_time),
            ) is Some,
        1 <= k < n,
    ensures
        trace_entries(rows, cols, n).len() == n - 1,
        Some(trace_entries(rows, cols, n)[k - 1]) == trace_entry(
            rows[k]->0,
            cols,
            crate::capture::mssql_trace::field_time(rows[k]->0, cols.start_time),
        ),
    decreases n,
{
    assert(rows[n - 1] == rows[n - 1]);
    if n > 2 {
        if k < n - 1 {
            law_trace_rows_stand_in_order(rows, cols, n - 1, k);
        } else {
            law_trace_rows_stand_in_order(rows, cols, n - 1, 1);
        }
    } else {
        assert(trace_entries(rows, cols, 1).len() == 0);
    }
}

// ── Extracts ────────────────────────────────────────────────────────

/// The duration of a row is the whole part of the number in its column.
pub proof fn law_row_duration_is_read(row: Seq<Seq<char>>, c: Option<int>, w: Seq<char>, f: Seq<char>)
    requires
        w.len() > 0,
        f.len() > 0,
        all_digits(w),
        all_digits(f),
        field(row, c) == Some(w + seq!['.'] + f),
        digits_value(w + f) < u64::MAX,
    ensures
        row_duration(row, c) * ten_to(f.len() as int) <= digits_value(w + f),
        digits_value(w + f) < (row_duration(row, c) + 1) * ten_to(f.len() as int),
{
    let s = w + seq!['.'] + f;
    assert(is_digit(w[0]) && is_digit(f[f.len() - 1]));
    assert(s[0] == w[0] && s.last() == f.last());
    law_trim_takes_space_off(Seq::empty(), s, Seq::empty());
    let us = law_fraction_is_read(w, f, 0, false);
    let unit = ten_to(f.len() as int) as int;
    crate::laws::numbers::lemma_ten_positive(f.len() as int);
    let one = ten_to(0);
    assert(one == 1);
    let v = digits_value(w + f);
    assert(v * one == v) by (nonlinear_arith)
        requires
            one == 1,
    ;
    assert(us <= us * unit) by (nonlinear_arith)
        requires
            unit >= 1,
            us >= 0,
    ;
}

/// The queries of an extract are the statements of its rows in their order, each
/// with its duration; a row without a statement takes no part.
pub proof fn law_extract_rows_are_queries(rows: Seq<RowModel>, sql: int, duration: Option<int>, n: int, k: int)
    requires
        1 <= n <= rows.len(),
        forall|i: int| 1 <= i < n ==> row_sql((#[trigger] rows[i])->0, sql).len() > 0,
        1 <= k < n,
    ensures
        layout_queries(rows, sql, duration, n).len() == n - 1,
        ({
            let q = layout_queries(rows, sql, duration, n)[k - 1];
            &&& q.sql == row_sql(rows[k]->0, sql)
            &&& q.duration_us == row_duration(rows[k]->0, duration)
            &&& q.kind == kind_of(q.sql)
            &&& q.transaction_id is None
        }),
        n < rows.len() && row_sql(rows[n]->0, sql).len() == 0 ==> layout_queries(rows, sql, duration, n + 1)
            == layout_queries(rows, sql, duration, n),
    decreases n,
{
    assert(row_sql(rows[n - 1]->0, sql).len() > 0);
    if n > 2 {
        if k < n - 1 {
            law_extract_rows_are_queries(rows, sql, duration, n - 1, k);
        } else {
            law_extract_rows_are_queries(rows, sql, duration, n - 1, 1);
        }
    } else {
        assert(layout_queries(rows, sql, duration, 1).len() == 0);
    }
}

/// The queries of an extract make up one session, and none makes none.
pub proof fn law_extract_is_one_session(queries: Seq<QueryView>, user: Seq<char>)
    ensures
        queries.len() == 0 ==> summary_sessions(queries, user).len() == 0,
        queries.len() > 0 ==> summary_sessions(queries, user).len() == 1 && summary_sessions(queries, user)[0].queries
            == queries && summary_sessions(queries, user)[0].user == user && summary_sessions(queries, user)[0].id == 1,
{
}

// ── SQL Server: extended events ─────────────────────────────────────

/// The text between the tags of a value is the field of the event that the tag
/// around them names; the event's other fields stay.
pub proof fn law_field_is_read(m: XEventsModel, e: EventModel, name: Seq<char>, text: Seq<char>, tag: Seq<char>)
    requires
        m.current == Some(e),
        tag == "data"@ || tag == "action"@,
        unescaped(text) is Some,
        is_trimmed(unescaped(text)->0),
    ensures
        ({
            let a = opened(m, tag, seq![Some(("name"@, Ok(name)))]);
            let b = opened(a->Ok_0, "value"@, Seq::empty());
            let c = text_read(b->Ok_0, Some(text));
            let d = closed_tag(closed_tag(c->Ok_0, "value"@), tag);
            &&& a is Ok && b is Ok && c is Ok
            &&& d.current is Some
            &&& (d.current->0).fields.contains_key(name)
            &&& (d.current->0).fields[name] == unescaped(text)->0
            &&& (d.current->0).name == e.name
            &&& (d.current->0).time == e.time
            &&& forall|f: Seq<char>|
                f != name && e.fields.contains_key(f) ==> (d.current->0).fields.contains_key(f)
                    && (d.current->0).fields[f] == e.fields[f]
            &&& d.field is None
            &&& !d.in_value
            &&& d.entries == m.entries
        }),
{
    reveal_strlit("event");
    reveal_strlit("data");
    reveal_strlit("action");
    reveal_strlit("value");
    reveal_strlit("text");
    reveal_strlit("name");
    assert("event"@[0] == 'e');
    assert("data"@[0] == 'd');
    assert("action"@[0] == 'a');
    assert("value"@[0] == 'v');
    assert("text"@[0] == 't');
    reveal_with_fuel(crate::capture::mssql_xevents::field_of, 2);
    let attributes = seq![Some(("name"@, Ok::<Seq<char>, Seq<char>>(name)))];
    assert(attributes[0] == Some(("name"@, Ok::<Seq<char>, Seq<char>>(name))));
    let a = opened(m, tag, attributes);
    assert(a is Ok && a->Ok_0.field == Some(name));
    let b = opened(a->Ok_0, "value"@, Seq::empty());
    assert(b is Ok && b->Ok_0.in_value && b->Ok_0.value.len() == 0);
    let u = unescaped(text)->0;
    assert(b->Ok_0.value + u =~= u);
    law_trim_takes_space_off(Seq::empty(), u, Seq::empty());
}

/// A completed event with a statement becomes an entry when it ends, with the
/// session, the duration and the database of its fields; another event does not.
pub proof fn law_event_becomes_an_entry(m: XEventsModel, e: EventModel, session: u64, us: u64)
    requires
        m.current == Some(e),
    ensures
        ({
            let after = closed_tag(m, "event"@);
            let sql = event_sql(e);
            &&& after.current is None
            &&& is_completed_event(e.name) && sql.len() > 0 ==> after.entries.len() == m.entries.len() + 1
                && after.entries.drop_last() == m.entries && after.entries.last().sql == sql
                && after.entries.last().time == e.time
            &&& is_completed_event(e.name) && sql.len() > 0 && e.fields.contains_key("session_id"@)
                && e.fields["session_id"@] == decimal(session as nat) ==> after.entries.last().session == session
            &&& is_completed_event(e.name) && sql.len() > 0 && e.fields.contains_key("duration"@)
                && e.fields["duration"@] == decimal(us as nat) ==> after.entries.last().duration_us == us
            &&& is_completed_event(e.name) && sql.len() > 0 && e.fields.contains_key("database_name"@)
                ==> after.entries.last().database == e.fields["database_name"@]
            &&& !is_completed_event(e.name) || sql.len() == 0 ==> after.entries == m.entries
        }),
{
    reveal_strlit("event");
    reveal_strlit("data");
    reveal_strlit("action");
    reveal_strlit("value");
    reveal_strlit("text");
    assert("event"@[0] == 'e');
    assert("data"@[0] == 'd');
    assert("action"@[0] == 'a');
    assert("value"@[0] == 'v');
    assert("text"@[0] == 't');
    law_decimal_read_back(session as nat, u64::MAX as nat);
    law_decimal_read_back(us as nat, u64::MAX as nat);
    let after = closed_tag(m, "event"@);
    if is_completed_event(e.name) && event_sql(e).len() > 0 {
        assert(after.entries.drop_last() =~= m.entries);
    }
}

/// The four events that complete a statement are taken, and no other.
pub proof fn law_completed_events(e: EventModel)
    ensures
        is_completed_event("sql_batch_completed"@),
        is_completed_event("rpc_completed"@),
        is_completed_event("sql_statement_completed"@),
        is_completed_event("sp_statement_completed"@),
        e.name != "sql_batch_completed"@ && e.name != "rpc_completed"@ && e.name != "sql_statement_completed"@ && e.name
            != "sp_statement_completed"@ ==> event_entry(e) is None,
        e.fields.contains_key("batch_text"@) ==> event_sql(e) == e.fields["batch_text"@],
        !e.fields.contains_key("batch_text"@) && e.fields.contains_key("statement"@) ==> event_sql(e)
            == e.fields["statement"@],
        !e.fields.contains_key("batch_text"@) && !e.fields.contains_key("statement"@) ==> event_sql(e).len() == 0,
{
}

/// The name of an event is that of its tag, and it begins without fields.
pub proof fn law_event_is_named_by_its_tag(m: XEventsModel, name: Seq<char>)
    ensures
        ({
            let a = opened(m, "event"@, seq![Some(("name"@, Ok(name)))]);
            &&& a is Ok
            &&& a->Ok_0.current is Some
            &&& (a->Ok_0.current->0).name == name
            &&& (a->Ok_0.current->0).fields == Map::<Seq<char>, Seq<char>>::empty()
            &&& a->Ok_0.entries == m.entries
        }),
{
    reveal_with_fuel(event_of, 2);
    let attributes = seq![Some(("name"@, Ok::<Seq<char>, Seq<char>>(name)))];
    assert(attributes[0] == Some(("name"@, Ok::<Seq<char>, Seq<char>>(name))));
}

// ── RDS ─────────────────────────────────────────────────────────────

/// The workload of an RDS log holds the sessions of the log, under a method of
/// its own.
pub proof fn law_rds_log_is_a_log(rows: Seq<RowModel>, source_host: Seq<char>, now: Timestamp)
    ensures
        ({
            let log = csv_workload(rows, source_host, "unknown"@, now);
            let rds = rds_workload(rows, source_host, now);
            &&& rds is Ok <==> log is Ok
            &&& rds is Ok ==> rds->Ok_0.sessions == log->Ok_0.sessions && rds->Ok_0.metadata == log->Ok_0.metadata
                && rds->Ok_0.capture_method == "rds"@ && rds->Ok_0.source_host == log->Ok_0.source_host
            &&& rds is Err ==> rds->Err_0 == log->Err_0
        }),
{
}

} // verus!
