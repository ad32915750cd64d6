//! Extracts of statement statistics: distinct statements with a duration each,
//! in no real order.

use crate::capture::error::{outcome, CaptureError, ErrorView};
use crate::capture::fraction::{fraction_value, parse_fraction};
use crate::capture::table::{
    all_readable, can_read_all, column, field, field_or_empty, find_column, find_header, get_field,
    get_trimmed, header_of, names_of, place, row_view, row_views, RowModel,
};
use crate::profile::{
    kind_of, plain_metadata, query_views, session_views, Metadata, ProfileView, Query, QueryKind, QueryView,
    Session, SessionView, SourceDialect, Timestamp, WorkloadProfile,
};
use crate::text::{copy_string, from_chars, to_chars, trim, trim_slice, views};
use vstd::prelude::*;

verus! {

/// The duration of a row in whole microseconds, zero if there is none.
pub open spec fn row_duration(row: Seq<Seq<char>>, c: Option<int>) -> u64 {
    match field(row, c) {
        Some(s) => match fraction_value(trim(s), 0, false) {
            Some(us) => us,
            None => 0,
        },
        None => 0,
    }
}

/// The time that a statement takes up in the layout: its duration, at least one
/// microsecond.
pub open spec fn slot(us: u64) -> nat {
    if us == 0 {
        1
    } else {
        us as nat
    }
}

/// The statement of a row.
pub open spec fn row_sql(row: Seq<Seq<char>>, c: int) -> Seq<char> {
    trim(field_or_empty(row, Some(c)))
}

/// The end of the layout of the rows before the `n`th: statements stand one
/// behind the other, rows without one take no time.
pub open spec fn layout_end(rows: Seq<RowModel>, sql: int, duration: Option<int>, n: int) -> nat
    decreases n,
{
    if n <= 1 {
        0
    } else {
        let row = rows[n - 1]->0;
        layout_end(rows, sql, duration, n - 1) + (if row_sql(row, sql).len() == 0 {
            0
        } else {
            slot(row_duration(row, duration))
        })
    }
}

/// The queries of the rows before the `n`th, the header left out.
pub open spec fn layout_queries(rows: Seq<RowModel>, sql: int, duration: Option<int>, n: int) -> Seq<QueryView>
    decreases n,
{
    if n <= 1 {
        Seq::empty()
    } else {
        let row = rows[n - 1]->0;
        let rest = layout_queries(rows, sql, duration, n - 1);
        if row_sql(row, sql).len() == 0 {
            rest
        } else {
            rest.push(
                QueryView {
                    sql: row_sql(row, sql),
                    start_offset_us: layout_end(rows, sql, duration, n - 1) as u64,
                    duration_us: row_duration(row, duration),
                    kind: kind_of(row_sql(row, sql)),
                    transaction_id: None,
                    response_values: None,
                    original_sql: None,
                },
            )
        }
    }
}

/// The sessions of an extract: one with all queries, if there are any.
pub open spec fn summary_sessions(queries: Seq<QueryView>, user: Seq<char>) -> Seq<SessionView> {
    if queries.len() == 0 {
        Seq::empty()
    } else {
        seq![SessionView { id: 1, user, database: Seq::empty(), queries }]
    }
}

/// The workload of an extract with known columns.
pub open spec fn summary_profile(
    rows: Seq<RowModel>,
    sql: int,
    duration: Option<int>,
    source_host: Seq<char>,
    method: Seq<char>,
    dialect: SourceDialect,
    captured_at: Timestamp,
) -> ProfileView {
    let queries = layout_queries(rows, sql, duration, rows.len() as int);
    let sessions = summary_sessions(queries, source_host);
    ProfileView {
        version: 2,
        captured_at,
        source_host,
        pg_version: "unknown"@,
        capture_method: method,
        source_dialect: dialect,
        sessions,
        metadata: plain_metadata(
            queries.len(),
            sessions.len(),
            layout_end(rows, sql, duration, rows.len() as int),
        ),
    }
}

/// The workload of an extract: the statement column is the first of
/// `sql_names`, the duration column, if any, the first of `duration_names`.
pub open spec fn summary_workload(
    rows: Seq<RowModel>,
    sql_names: Seq<Seq<char>>,
    duration_names: Seq<Seq<char>>,
    source_host: Seq<char>,
    method: Seq<char>,
    dialect: SourceDialect,
    captured_at: Timestamp,
) -> Result<ProfileView, ErrorView> {
    match header_of(rows) {
        None => Err(ErrorView::NoHeader),
        Some(headers) => match column(headers, sql_names) {
            None => Err(ErrorView::MissingColumn(sql_names[0], headers)),
            Some(sql) => {
                let duration = column(headers, duration_names);
                if !all_readable(rows) {
                    Err(ErrorView::BadRow)
                } else if layout_end(rows, sql, duration, rows.len() as int) > u64::MAX {
                    Err(ErrorView::TooLong)
                } else {
                    Ok(
                        summary_profile(
                            rows,
                            sql,
                            duration,
                            source_host,
                            method,
                            dialect,
                            captured_at,
                        ),
                    )
                }
            },
        },
    }
}

/// Whether no two of the queries overlap, and each starts where the one before
/// it ends, or a microsecond behind its start if that takes no time.
pub open spec fn one_behind_the_other(qs: Seq<QueryView>) -> bool {
    forall|i: int|
        0 <= i < qs.len() - 1 ==> (#[trigger] qs[i + 1]).start_offset_us == qs[i].start_offset_us + slot(
            qs[i].duration_us,
        )
}

proof fn lemma_layout(rows: Seq<RowModel>, sql: int, duration: Option<int>, n: int)
    requires
        layout_end(rows, sql, duration, n) <= u64::MAX,
    ensures
        one_behind_the_other(layout_queries(rows, sql, duration, n)),
        layout_queries(rows, sql, duration, n).len() > 0 ==> {
            let last = layout_queries(rows, sql, duration, n).last();
            last.start_offset_us + slot(last.duration_us) == layout_end(rows, sql, duration, n)
        },
        layout_queries(rows, sql, duration, n).len() == 0 ==> layout_end(rows, sql, duration, n) == 0,
        layout_queries(rows, sql, duration, n).len() > 0 ==> layout_queries(
            rows,
            sql,
            duration,
            n,
        )[0].start_offset_us == 0,
    decreases n,
{
    if n > 1 {
        lemma_layout(rows, sql, duration, n - 1);
        let rest = layout_queries(rows, sql, duration, n - 1);
        let all = layout_queries(rows, sql, duration, n);
        if all.len() > rest.len() {
            assert forall|i: int| 0 <= i < all.len() - 1 implies (#[trigger] all[i + 1]).start_offset_us
                == all[i].start_offset_us + slot(all[i].duration_us) by {
                if i + 1 < rest.len() {
                    assert(all[i + 1] == rest[i + 1]);
                    assert(all[i] == rest[i]);
                } else {
                    assert(all[i] == rest.last());
                }
            }
        }
    }
}

/// The statements of an extract are laid out from zero, one behind the other.
pub proof fn law_layout_is_sequential(rows: Seq<RowModel>, sql: int, duration: Option<int>)
    requires
        layout_end(rows, sql, duration, rows.len() as int) <= u64::MAX,
    ensures
        one_behind_the_other(layout_queries(rows, sql, duration, rows.len() as int)),
        layout_queries(rows, sql, duration, rows.len() as int).len() > 0 ==> layout_queries(
            rows,
            sql,
            duration,
            rows.len() as int,
        )[0].start_offset_us == 0,
{
    lemma_layout(rows, sql, duration, rows.len() as int);
}

proof fn lemma_end_grows(rows: Seq<RowModel>, sql: int, duration: Option<int>, i: int, n: int)
    requires
        i <= n,
    ensures
        layout_end(rows, sql, duration, i) <= layout_end(rows, sql, duration, n),
    decreases n - i,
{
    if i < n {
        lemma_end_grows(rows, sql, duration, i, n - 1);
    }
}

fn read_duration(row: &Vec<String>, c: Option<usize>) -> (r: u64)
    ensures
        r == row_duration(views(row@), place(c)),
{
    match get_field(row, c) {
        Some(s) => {
            let chars = to_chars(s);
            match parse_fraction(trim_slice(&chars), 0, false) {
                Some(us) => us,
                None => 0,
            }
        },
        None => 0,
    }
}

/// The queries of an extract and the end of their layout, if that fits.
fn lay_out(rows: &Vec<Option<Vec<String>>>, sql_col: usize, duration_col: Option<usize>) -> (r: Option<
    (Vec<Query>, u64),
>)
    requires
        all_readable(row_views(rows@)),
    ensures
        r is Some <==> layout_end(row_views(rows@), sql_col as int, place(duration_col), rows@.len() as int)
            <= u64::MAX,
        r matches Some(p) ==> query_views(p.0@) == layout_queries(
            row_views(rows@),
            sql_col as int,
            place(duration_col),
            rows@.len() as int,
        ) && p.1 == layout_end(row_views(rows@), sql_col as int, place(duration_col), rows@.len() as int),
{
    let ghost all = row_views(rows@);
    let ghost s = sql_col as int;
    let ghost d = place(duration_col);
    let mut queries: Vec<Query> = Vec::new();
    let mut offset: u64 = 0;
    proof {
        assert(query_views(queries@) =~= layout_queries(all, s, d, 1));
        assert(query_views(queries@) =~= layout_queries(all, s, d, 0));
    }
    let mut i: usize = 1;
    while i < rows.len()
        invariant
            1 <= i,
            i <= rows@.len() || i == 1,
            all == row_views(rows@),
            all_readable(all),
            s == sql_col as int,
            d == place(duration_col),
            query_views(queries@) == layout_queries(all, s, d, i as int),
            offset == layout_end(all, s, d, i as int),
        decreases rows@.len() - i,
    {
        proof {
            assert(all[i as int] == row_view(rows@[i as int]));
            assert(all[i as int] is Some);
        }
        if let Some(row) = &rows[i] {
            let text = get_trimmed(row, Some(sql_col));
            if text.len() > 0 {
                let ghost before = query_views(queries@);
                let sql = from_chars(&text);
                let duration_us: u64 = read_duration(row, duration_col);
                let kind = QueryKind::from_sql(sql.as_str());
                let q = Query {
                    sql,
                    start_offset_us: offset,
                    duration_us,
                    kind,
                    transaction_id: None,
                    response_values: None,
                    original_sql: None,
                };
                let ghost qv = q@;
                queries.push(q);
                proof {
                    assert(query_views(queries@) =~= before.push(qv));
                }
                let step: u64 = if duration_us == 0 { 1 } else { duration_us };
                if offset > u64::MAX - step {
                    proof {
                        lemma_end_grows(all, s, d, i + 1, all.len() as int);
                    }
                    return None;
                }
                offset = offset + step;
            }
        }
        i = i + 1;
    }
    proof {
        if all.len() == 0 {
            assert(layout_end(all, s, d, 0) == 0);
        }
    }
    Some((queries, offset))
}

/// Makes the workload of an extract.
pub fn capture_summary(
    rows: &Vec<Option<Vec<String>>>,
    sql_names: &[&str],
    duration_names: &[&str],
    source_host: &str,
    method: &str,
    dialect: SourceDialect,
    captured_at: Timestamp,
) -> (r: Result<WorkloadProfile, CaptureError>)
    requires
        sql_names@.len() > 0,
    ensures
        outcome(r) == summary_workload(
            row_views(rows@),
            names_of(sql_names@),
            names_of(duration_names@),
            source_host@,
            method@,
            dialect,
            captured_at,
        ),
{
    let headers = match find_header(rows) {
        Some(headers) => headers,
        None => return Err(CaptureError::NoHeader),
    };
    let sql_col: usize = match find_column(&headers, sql_names) {
        Some(c) => c,
        None => return Err(
            CaptureError::MissingColumn { column: copy_string(sql_names[0]), headers },
        ),
    };
    let duration_col = find_column(&headers, duration_names);
    if !can_read_all(rows) {
        return Err(CaptureError::BadRow);
    }
    let (queries, end) = match lay_out(rows, sql_col, duration_col) {
        Some(p) => p,
        None => return Err(CaptureError::TooLong),
    };
    let ghost qs = query_views(queries@);
    let total_queries = queries.len() as u64;
    let mut sessions: Vec<Session> = Vec::new();
    if queries.len() > 0 {
        sessions.push(
            Session { id: 1, user: copy_string(source_host), database: String::new(), queries },
        );
    }
    proof {
        assert(session_views(sessions@) =~= summary_sessions(qs, source_host@));
    }
    let total_sessions = sessions.len() as u64;
    Ok(
        WorkloadProfile {
            version: 2,
            captured_at,
            source_host: copy_string(source_host),
            pg_version: copy_string("unknown"),
            capture_method: copy_string(method),
            source_dialect: dialect,
            sessions,
            metadata: Metadata {
                total_queries,
                total_sessions,
                capture_duration_us: end,
                sequence_snapshot: None,
                pk_map: None,
            },
        },
    )
}

} // verus!
