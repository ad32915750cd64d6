//! Laws of whole workloads: what a capture reads from its source.

use crate::capture::entries::{log_sessions, log_workload, EntryView};
use crate::capture::error::ErrorView;
use crate::capture::mssql_querystore::querystore_workload;
use crate::capture::mssql_trace::{columns_of, trace_entries, trace_workload};
use crate::capture::mssql_xevents::{item_read, items_read, xevents_workload};
use crate::capture::mysql_slow::{slow_entries, slow_lines, slow_start, slow_step, slow_workload};
use crate::capture::oracle_awr::awr_workload;
use crate::capture::oracle_trace::{oracle_workload, trace_from, trace_start, trace_step, TraceModel};
use crate::capture::summary::{layout_end, layout_queries, summary_workload};
use crate::capture::table::{column, is_named, law_column_is_first, same_word, RowModel};
use crate::capture::xml::XmlModel;
use crate::classify::{class_count, class_name, class_of, classification_of, counts_of, WorkloadClass};
use crate::compare::junit::{case_text, cases_text, junit_text, JunitCase};
use crate::laws::kinds::writing;
use crate::laws::slow_log::{after_lines, begin_in_order, law_sessions_are_ordered};
use crate::number::decimal;
use crate::profile::{with_all_txns, with_txns, ProfileView, QueryView, SessionView, SourceDialect, Timestamp};
use crate::proxy::capture::{collected, collected_all, finished, EventView, SessionStateView};
use crate::proxy::connection::timeout_of;
use crate::replay::scaling::{workload_writes, write_warning};
use crate::text::{lines, trim};
use vstd::prelude::*;

verus! {

// ── MySQL ───────────────────────────────────────────────────────────

/// The lines of a log without the white space around them.
pub open spec fn trimmed_lines(text: Seq<char>) -> Seq<Seq<char>> {
    Seq::new(lines(text).len(), |i: int| trim(lines(text)[i]))
}

proof fn lemma_lines_from_the_start(ls: Seq<Seq<char>>, now: Timestamp, n: int)
    requires
        0 <= n <= ls.len(),
    ensures
        slow_lines(ls, now, n) == after_lines(slow_start(), Seq::new(ls.len(), |i: int| trim(ls[i])), now, n),
    decreases n,
{
    if n > 0 {
        lemma_lines_from_the_start(ls, now, n - 1);
    }
}

/// A log is read line by line from its start, where nothing is known; a statement
/// at its very end is an entry as if an empty line followed.
pub proof fn law_log_is_read_line_by_line(text: Seq<char>, now: Timestamp)
    ensures
        slow_entries(text, now) == slow_step(
            after_lines(slow_start(), trimmed_lines(text), now, lines(text).len() as int),
            Seq::empty(),
            now,
        ).entries,
        slow_start().entries.len() == 0,
        slow_start().sql_lines.len() == 0,
        slow_start().time is None,
        !slow_start().in_query,
{
    let ls = lines(text);
    lemma_lines_from_the_start(ls, now, ls.len() as int);
    assert(trimmed_lines(text) =~= Seq::new(ls.len(), |i: int| trim(ls[i])));
}

/// The workload of a log holds all sessions of its entries, in the order in
/// which they begin.
pub proof fn law_slow_workload(es: Seq<EntryView>, host: Seq<char>, at: Timestamp)
    requires
        es.len() < u64::MAX,
    ensures
        slow_workload(es, host, at) is Ok,
        ({
            let p = slow_workload(es, host, at)->Ok_0;
            &&& begin_in_order(p.sessions)
            &&& p.sessions.to_multiset() == with_all_txns(log_sessions(es)).to_multiset()
            &&& p.source_host == host
            &&& p.source_dialect == SourceDialect::MySql
            &&& p.capture_method == "mysql_slow_log"@
            &&& p.captured_at == at
        }),
{
    law_sessions_are_ordered(with_all_txns(log_sessions(es)));
}

// ── SQL Server ──────────────────────────────────────────────────────

/// Whether a column is the first of one of two names, or neither name is there.
pub open spec fn is_column_of(headers: Seq<Seq<char>>, c: Option<int>, a: Seq<char>, b: Seq<char>) -> bool {
    match c {
        Some(i) => 0 <= i < headers.len() && (same_word(headers[i], a) || same_word(headers[i], b)) && (forall|j: int|
            0 <= j < i ==> !same_word(#[trigger] headers[j], a) && !same_word(headers[j], b)),
        None => forall|j: int|
            0 <= j < headers.len() ==> !same_word(#[trigger] headers[j], a) && !same_word(headers[j], b),
    }
}

proof fn lemma_column_of_two(headers: Seq<Seq<char>>, a: Seq<char>, b: Seq<char>)
    ensures
        is_column_of(headers, column(headers, seq![a, b]), a, b),
{
    let names = seq![a, b];
    law_column_is_first(headers, names);
    assert(names[0] == a && names[1] == b);
    assert forall|j: int| 0 <= j < headers.len() && !is_named(#[trigger] headers[j], names) implies !same_word(
        headers[j],
        a,
    ) && !same_word(headers[j], b) by {
        assert(same_word(headers[j], names[0]) ==> is_named(headers[j], names));
        assert(same_word(headers[j], names[1]) ==> is_named(headers[j], names));
    }
    if let Some(i) = column(headers, names) {
        let k = choose|k: int| 0 <= k < names.len() && same_word(headers[i], #[trigger] names[k]);
        assert(k == 0 || k == 1);
    }
}

/// The columns of a trace are found under the names that the tools give them.
pub proof fn law_trace_columns(headers: Seq<Seq<char>>)
    requires
        columns_of(headers) is Some,
    ensures
        ({
            let c = columns_of(headers)->0;
            &&& is_column_of(headers, c.duration, "duration"@, "duration_us"@)
            &&& is_column_of(headers, c.start_time, "starttime"@, "start_time"@)
            &&& is_column_of(headers, c.spid, "spid"@, "session_id"@)
            &&& is_column_of(headers, c.database, "databasename"@, "database_name"@)
            &&& is_column_of(headers, c.login, "loginname"@, "login_name"@)
            &&& is_column_of(headers, c.event_class, "eventclass"@, "event_class"@)
            &&& 0 <= c.text < headers.len()
            &&& same_word(headers[c.text], "textdata"@) || same_word(headers[c.text], "text_data"@) || same_word(
                headers[c.text],
                "sql_text"@,
            ) || same_word(headers[c.text], "sqltext"@)
        }),
{
    lemma_column_of_two(headers, "duration"@, "duration_us"@);
    lemma_column_of_two(headers, "starttime"@, "start_time"@);
    lemma_column_of_two(headers, "spid"@, "session_id"@);
    lemma_column_of_two(headers, "databasename"@, "database_name"@);
    lemma_column_of_two(headers, "loginname"@, "login_name"@);
    lemma_column_of_two(headers, "eventclass"@, "event_class"@);
    let names = seq!["textdata"@, "text_data"@, "sql_text"@, "sqltext"@];
    law_column_is_first(headers, names);
    let i = columns_of(headers)->0.text;
    let k = choose|k: int| 0 <= k < names.len() && same_word(headers[i], #[trigger] names[k]);
    assert(k == 0 || k == 1 || k == 2 || k == 3);
}

/// A trace is refused without a column for its statements, with the header that
/// it has, and where a row cannot be read; else its rows make up its workload.
pub proof fn law_trace_is_read(rows: Seq<RowModel>, host: Seq<char>, at: Timestamp, k: int)
    requires
        rows.len() > 0,
    ensures
        rows[0] is None ==> trace_workload(rows, host, at) == Err::<ProfileView, ErrorView>(ErrorView::NoHeader),
        rows[0] is Some && columns_of(rows[0]->0) is None ==> trace_workload(rows, host, at) == Err::<
            ProfileView,
            ErrorView,
        >(ErrorView::MissingColumn("TextData"@, rows[0]->0)),
        rows[0] is Some && columns_of(rows[0]->0) is Some && 1 <= k < rows.len() && rows[k] is None ==> trace_workload(
            rows,
            host,
            at,
        ) == Err::<ProfileView, ErrorView>(ErrorView::BadRow),
        rows[0] is Some && columns_of(rows[0]->0) is Some && (forall|i: int|
            1 <= i < rows.len() ==> (#[trigger] rows[i]) is Some) ==> trace_workload(rows, host, at) == log_workload(
            trace_entries(rows, columns_of(rows[0]->0)->0, rows.len() as int),
            true,
            host,
            "unknown"@,
            "mssql_trace"@,
            SourceDialect::SqlServer,
            at,
        ),
{
}

/// Items of a document are read one behind the other, up to the first that
/// cannot be read.
pub proof fn law_document_is_read_in_order(items: Seq<XmlModel>, n: int, host: Seq<char>, at: Timestamp)
    requires
        0 <= n < items.len(),
    ensures
        items_read(items, n) matches Ok(m) ==> items_read(items, n + 1) == item_read(m, items[n]),
        items_read(items, n) matches Err(e) ==> items_read(items, n + 1) is Err && items_read(items, n + 1)->Err_0 == e,
        items_read(items, 0) is Ok && items_read(items, 0)->Ok_0.entries.len() == 0 && items_read(items, 0)->Ok_0.current
            is None,
        items_read(items, items.len() as int) matches Err(e) ==> xevents_workload(items, host, at) is Err
            && xevents_workload(items, host, at)->Err_0 == e,
        items_read(items, items.len() as int) matches Ok(m) ==> xevents_workload(items, host, at) == log_workload(
            m.entries,
            true,
            host,
            "unknown"@,
            "mssql_xevents"@,
            SourceDialect::SqlServer,
            at,
        ),
        items[n] is Failed && items_read(items, n) is Ok ==> items_read(items, n + 1) is Err,
{
}

// ── Extracts ────────────────────────────────────────────────────────

/// An extract is refused without a column for its statements and where a row
/// cannot be read; else its queries are those of its rows, and its duration is
/// the end of the last.
pub proof fn law_extract_is_read(
    rows: Seq<RowModel>,
    names: Seq<Seq<char>>,
    durations: Seq<Seq<char>>,
    host: Seq<char>,
    method: Seq<char>,
    dialect: SourceDialect,
    at: Timestamp,
    k: int,
)
    requires
        rows.len() > 0,
        rows[0] is Some,
    ensures
        ({
            let r = summary_workload(rows, names, durations, host, method, dialect, at);
            let c = column(rows[0]->0, names);
            let d = column(rows[0]->0, durations);
            &&& c is None ==> r == Err::<ProfileView, ErrorView>(ErrorView::MissingColumn(names[0], rows[0]->0))
            &&& c is Some && 1 <= k < rows.len() && rows[k] is None ==> r == Err::<ProfileView, ErrorView>(
                ErrorView::BadRow,
            )
            &&& c is Some && (forall|i: int| 1 <= i < rows.len() ==> (#[trigger] rows[i]) is Some) && layout_end(
                rows,
                c->0,
                d,
                rows.len() as int,
            ) <= u64::MAX ==> r is Ok && r->Ok_0.capture_method == method && r->Ok_0.source_dialect == dialect
                && r->Ok_0.source_host == host && r->Ok_0.metadata.capture_duration_us == layout_end(
                rows,
                c->0,
                d,
                rows.len() as int,
            ) && r->Ok_0.metadata.total_queries as nat == layout_queries(rows, c->0, d, rows.len() as int).len() as u64
                && (layout_queries(rows, c->0, d, rows.len() as int).len() > 0 ==> r->Ok_0.sessions.len() == 1
                && r->Ok_0.sessions[0].queries == layout_queries(rows, c->0, d, rows.len() as int))
        }),
{
}

/// The extracts of Oracle's AWR and of SQL Server's Query Store have their
/// statements and durations under the names that the tools give them.
pub proof fn law_extract_columns(rows: Seq<RowModel>, host: Seq<char>, at: Timestamp, i: int)
    requires
        rows.len() > 0,
        rows[0] is Some,
        0 <= i < (rows[0]->0).len(),
        same_word((rows[0]->0)[i], "query_sql_text"@),
    ensures
        querystore_workload(rows, host, at) is Err ==> querystore_workload(rows, host, at)->Err_0 is BadRow
            || querystore_workload(rows, host, at)->Err_0 is TooLong,
        querystore_workload(rows, host, at) matches Ok(p) ==> p.source_dialect == SourceDialect::SqlServer
            && p.capture_method == "mssql_querystore"@,
        awr_workload(rows, host, at) matches Ok(p) ==> p.source_dialect == SourceDialect::Oracle && p.capture_method
            == "oracle_awr"@,
{
    let names = seq!["query_sql_text"@, "sql_text"@, "sql text"@, "sqltext"@, "sql"@];
    law_column_is_first(rows[0]->0, names);
    assert(names[0] == "query_sql_text"@);
    assert(is_named((rows[0]->0)[i], names));
}

// ── Oracle ──────────────────────────────────────────────────────────

/// The queries of a trace make up one session, with their transactions, and the
/// workload lasts until its last query has ended.
pub proof fn law_oracle_workload(qs: Seq<QueryView>, host: Seq<char>, at: Timestamp)
    requires
        0 < qs.len() < u64::MAX,
        qs.last().start_offset_us + qs.last().duration_us <= u64::MAX,
    ensures
        oracle_workload(qs, host, at) is Ok,
        ({
            let p = oracle_workload(qs, host, at)->Ok_0;
            &&& p.sessions.len() == 1
            &&& p.sessions[0].queries == with_txns(qs, 1)
            &&& p.sessions[0].user == host
            &&& p.metadata.capture_duration_us == qs.last().start_offset_us + qs.last().duration_us
            &&& p.metadata.total_queries == qs.len()
            &&& p.metadata.total_sessions == 1
            &&& p.source_dialect == SourceDialect::Oracle
        }),
{
}

/// Reading a trace begins with nothing, takes what begins at a line, and goes on
/// behind it.
pub proof fn law_trace_is_read_in_order(ls: Seq<Seq<char>>, i: int, m: TraceModel)
    requires
        0 <= i < ls.len(),
    ensures
        trace_from(ls, i, m) == trace_from(ls, crate::capture::oracle_trace::next_line(ls, i), trace_step(ls, i, m)),
        trace_from(ls, ls.len() as int, m) == m,
        trace_start().queries.len() == 0,
        trace_start().first_tim is None,
{
}

// ── Classes ─────────────────────────────────────────────────────────

/// The sessions of a class.
pub open spec fn of_class(c: WorkloadClass) -> spec_fn(SessionView) -> bool {
    |s: SessionView| class_of(s) == c
}

/// The sessions of each class are counted, and every session is of one class.
pub proof fn law_sessions_are_classified(s: Seq<SessionView>)
    ensures
        class_count(s, WorkloadClass::Bulk) == s.filter(of_class(WorkloadClass::Bulk)).len(),
        class_count(s, WorkloadClass::Analytical) == s.filter(of_class(WorkloadClass::Analytical)).len(),
        class_count(s, WorkloadClass::Transactional) == s.filter(of_class(WorkloadClass::Transactional)).len(),
        class_count(s, WorkloadClass::Mixed) == s.filter(of_class(WorkloadClass::Mixed)).len(),
        class_count(s, WorkloadClass::Bulk) + class_count(s, WorkloadClass::Analytical) + class_count(
            s,
            WorkloadClass::Transactional,
        ) + class_count(s, WorkloadClass::Mixed) == s.len(),
    decreases s.len(),
{
    reveal(Seq::filter);
    if s.len() > 0 {
        law_sessions_are_classified(s.drop_last());
    }
}

/// The counts of a report are those of the sessions of each class.
pub proof fn law_class_counts(s: Seq<SessionView>)
    requires
        s.len() <= u64::MAX,
    ensures
        counts_of(s).analytical == class_count(s, WorkloadClass::Analytical),
        counts_of(s).transactional == class_count(s, WorkloadClass::Transactional),
        counts_of(s).mixed == class_count(s, WorkloadClass::Mixed),
        counts_of(s).bulk == class_count(s, WorkloadClass::Bulk),
{
    law_sessions_are_classified(s);
}

/// The names of classes tell them apart.
pub proof fn law_class_names_differ(a: WorkloadClass, b: WorkloadClass)
    ensures
        class_name(a) == class_name(b) ==> a == b,
{
    reveal_strlit("Analytical");
    reveal_strlit("Transactional");
    reveal_strlit("Mixed");
    reveal_strlit("Bulk");
    assert("Analytical"@[0] == 'A');
    assert("Transactional"@[0] == 'T');
    assert("Mixed"@[0] == 'M');
    assert("Bulk"@[0] == 'B');
}

/// A session is classified under its number, with its numbers of queries, reads
/// and writes.
pub proof fn law_classification(s: SessionView)
    requires
        s.queries.len() <= u64::MAX,
    ensures
        classification_of(s).session_id == s.id,
        classification_of(s).class == class_of(s),
        classification_of(s).query_count == s.queries.len(),
        classification_of(s).reads == s.queries.filter(crate::laws::kinds::reading()).len(),
        classification_of(s).writes == s.queries.filter(writing()).len(),
        classification_of(s).transaction_count == s.queries.filter(crate::laws::kinds::begins()).len(),
{
    crate::laws::kinds::law_class_counts_kinds(s.queries);
    s.queries.lemma_filter_len(crate::laws::kinds::reading());
    s.queries.lemma_filter_len(writing());
    s.queries.lemma_filter_len(crate::laws::kinds::begins());
}

// ── Scaling ─────────────────────────────────────────────────────────

/// The writes of a workload are those of its sessions, and the warning names
/// them and all queries.
pub proof fn law_writes_add_up(s: Seq<SessionView>, x: SessionView, writes: nat, total: nat)
    ensures
        workload_writes(Seq::<SessionView>::empty()) == 0,
        workload_writes(s.push(x)) == workload_writes(s) + x.queries.filter(writing()).len(),
        write_warning(writes, total).subrange(
            "Warning: scaling a workload with "@.len() as int,
            ("Warning: scaling a workload with "@.len() + decimal(writes).len()) as int,
        ) == decimal(writes),
{
    assert(s.push(x).drop_last() =~= s);
    crate::laws::kinds::law_class_counts_kinds(x.queries);
    let n = "Warning: scaling a workload with "@.len() as int;
    assert(write_warning(writes, total).subrange(n, n + decimal(writes).len()) =~= decimal(writes));
}

// ── The proxy ───────────────────────────────────────────────────────

/// Events are collected one behind the other, and a finished session keeps what
/// was collected of it.
pub proof fn law_events_are_collected_in_order(events: Seq<EventView>, e: EventView, s: SessionStateView)
    ensures
        collected_all(events.push(e)) == collected(collected_all(events), e),
        collected_all(Seq::<EventView>::empty()).len() == 0,
        finished(s).id == s.id,
        finished(s).user == s.user,
        finished(s).database == s.database,
        finished(s).queries == s.queries,
{
    assert(events.push(e).drop_last() =~= events);
}

/// A timeout of zero is none; any other is kept.
pub proof fn law_timeouts(secs: u64)
    ensures
        timeout_of(0) is None,
        secs > 0 ==> timeout_of(secs) == Some(secs),
{
}

// ── Test reports ────────────────────────────────────────────────────

/// The cases of a report follow one another, each with its own text, and the
/// report holds them all with their numbers.
pub proof fn law_report_holds_its_cases(v: Seq<JunitCase>, c: JunitCase, time: Seq<char>)
    ensures
        cases_text(v.push(c), v.len() as int + 1) == cases_text(v, v.len() as int) + case_text(c@),
        cases_text(v, 0).len() == 0,
        crate::text::contains(junit_text(v, time), cases_text(v, v.len() as int)),
{
    let n = v.len() as int;
    lemma_cases_prefix(v, c, n);
    let cases = cases_text(v, n);
    let tests = decimal(v.len());
    let failed = decimal(crate::compare::junit::failures(v, n));
    let head = "<?xml version=\"1.0\" encoding=\"UTF-8\"?>\n"@ + "<testsuites tests=\""@ + tests + "\" failures=\""@
        + failed + "\" time=\""@ + time + "\">\n"@ + "  <testsuite name=\"pg-retest\" tests=\""@ + tests
        + "\" failures=\""@ + failed + "\">\n"@;
    let t = junit_text(v, time);
    let k = head.len() as int;
    assert(t.subrange(k, k + cases.len()) =~= cases);
    assert(crate::text::match_at(t, cases, k));
}

proof fn lemma_cases_prefix(v: Seq<JunitCase>, c: JunitCase, n: int)
    requires
        n <= v.len(),
    ensures
        cases_text(v.push(c), n) == cases_text(v, n),
    decreases n,
{
    if n > 0 {
        lemma_cases_prefix(v, c, n - 1);
        assert(v.push(c)[n - 1] == v[n - 1]);
    }
}

} // verus!
