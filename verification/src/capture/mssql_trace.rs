//! A SQL Server Profiler trace table: one row for each event, with literal SQL
//! text and durations in microseconds.

use crate::capture::entries::{build_workload, entry_views, log_workload, EntryView, LogEntry};
use crate::capture::error::{outcome, CaptureError, ErrorView};
use crate::capture::table::{
    all_readable, can_read_all, column, csv_rows, field, field_or_empty, find_column, find_header, get_field,
    get_text, get_trimmed, header_of, is_same_word, names_of, place, read_rows, row_view, row_views, same_word,
    RowModel,
};
use crate::capture::time::{
    either_datetime, formatted_datetime, offset_datetime, parse_with_format, parse_with_offset,
};
use crate::number::{parse_u64, parse_unsigned};
use crate::profile::{ProfileView, SourceDialect, Timestamp, WorkloadProfile};
use crate::text::{chars_are, copy_string, from_chars, to_chars, trim, trim_slice, views};
use vstd::prelude::*;

verus! {

/// The point in time of a text: with an offset, or in UTC as SQL Server writes
/// it.
pub open spec fn mssql_timestamp(s: Seq<char>) -> Option<Timestamp> {
    either_datetime(offset_datetime(trim(s)), formatted_datetime(trim(s), "%Y-%m-%d %H:%M:%S%.f"@))
}

/// The point in time of a text.
pub fn parse_mssql_timestamp(s: &str) -> (r: Option<Timestamp>)
    ensures
        r == mssql_timestamp(s@),
{
    let all = to_chars(s);
    let text = from_chars(trim_slice(&all));
    if let Some(t) = parse_with_offset(text.as_str()) {
        return Some(t);
    }
    parse_with_format(text.as_str(), "%Y-%m-%d %H:%M:%S%.f")
}

/// The columns of a trace table.
pub struct Columns {
    pub text: int,
    pub duration: Option<int>,
    pub start_time: Option<int>,
    pub spid: Option<int>,
    pub database: Option<int>,
    pub login: Option<int>,
    pub event_class: Option<int>,
}

/// The columns of a header, if it has one for the SQL text.
pub open spec fn columns_of(headers: Seq<Seq<char>>) -> Option<Columns> {
    match column(headers, seq!["textdata"@, "text_data"@, "sql_text"@, "sqltext"@]) {
        Some(text) => Some(
            Columns {
                text,
                duration: column(headers, seq!["duration"@, "duration_us"@]),
                start_time: column(headers, seq!["starttime"@, "start_time"@]),
                spid: column(headers, seq!["spid"@, "session_id"@]),
                database: column(headers, seq!["databasename"@, "database_name"@]),
                login: column(headers, seq!["loginname"@, "login_name"@]),
                event_class: column(headers, seq!["eventclass"@, "event_class"@]),
            },
        ),
        None => None,
    }
}

/// Whether an event class stands for a completed batch or call.
pub open spec fn is_completed(class: Seq<char>) -> bool {
    class == "10"@ || class == "12"@ || same_word(class, "RPC:Completed"@) || same_word(
        class,
        "SQL:BatchCompleted"@,
    )
}

/// A whole number in a field, zero if there is none.
pub open spec fn field_number(row: Seq<Seq<char>>, c: Option<int>) -> u64 {
    match field(row, c) {
        Some(s) => match parse_unsigned(trim(s), u64::MAX as nat) {
            Some(n) => n as u64,
            None => 0,
        },
        None => 0,
    }
}

/// The point in time in a field.
pub open spec fn field_time(row: Seq<Seq<char>>, c: Option<int>) -> Option<Timestamp> {
    match field(row, c) {
        Some(s) => mssql_timestamp(s),
        None => None,
    }
}

/// A row as an entry that happened at a point in time, if it is a completed
/// statement.
pub open spec fn trace_entry(row: Seq<Seq<char>>, cols: Columns, time: Option<Timestamp>) -> Option<EntryView> {
    let sql = trim(field_or_empty(row, Some(cols.text)));
    if cols.event_class is Some && !is_completed(trim(field_or_empty(row, cols.event_class))) {
        None
    } else if sql.len() == 0 {
        None
    } else {
        Some(
            EntryView {
                session: field_number(row, cols.spid),
                time,
                user: field_or_empty(row, cols.login),
                database: field_or_empty(row, cols.database),
                duration_us: field_number(row, cols.duration),
                sql,
                keep: true,
            },
        )
    }
}

/// The entries of the rows before the `n`th, the header left out.
pub open spec fn trace_entries(rows: Seq<RowModel>, cols: Columns, n: int) -> Seq<EntryView>
    decreases n,
{
    if n <= 1 {
        Seq::empty()
    } else {
        let row = rows[n - 1]->0;
        match trace_entry(row, cols, field_time(row, cols.start_time)) {
            Some(e) => trace_entries(rows, cols, n - 1).push(e),
            None => trace_entries(rows, cols, n - 1),
        }
    }
}

/// The workload of a trace table.
pub open spec fn trace_workload(rows: Seq<RowModel>, source_host: Seq<char>, captured_at: Timestamp) -> Result<
    ProfileView,
    ErrorView,
> {
    match header_of(rows) {
        None => Err(ErrorView::NoHeader),
        Some(headers) => match columns_of(headers) {
            None => Err(ErrorView::MissingColumn("TextData"@, headers)),
            Some(cols) => if !all_readable(rows) {
                Err(ErrorView::BadRow)
            } else {
                log_workload(
                    trace_entries(rows, cols, rows.len() as int),
                    true,
                    source_host,
                    "unknown"@,
                    "mssql_trace"@,
                    SourceDialect::SqlServer,
                    captured_at,
                )
            },
        },
    }
}

/// The columns of a trace table by number.
#[derive(Debug)]
pub struct TraceColumns {
    pub text: usize,
    pub duration: Option<usize>,
    pub start_time: Option<usize>,
    pub spid: Option<usize>,
    pub database: Option<usize>,
    pub login: Option<usize>,
    pub event_class: Option<usize>,
}

impl View for TraceColumns {
    type V = Columns;

    open spec fn view(&self) -> Columns {
        Columns {
            text: self.text as int,
            duration: place(self.duration),
            start_time: place(self.start_time),
            spid: place(self.spid),
            database: place(self.database),
            login: place(self.login),
            event_class: place(self.event_class),
        }
    }
}

fn find_columns(headers: &Vec<String>) -> (r: Option<TraceColumns>)
    ensures
        r is Some <==> columns_of(views(headers@)) is Some,
        r matches Some(c) ==> columns_of(views(headers@)) == Some(c@),
{
    let text_names: Vec<&str> = vec!["textdata", "text_data", "sql_text", "sqltext"];
    let duration_names: Vec<&str> = vec!["duration", "duration_us"];
    let time_names: Vec<&str> = vec!["starttime", "start_time"];
    let spid_names: Vec<&str> = vec!["spid", "session_id"];
    let database_names: Vec<&str> = vec!["databasename", "database_name"];
    let login_names: Vec<&str> = vec!["loginname", "login_name"];
    let class_names: Vec<&str> = vec!["eventclass", "event_class"];
    proof {
        assert(names_of(text_names@) =~= seq!["textdata"@, "text_data"@, "sql_text"@, "sqltext"@]);
        assert(names_of(duration_names@) =~= seq!["duration"@, "duration_us"@]);
        assert(names_of(time_names@) =~= seq!["starttime"@, "start_time"@]);
        assert(names_of(spid_names@) =~= seq!["spid"@, "session_id"@]);
        assert(names_of(database_names@) =~= seq!["databasename"@, "database_name"@]);
        assert(names_of(login_names@) =~= seq!["loginname"@, "login_name"@]);
        assert(names_of(class_names@) =~= seq!["eventclass"@, "event_class"@]);
    }
    let text: usize = match find_column(headers, text_names.as_slice()) {
        Some(c) => c,
        None => return None,
    };
    Some(
        TraceColumns {
            text,
            duration: find_column(headers, duration_names.as_slice()),
            start_time: find_column(headers, time_names.as_slice()),
            spid: find_column(headers, spid_names.as_slice()),
            database: find_column(headers, database_names.as_slice()),
            login: find_column(headers, login_names.as_slice()),
            event_class: find_column(headers, class_names.as_slice()),
        },
    )
}

fn read_number(row: &Vec<String>, c: Option<usize>) -> (r: u64)
    ensures
        r == field_number(views(row@), place(c)),
{
    match get_field(row, c) {
        Some(s) => {
            let chars = to_chars(s);
            match parse_u64(trim_slice(&chars), u64::MAX) {
                Some(n) => n,
                None => 0,
            }
        },
        None => 0,
    }
}

/// A row as an entry that happened at a point in time.
pub fn entry_from_row(row: &Vec<String>, cols: &TraceColumns, time: Option<Timestamp>) -> (r: Option<LogEntry>)
    ensures
        r is Some <==> trace_entry(views(row@), cols@, time) is Some,
        r matches Some(e) ==> trace_entry(views(row@), cols@, time) == Some(e@),
{
    if cols.event_class.is_some() {
        let class = get_trimmed(row, cols.event_class);
        if !(chars_are(&class, "10") || chars_are(&class, "12") || is_same_word(&class, "RPC:Completed")
            || is_same_word(&class, "SQL:BatchCompleted")) {
            return None;
        }
    }
    let sql = get_trimmed(row, Some(cols.text));
    if sql.len() == 0 {
        return None;
    }
    Some(
        LogEntry {
            session: read_number(row, cols.spid),
            time,
            user: get_text(row, cols.login),
            database: get_text(row, cols.database),
            duration_us: read_number(row, cols.duration),
            sql: from_chars(&sql),
            keep: true,
        },
    )
}

/// A SQL Server Profiler trace table.
#[derive(Debug)]
pub struct MssqlTraceCapture;

impl MssqlTraceCapture {
    /// The workload of a table's rows.
    pub fn capture_from_rows(
        &self,
        rows: &Vec<Option<Vec<String>>>,
        source_host: &str,
        captured_at: Timestamp,
    ) -> (r: Result<WorkloadProfile, CaptureError>)
        ensures
            outcome(r) == trace_workload(row_views(rows@), source_host@, captured_at),
    {
        let headers = match find_header(rows) {
            Some(headers) => headers,
            None => return Err(CaptureError::NoHeader),
        };
        let cols = match find_columns(&headers) {
            Some(cols) => cols,
            None => return Err(
                CaptureError::MissingColumn { column: copy_string("TextData"), headers },
            ),
        };
        if !can_read_all(rows) {
            return Err(CaptureError::BadRow);
        }
        let ghost all = row_views(rows@);
        let mut entries: Vec<LogEntry> = Vec::new();
        proof {
            assert(entry_views(entries@) =~= trace_entries(all, cols@, 1));
            assert(entry_views(entries@) =~= trace_entries(all, cols@, 0));
        }
        let mut i: usize = 1;
        while i < rows.len()
            invariant
                1 <= i,
                i <= rows@.len() || i == 1,
                all == row_views(rows@),
                all_readable(all),
                entry_views(entries@) == trace_entries(all, cols@, i as int),
            decreases rows@.len() - i,
        {
            proof {
                assert(all[i as int] == row_view(rows@[i as int]));
                assert(all[i as int] is Some);
            }
            if let Some(row) = &rows[i] {
                let time = match get_field(row, cols.start_time) {
                    Some(s) => parse_mssql_timestamp(s),
                    None => None,
                };
                if let Some(e) = entry_from_row(row, &cols, time) {
                    let ghost before = entry_views(entries@);
                    let ghost ev = e@;
                    entries.push(e);
                    proof {
                        assert(entry_views(entries@) =~= before.push(ev));
                    }
                }
            }
            i = i + 1;
        }
        build_workload(
            entries,
            true,
            source_host,
            "unknown",
            "mssql_trace",
            SourceDialect::SqlServer,
            captured_at,
        )
    }

    /// The workload of a table's bytes: comma-separated values with a header.
    pub fn capture_from_reader(&self, data: &[u8], source_host: &str, captured_at: Timestamp) -> (r: Result<
        WorkloadProfile,
        CaptureError,
    >)
        ensures
            outcome(r) == trace_workload(csv_rows(data@, true), source_host@, captured_at),
    {
        self.capture_from_rows(&read_rows(data, true), source_host, captured_at)
    }
}

} // verus!
