//! An extract of SQL Server's Query Store: distinct query shapes with their timing in
//! microseconds.

use crate::capture::error::{outcome, CaptureError, ErrorView};
use crate::capture::summary::{capture_summary, summary_workload};
use crate::capture::table::{csv_rows, names_of, read_rows, row_views, RowModel};
use crate::profile::{ProfileView, SourceDialect, Timestamp, WorkloadProfile};
use vstd::prelude::*;

verus! {

/// The workload of an extract's rows.
pub open spec fn querystore_workload(rows: Seq<RowModel>, source_host: Seq<char>, captured_at: Timestamp) -> Result<
    ProfileView,
    ErrorView,
> {
    summary_workload(
        rows,
        seq!["query_sql_text"@, "sql_text"@, "sql text"@, "sqltext"@, "sql"@],
        seq!["avg_duration"@, "last_duration"@, "duration_us"@, "duration"@],
        source_host,
        "mssql_querystore"@,
        SourceDialect::SqlServer,
        captured_at,
    )
}

/// An extract of SQL Server's Query Store.
#[derive(Debug)]
pub struct MssqlQueryStoreCapture;

impl MssqlQueryStoreCapture {
    /// The workload of an extract's rows.
    pub fn capture_from_rows(
        &self,
        rows: &Vec<Option<Vec<String>>>,
        source_host: &str,
        captured_at: Timestamp,
    ) -> (r: Result<WorkloadProfile, CaptureError>)
        ensures
            outcome(r) == querystore_workload(row_views(rows@), source_host@, captured_at),
    {
        let sql_names: Vec<&str> = vec!["query_sql_text", "sql_text", "sql text", "sqltext", "sql"];
        let duration_names: Vec<&str> = vec!["avg_duration", "last_duration", "duration_us", "duration"];
        proof {
            assert(names_of(sql_names@) =~= seq!["query_sql_text"@, "sql_text"@, "sql text"@, "sqltext"@, "sql"@]);
            assert(names_of(duration_names@) =~= seq!["avg_duration"@, "last_duration"@, "duration_us"@, "duration"@]);
        }
        capture_summary(
            rows,
            sql_names.as_slice(),
            duration_names.as_slice(),
            source_host,
            "mssql_querystore",
            SourceDialect::SqlServer,
            captured_at,
        )
    }

    /// The workload of an extract's bytes: comma-separated values with a header.
    pub fn capture_from_reader(&self, data: &[u8], source_host: &str, captured_at: Timestamp) -> (r: Result<
        WorkloadProfile,
        CaptureError,
    >)
        ensures
            outcome(r) == querystore_workload(csv_rows(data@, true), source_host@, captured_at),
    {
        self.capture_from_rows(&read_rows(data, true), source_host, captured_at)
    }
}

} // verus!
