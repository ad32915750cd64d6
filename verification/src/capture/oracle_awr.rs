//! An extract of Oracle's AWR or `V$SQL`: distinct statements with their timing in
//! microseconds.

use crate::capture::error::{outcome, CaptureError, ErrorView};
use crate::capture::summary::{capture_summary, summary_workload};
use crate::capture::table::{csv_rows, names_of, read_rows, row_views, RowModel};
use crate::profile::{ProfileView, SourceDialect, Timestamp, WorkloadProfile};
use vstd::prelude::*;

verus! {

/// The workload of an extract's rows.
pub open spec fn awr_workload(rows: Seq<RowModel>, source_host: Seq<char>, captured_at: Timestamp) -> Result<
    ProfileView,
    ErrorView,
> {
    summary_workload(
        rows,
        seq!["sql_text"@, "sql text"@, "sqltext"@, "sql"@],
        seq!["elapsed_us"@, "avg_elapsed_us"@, "avg_us"@, "elapsed"@],
        source_host,
        "oracle_awr"@,
        SourceDialect::Oracle,
        captured_at,
    )
}

/// An extract of Oracle's AWR or `V$SQL`.
#[derive(Debug)]
pub struct OracleAwrCapture;

impl OracleAwrCapture {
    /// The workload of an extract's rows.
    pub fn capture_from_rows(
        &self,
        rows: &Vec<Option<Vec<String>>>,
        source_host: &str,
        captured_at: Timestamp,
    ) -> (r: Result<WorkloadProfile, CaptureError>)
        ensures
            outcome(r) == awr_workload(row_views(rows@), source_host@, captured_at),
    {
        let sql_names: Vec<&str> = vec!["sql_text", "sql text", "sqltext", "sql"];
        let duration_names: Vec<&str> = vec!["elapsed_us", "avg_elapsed_us", "avg_us", "elapsed"];
        proof {
            assert(names_of(sql_names@) =~= seq!["sql_text"@, "sql text"@, "sqltext"@, "sql"@]);
            assert(names_of(duration_names@) =~= seq!["elapsed_us"@, "avg_elapsed_us"@, "avg_us"@, "elapsed"@]);
        }
        capture_summary(
            rows,
            sql_names.as_slice(),
            duration_names.as_slice(),
            source_host,
            "oracle_awr",
            SourceDialect::Oracle,
            captured_at,
        )
    }

    /// The workload of an extract's bytes: comma-separated values with a header.
    pub fn capture_from_reader(&self, data: &[u8], source_host: &str, captured_at: Timestamp) -> (r: Result<
        WorkloadProfile,
        CaptureError,
    >)
        ensures
            outcome(r) == awr_workload(csv_rows(data@, true), source_host@, captured_at),
    {
        self.capture_from_rows(&read_rows(data, true), source_host, captured_at)
    }
}

} // verus!
