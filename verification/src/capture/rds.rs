//! Capture from Amazon RDS: which log file to take, and its download in
//! portions.

use crate::capture::csv_log::{csv_workload, CsvLogCapture};
use crate::capture::error::{outcome, CaptureError, ErrorView};
use crate::capture::table::{csv_rows, read_rows, row_views, RowModel};
use crate::profile::{ProfileView, Timestamp, WorkloadProfile};
use crate::text::copy_string;
use vstd::prelude::*;

verus! {

/// A log file of an RDS instance.
#[derive(Debug, Clone)]
pub struct RdsLogFile {
    pub log_file_name: String,
    pub last_written: u64,
    pub size: u64,
}

/// Whether file `i` is the latest: none was written later, and those behind it
/// were written earlier.
pub open spec fn is_latest(files: Seq<RdsLogFile>, i: int) -> bool {
    0 <= i < files.len() && (forall|k: int|
        0 <= k < i ==> (#[trigger] files[k]).last_written <= files[i].last_written) && (forall|k: int|
        i < k < files.len() ==> (#[trigger] files[k]).last_written < files[i].last_written)
}

/// No two places hold the latest file.
pub proof fn law_latest_is_unique(files: Seq<RdsLogFile>, i: int, j: int)
    requires
        is_latest(files, i),
        is_latest(files, j),
    ensures
        i == j,
{
    assert(files[i].last_written <= files[j].last_written || i == j);
    assert(files[j].last_written <= files[i].last_written || i == j);
}

/// The name of the file that was written last; of several, the last.
pub fn select_latest_log_file(files: &[RdsLogFile]) -> (r: Option<String>)
    ensures
        r is None <==> files@.len() == 0,
        r matches Some(name) ==> exists|i: int|
            is_latest(files@, i) && name@ == (#[trigger] files@[i]).log_file_name@,
{
    let n: usize = files.len();
    if n == 0 {
        return None;
    }
    let mut best: usize = 0;
    let mut i: usize = 1;
    while i < n
        invariant
            1 <= i <= n,
            n == files@.len(),
            best < i,
            forall|k: int| 0 <= k < best ==> (#[trigger] files@[k]).last_written <= files@[best as int].last_written,
            forall|k: int| best < k < i ==> (#[trigger] files@[k]).last_written < files@[best as int].last_written,
        decreases n - i,
    {
        if files[i].last_written >= files[best].last_written {
            best = i;
        }
        i = i + 1;
    }
    proof {
        assert(is_latest(files@, best as int));
        assert(files@[best as int].log_file_name@ == files@[best as int].log_file_name@);
    }
    Some(copy_string(files[best].log_file_name.as_str()))
}

/// The file to download: the one asked for, else the latest.
pub fn choose_log_file(asked: Option<&str>, files: &[RdsLogFile]) -> (r: Option<String>)
    ensures
        asked matches Some(name) ==> r matches Some(s) && s@ == name@,
        asked is None ==> (r is None <==> files@.len() == 0),
        asked is None ==> (r matches Some(name) ==> exists|i: int|
            is_latest(files@, i) && name@ == (#[trigger] files@[i]).log_file_name@),
{
    match asked {
        Some(name) => Some(copy_string(name)),
        None => select_latest_log_file(files),
    }
}

/// The marker of the next portion of a log file, if there is one: more is
/// pending and the answer says where it starts.
pub fn next_marker(pending: Option<bool>, marker: Option<String>) -> (r: Option<String>)
    ensures
        r == (if pending == Some(true) {
            marker
        } else {
            None
        }),
{
    match pending {
        Some(true) => marker,
        _ => None,
    }
}

/// What a call of the AWS command line came to.
#[derive(Debug, Clone, Copy, PartialEq, Eq, Structural)]
pub enum PortionStep {
    /// Take its output.
    Take,
    /// Call once more.
    Retry,
    /// Give up.
    Fail,
}

/// What to do after a call for a portion: a failed one is made once more.
pub fn after_portion(succeeded: bool, retried: bool) -> (r: PortionStep)
    ensures
        r == (if succeeded {
            PortionStep::Take
        } else if retried {
            PortionStep::Fail
        } else {
            PortionStep::Retry
        }),
{
    if succeeded {
        PortionStep::Take
    } else if retried {
        PortionStep::Fail
    } else {
        PortionStep::Retry
    }
}

/// The workload of an RDS log: that of the log's records, by another method.
pub open spec fn rds_workload(rows: Seq<RowModel>, source_host: Seq<char>, now: Timestamp) -> Result<
    ProfileView,
    ErrorView,
> {
    match csv_workload(rows, source_host, "unknown"@, now) {
        Ok(p) => Ok(ProfileView { capture_method: "rds"@, ..p }),
        Err(e) => Err(e),
    }
}

/// The log of an RDS instance.
#[derive(Debug)]
pub struct RdsCapture;

impl RdsCapture {
    /// The workload of a downloaded log's records.
    pub fn capture_from_rows(&self, rows: &Vec<Option<Vec<String>>>, source_host: &str, now: Timestamp) -> (r: Result<
        WorkloadProfile,
        CaptureError,
    >)
        ensures
            outcome(r) == rds_workload(row_views(rows@), source_host@, now),
    {
        match CsvLogCapture.capture_from_rows(rows, source_host, "unknown", now) {
            Ok(profile) => {
                let mut out = profile;
                out.capture_method = copy_string("rds");
                Ok(out)
            },
            Err(e) => Err(e),
        }
    }

    /// The workload of a downloaded log.
    pub fn capture_from_log(&self, data: &[u8], source_host: &str, now: Timestamp) -> (r: Result<
        WorkloadProfile,
        CaptureError,
    >)
        ensures
            outcome(r) == rds_workload(csv_rows(data@, false), source_host@, now),
    {
        self.capture_from_rows(&read_rows(data, false), source_host, now)
    }
}

} // verus!
