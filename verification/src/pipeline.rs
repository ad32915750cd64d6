//! Decisions of the capture-replay-compare pipeline.

use crate::capture::masking::{mask_sql_literals, masked};
use crate::config::{CaptureConfig, PipelineConfig, ReplayConfig};
use crate::profile::{QueryView, Session, SessionView};
use crate::proxy::protocol::opt_view;
use crate::replay::scaling::ClassScales;
use crate::replay::ReplayMode;
use crate::text::{contains, copy_string, str_contains, str_eq};
use vstd::prelude::*;

verus! {

/// Exit codes for the pipeline.
pub const EXIT_PASS: i32 = 0;

pub const EXIT_THRESHOLD_VIOLATION: i32 = 1;

pub const EXIT_CONFIG_ERROR: i32 = 2;

pub const EXIT_CAPTURE_ERROR: i32 = 3;

pub const EXIT_PROVISION_ERROR: i32 = 4;

pub const EXIT_REPLAY_ERROR: i32 = 5;

/// The exit code for an error, by the words of its message.
pub open spec fn error_code(msg: Seq<char>) -> i32 {
    if contains(msg, "Config"@) || contains(msg, "parse"@) || contains(msg, "TOML"@) {
        EXIT_CONFIG_ERROR
    } else if contains(msg, "Capture error"@) {
        EXIT_CAPTURE_ERROR
    } else if contains(msg, "Provision error"@) || contains(msg, "Docker"@) || contains(msg, "container"@) {
        EXIT_PROVISION_ERROR
    } else {
        EXIT_REPLAY_ERROR
    }
}

/// Classify an error into the appropriate exit code based on its message.
/// Anything unclassified counts as an error of the replay.
pub fn classify_error(msg: &str) -> (r: i32)
    ensures
        r == error_code(msg@),
{
    if str_contains(msg, "Config") || str_contains(msg, "parse") || str_contains(msg, "TOML") {
        EXIT_CONFIG_ERROR
    } else if str_contains(msg, "Capture error") {
        EXIT_CAPTURE_ERROR
    } else if str_contains(msg, "Provision error") || str_contains(msg, "Docker") || str_contains(
        msg,
        "container",
    ) {
        EXIT_PROVISION_ERROR
    } else {
        EXIT_REPLAY_ERROR
    }
}

/// Whether all checks passed.
pub open spec fn all_pass(v: Seq<bool>) -> bool {
    forall|i: int| 0 <= i < v.len() ==> v[i]
}

fn all_passed(v: &Vec<bool>) -> (r: bool)
    ensures
        r == all_pass(v@),
{
    for i in 0..v.len()
        invariant
            forall|k: int| 0 <= k < i ==> v@[k],
    {
        if !v[i] {
            return false;
        }
    }
    true
}

/// The exit code for threshold checks, of which there may be none.
pub fn threshold_exit_code(passed: &Option<Vec<bool>>) -> (r: i32)
    ensures
        r == (match *passed {
            Some(v) => if all_pass(v@) { EXIT_PASS } else { EXIT_THRESHOLD_VIOLATION },
            None => EXIT_PASS,
        }),
{
    match passed {
        None => EXIT_PASS,
        Some(v) => if all_passed(v) {
            EXIT_PASS
        } else {
            EXIT_THRESHOLD_VIOLATION
        },
    }
}

/// The scale of a class where it may be missing.
pub open spec fn scale_or_one(s: Option<u32>) -> u32 {
    match s {
        Some(n) => n,
        None => 1,
    }
}

fn or_one(s: Option<u32>) -> (r: u32)
    ensures
        r == scale_or_one(s),
{
    match s {
        Some(n) => n,
        None => 1,
    }
}

/// Build per-category scale factors from replay config.
/// Returns `None` if no per-category fields are set.
pub fn build_class_scales(replay: &ReplayConfig) -> (r: Option<ClassScales>)
    ensures
        r is None <==> replay.scale_analytical is None && replay.scale_transactional is None
            && replay.scale_mixed is None && replay.scale_bulk is None,
        r matches Some(s) ==> s == (ClassScales {
            analytical: scale_or_one(replay.scale_analytical),
            transactional: scale_or_one(replay.scale_transactional),
            mixed: scale_or_one(replay.scale_mixed),
            bulk: scale_or_one(replay.scale_bulk),
        }),
{
    if replay.scale_analytical.is_none() && replay.scale_transactional.is_none() && replay.scale_mixed.is_none()
        && replay.scale_bulk.is_none() {
        return None;
    }
    Some(
        ClassScales {
            analytical: or_one(replay.scale_analytical),
            transactional: or_one(replay.scale_transactional),
            mixed: or_one(replay.scale_mixed),
            bulk: or_one(replay.scale_bulk),
        },
    )
}

/// The mode of the replay.
pub fn replay_mode(read_only: bool) -> (r: ReplayMode)
    ensures
        r == (if read_only { ReplayMode::ReadOnly } else { ReplayMode::ReadWrite }),
{
    if read_only {
        ReplayMode::ReadOnly
    } else {
        ReplayMode::ReadWrite
    }
}

// ── Where the workload comes from ───────────────────────────────────

/// Where the workload comes from.
#[derive(Debug)]
pub enum WorkloadSource {
    /// A workload file.
    File(String),
    /// A PostgreSQL CSV log: path, host and version.
    PgCsv { source_log: String, source_host: String, pg_version: String },
    /// A MySQL slow query log: path and host.
    MysqlSlow { source_log: String, source_host: String },
    /// A log of an RDS instance.
    Rds { instance: String, region: String, log_file: Option<String>, source_host: String },
}

/// The model of a workload source.
pub enum SourceView {
    File(Seq<char>),
    PgCsv { source_log: Seq<char>, source_host: Seq<char>, pg_version: Seq<char> },
    MysqlSlow { source_log: Seq<char>, source_host: Seq<char> },
    Rds { instance: Seq<char>, region: Seq<char>, log_file: Option<Seq<char>>, source_host: Seq<char> },
}

impl View for WorkloadSource {
    type V = SourceView;

    open spec fn view(&self) -> SourceView {
        match self {
            WorkloadSource::File(p) => SourceView::File(p@),
            WorkloadSource::PgCsv { source_log, source_host, pg_version } => SourceView::PgCsv {
                source_log: source_log@,
                source_host: source_host@,
                pg_version: pg_version@,
            },
            WorkloadSource::MysqlSlow { source_log, source_host } => SourceView::MysqlSlow {
                source_log: source_log@,
                source_host: source_host@,
            },
            WorkloadSource::Rds { instance, region, log_file, source_host } => SourceView::Rds {
                instance: instance@,
                region: region@,
                log_file: opt_view(*log_file),
                source_host: source_host@,
            },
        }
    }
}

/// A text that may be missing, with what stands for it.
pub open spec fn text_or(s: Option<String>, default: Seq<char>) -> Seq<char> {
    match s {
        Some(t) => t@,
        None => default,
    }
}

/// Where the workload comes from, or why it cannot be had.
pub open spec fn workload_source(capture: Option<CaptureConfig>) -> Result<SourceView, Seq<char>> {
    match capture {
        None => Err("[capture] section required"@),
        Some(c) => match c.workload {
            Some(p) => Ok(SourceView::File(p@)),
            None => if c.source_type@ == "pg-csv"@ {
                match c.source_log {
                    Some(log) => Ok(
                        SourceView::PgCsv {
                            source_log: log@,
                            source_host: text_or(c.source_host, "unknown"@),
                            pg_version: text_or(c.pg_version, "unknown"@),
                        },
                    ),
                    None => Err("Capture error: source_log required for source_type = \"pg-csv\""@),
                }
            } else if c.source_type@ == "mysql-slow"@ {
                match c.source_log {
                    Some(log) => Ok(
                        SourceView::MysqlSlow { source_log: log@, source_host: text_or(c.source_host, "unknown"@) },
                    ),
                    None => Err("Capture error: source_log required for source_type = \"mysql-slow\""@),
                }
            } else if c.source_type@ == "rds"@ {
                match c.rds_instance {
                    Some(id) => Ok(
                        SourceView::Rds {
                            instance: id@,
                            region: c.rds_region@,
                            log_file: opt_view(c.rds_log_file),
                            source_host: text_or(c.source_host, "rds"@),
                        },
                    ),
                    None => Err("Capture error: rds_instance required for source_type = \"rds\""@),
                }
            } else {
                Err("Capture error: unknown source_type: "@ + c.source_type@)
            },
        },
    }
}

fn string_or(s: &Option<String>, default: &str) -> (r: String)
    ensures
        r@ == text_or(*s, default@),
{
    match s {
        Some(t) => copy_string(t.as_str()),
        None => copy_string(default),
    }
}

/// Decides where the workload comes from.
pub fn choose_workload_source(capture: &Option<CaptureConfig>) -> (r: Result<WorkloadSource, String>)
    ensures
        match workload_source(*capture) {
            Ok(s) => r is Ok && r->Ok_0@ == s,
            Err(e) => r is Err && r->Err_0@ == e,
        },
{
    let c = match capture {
        None => {
            return Err(copy_string("[capture] section required"));
        },
        Some(c) => c,
    };
    if let Some(p) = &c.workload {
        return Ok(WorkloadSource::File(copy_string(p.as_str())));
    }
    if str_eq(c.source_type.as_str(), "pg-csv") {
        match &c.source_log {
            Some(log) => Ok(
                WorkloadSource::PgCsv {
                    source_log: copy_string(log.as_str()),
                    source_host: string_or(&c.source_host, "unknown"),
                    pg_version: string_or(&c.pg_version, "unknown"),
                },
            ),
            None => Err(copy_string("Capture error: source_log required for source_type = \"pg-csv\"")),
        }
    } else if str_eq(c.source_type.as_str(), "mysql-slow") {
        match &c.source_log {
            Some(log) => Ok(
                WorkloadSource::MysqlSlow {
                    source_log: copy_string(log.as_str()),
                    source_host: string_or(&c.source_host, "unknown"),
                },
            ),
            None => Err(copy_string("Capture error: source_log required for source_type = \"mysql-slow\"")),
        }
    } else if str_eq(c.source_type.as_str(), "rds") {
        match &c.rds_instance {
            Some(id) => Ok(
                WorkloadSource::Rds {
                    instance: copy_string(id.as_str()),
                    region: copy_string(c.rds_region.as_str()),
                    log_file: match &c.rds_log_file {
                        Some(f) => Some(copy_string(f.as_str())),
                        None => None,
                    },
                    source_host: string_or(&c.source_host, "rds"),
                },
            ),
            None => Err(copy_string("Capture error: rds_instance required for source_type = \"rds\"")),
        }
    } else {
        let mut e = copy_string("Capture error: unknown source_type: ");
        e.push_str(c.source_type.as_str());
        Err(e)
    }
}

// ── The target ──────────────────────────────────────────────────────

/// Where the replay runs.
#[derive(Debug, Clone, Copy, PartialEq, Eq, Structural)]
pub enum TargetChoice {
    /// Against the configured target.
    Given,
    /// Against a database that is provisioned first.
    Provision,
    /// Nowhere: neither is configured.
    Missing,
}

/// Decides where the replay runs.
pub fn choose_target(config: &PipelineConfig) -> (r: TargetChoice)
    ensures
        r == (if config.replay.target is Some {
            TargetChoice::Given
        } else if config.provision is Some {
            TargetChoice::Provision
        } else {
            TargetChoice::Missing
        }),
{
    if config.replay.target.is_some() {
        TargetChoice::Given
    } else if config.provision.is_some() {
        TargetChoice::Provision
    } else {
        TargetChoice::Missing
    }
}

/// Whether the pipeline compares variants: at least two are configured.
pub fn compares_variants(config: &PipelineConfig) -> (r: bool)
    ensures
        r == (match config.variants {
            Some(v) => v@.len() >= 2,
            None => false,
        }),
{
    match &config.variants {
        Some(v) => v.len() >= 2,
        None => false,
    }
}

// ── Changes to a workload ───────────────────────────────────────────

/// A session whose queries are masked. Kinds and times stay.
pub open spec fn masked_session(s: SessionView) -> SessionView {
    SessionView {
        queries: Seq::new(s.queries.len(), |i: int| QueryView { sql: masked(s.queries[i].sql), ..s.queries[i] }),
        ..s
    }
}

fn mask_session(session: &mut Session)
    ensures
        final(session)@ == masked_session(old(session)@),
{
    let ghost before = session@;
    let n = session.queries.len();
    let mut i: usize = 0;
    while i < n
        invariant
            i <= n,
            n == session.queries@.len(),
            before == old(session)@,
            before.queries.len() == n,
            session.id == before.id,
            session.user@ == before.user,
            session.database@ == before.database,
            forall|k: int| 0 <= k < i ==> (#[trigger] session.queries@[k])@ == masked_session(before).queries[k],
            forall|k: int| i <= k < n ==> (#[trigger] session.queries@[k])@ == before.queries[k],
        decreases n - i,
    {
        let ghost qs = session.queries@;
        let text = mask_sql_literals(session.queries[i].sql.as_str());
        session.queries[i].sql = text;
        proof {
            assert(session.queries@[i as int]@ == masked_session(before).queries[i as int]);
            assert forall|k: int| 0 <= k < i + 1 implies (#[trigger] session.queries@[k])@ == masked_session(
                before,
            ).queries[k] by {
                if k < i {
                    assert(session.queries@[k] == qs[k]);
                }
            }
            assert forall|k: int| i + 1 <= k < n implies (#[trigger] session.queries@[k])@ == before.queries[k] by {
                assert(session.queries@[k] == qs[k]);
            }
        }
        i = i + 1;
    }
    proof {
        assert(session@.queries =~= masked_session(before).queries);
    }
}

/// Masks the literals of all queries.
pub fn mask_sessions(sessions: &mut Vec<Session>)
    ensures
        final(sessions)@.len() == old(sessions)@.len(),
        forall|i: int|
            0 <= i < final(sessions)@.len() ==> (#[trigger] final(sessions)@[i])@ == masked_session(
                old(sessions)@[i]@,
            ),
{
    let ghost before = sessions@;
    let n = sessions.len();
    let mut i: usize = 0;
    while i < n
        invariant
            i <= n,
            n == sessions@.len(),
            n == before.len(),
            before == old(sessions)@,
            forall|k: int| 0 <= k < i ==> (#[trigger] sessions@[k])@ == masked_session(before[k]@),
            forall|k: int| i <= k < n ==> (#[trigger] sessions@[k]) == before[k],
        decreases n - i,
    {
        let ghost now = sessions@;
        mask_session(&mut sessions[i]);
        proof {
            assert(sessions@[i as int]@ == masked_session(before[i as int]@));
            assert forall|k: int| 0 <= k < i + 1 implies (#[trigger] sessions@[k])@ == masked_session(before[k]@) by {
                if k < i {
                    assert(sessions@[k] == now[k]);
                }
            }
            assert forall|k: int| i + 1 <= k < n implies (#[trigger] sessions@[k]) == before[k] by {
                assert(sessions@[k] == now[k]);
            }
        }
        i = i + 1;
    }
}

} // verus!
