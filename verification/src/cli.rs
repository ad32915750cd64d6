//! Values and choices of the command line.

use crate::correlate::IdMode;
use crate::number::{parse_u64, parse_unsigned};
use crate::proxy::protocol::opt_view;
use crate::text::{
    chars_end_with, contains, copy_string, ends_with, find_chars_from, find_from, from_chars, str_contains,
    str_eq, to_chars, trim, trim_slice, upper, upper_string,
};
use vstd::prelude::*;
use vstd::slice::slice_subrange;

verus! {

// ── Durations and sizes ─────────────────────────────────────────────

/// A duration in seconds: digits, with `s` or `m` behind them for seconds or
/// minutes.
pub open spec fn duration_secs(s: Seq<char>) -> Option<nat> {
    let t = trim(s);
    if t.len() > 0 && t.last() == 's' {
        parse_unsigned(t.drop_last(), u64::MAX as nat)
    } else if t.len() > 0 && t.last() == 'm' {
        match parse_unsigned(t.drop_last(), u64::MAX as nat) {
            Some(n) => if n * 60 <= u64::MAX { Some(n * 60) } else { None },
            None => None,
        }
    } else {
        parse_unsigned(t, u64::MAX as nat)
    }
}

/// Reads a duration, in seconds. Minutes that do not fit into seconds are
/// refused.
pub fn parse_duration(s: &str) -> (r: Option<u64>)
    ensures
        r is Some <==> duration_secs(s@) is Some,
        r is Some ==> duration_secs(s@) == Some(r->0 as nat),
{
    let c = to_chars(s);
    let t = trim_slice(&c);
    let n = t.len();
    if n > 0 && (t[n - 1] == 's' || t[n - 1] == 'm') {
        let digits = slice_subrange(t, 0, n - 1);
        proof {
            assert(digits@ =~= t@.drop_last());
        }
        match parse_u64(digits, u64::MAX) {
            None => None,
            Some(v) => if t[n - 1] == 's' {
                Some(v)
            } else {
                v.checked_mul(60)
            },
        }
    } else {
        parse_u64(t, u64::MAX)
    }
}

/// Digits and a unit: 1024 bytes to the first, second or third power.
pub open spec fn split_size(u: Seq<char>) -> (Seq<char>, nat) {
    if ends_with(u, seq!['G', 'B']) {
        (u.take(u.len() - 2), 1_073_741_824)
    } else if ends_with(u, seq!['M', 'B']) {
        (u.take(u.len() - 2), 1_048_576)
    } else if ends_with(u, seq!['K', 'B']) {
        (u.take(u.len() - 2), 1_024)
    } else {
        (u, 1)
    }
}

/// A size in bytes, given in upper case without white space around it: zero if
/// it cannot be read, the greatest number if it is too large.
pub open spec fn size_bytes(u: Seq<char>) -> nat {
    let (digits, unit) = split_size(u);
    match parse_unsigned(trim(digits), u64::MAX as nat) {
        Some(n) => if n * unit <= u64::MAX { n * unit } else { u64::MAX as nat },
        None => 0,
    }
}

/// Reads a size in upper case without white space around it.
pub fn size_from_upper(u: &str) -> (r: u64)
    ensures
        r == size_bytes(u@),
{
    let c = to_chars(u);
    let n = c.len();
    let gb: [char; 2] = ['G', 'B'];
    let mb: [char; 2] = ['M', 'B'];
    let kb: [char; 2] = ['K', 'B'];
    proof {
        assert(gb@ =~= seq!['G', 'B']);
        assert(mb@ =~= seq!['M', 'B']);
        assert(kb@ =~= seq!['K', 'B']);
    }
    let (digits, unit): (&[char], u64) = if chars_end_with(&c, &gb) {
        (slice_subrange(&c, 0, n - 2), 1_073_741_824)
    } else if chars_end_with(&c, &mb) {
        (slice_subrange(&c, 0, n - 2), 1_048_576)
    } else if chars_end_with(&c, &kb) {
        (slice_subrange(&c, 0, n - 2), 1_024)
    } else {
        (c.as_slice(), 1)
    };
    proof {
        assert(digits@ =~= split_size(u@).0);
        assert(unit == split_size(u@).1);
    }
    match parse_u64(trim_slice(digits), u64::MAX) {
        Some(v) => match v.checked_mul(unit) {
            Some(b) => b,
            None => u64::MAX,
        },
        None => 0,
    }
}

/// Parse a human-readable size string (e.g., "500MB", "1GB", "0") into bytes.
pub fn parse_size_string(s: &str) -> (r: u64)
    ensures
        r == size_bytes(upper(trim(s@))),
{
    let c = to_chars(s);
    let t = from_chars(trim_slice(&c));
    let u = upper_string(t.as_str());
    size_from_upper(u.as_str())
}

// ── Variants ────────────────────────────────────────────────────────

/// Label and connection string of a variant, parted by the first `=`.
pub open spec fn variant_parts(v: Seq<char>) -> Option<(Seq<char>, Seq<char>)> {
    match find_from(v, seq!['='], 0) {
        Some(i) => Some((v.take(i), v.skip(i + 1))),
        None => None,
    }
}

/// Reads `label=connection_string`.
pub fn parse_variant(v: &str) -> (r: Result<(String, String), String>)
    ensures
        match variant_parts(v@) {
            Some((label, target)) => r is Ok && r->Ok_0.0@ == label && r->Ok_0.1@ == target,
            None => r is Err && r->Err_0@ == "Invalid variant format: "@ + v@
                + ". Expected: label=connection_string"@,
        },
{
    let c = to_chars(v);
    let eq: [char; 1] = ['='];
    proof {
        assert(eq@ =~= seq!['=']);
    }
    match find_chars_from(&c, &eq, 0) {
        Some(i) => {
            let n = c.len();
            let label = slice_subrange(&c, 0, i);
            let target = slice_subrange(&c, i + 1, n);
            proof {
                assert(label@ =~= v@.take(i as int));
                assert(target@ =~= v@.skip(i + 1));
            }
            Ok((from_chars(label), from_chars(target)))
        },
        None => {
            let mut e = copy_string("Invalid variant format: ");
            e.push_str(v);
            e.push_str(". Expected: label=connection_string");
            Err(e)
        },
    }
}

// ── Proxy ───────────────────────────────────────────────────────────

/// Where the proxy writes a workload: the given path, else `workload.wkl`
/// unless the proxy stays running.
pub fn proxy_output(output: &Option<String>, persistent: bool) -> (r: Option<String>)
    ensures
        opt_view(r) == (match *output {
            Some(p) => Some(p@),
            None => if persistent { None } else { Some("workload.wkl"@) },
        }),
{
    match output {
        Some(p) => Some(copy_string(p.as_str())),
        None => if persistent {
            None
        } else {
            Some(copy_string("workload.wkl"))
        },
    }
}

/// Whether the proxy accepts TLS from clients: certificate and key go together.
pub fn client_tls(cert: bool, key: bool) -> (r: Result<bool, &'static str>)
    ensures
        cert == key ==> r == Ok::<bool, &'static str>(cert),
        cert && !key ==> r is Err && r->Err_0@ == "--client-tls-cert requires --client-tls-key"@,
        !cert && key ==> r is Err && r->Err_0@ == "--client-tls-key requires --client-tls-cert"@,
{
    if cert && !key {
        return Err("--client-tls-cert requires --client-tls-key");
    }
    if !cert && key {
        return Err("--client-tls-key requires --client-tls-cert");
    }
    Ok(cert)
}

// ── Replay ──────────────────────────────────────────────────────────

/// Whether a workload was compiled.
pub open spec fn is_compiled(capture_method: Seq<char>) -> bool {
    contains(capture_method, "+compiled"@)
}

/// Whether sequences are restored before a replay: the ID mode asks for it, or
/// the workload was compiled.
pub fn restores_sequences(needs_sequences: bool, capture_method: &str) -> (r: bool)
    ensures
        r == (needs_sequences || is_compiled(capture_method@)),
{
    needs_sequences || str_contains(capture_method, "+compiled")
}

/// Whether IDs can be correlated: only a workload that the proxy captured has
/// the responses for it.
pub fn check_correlation(needs_correlation: bool, capture_method: &str) -> (r: Result<(), String>)
    ensures
        r is Err <==> needs_correlation && capture_method@ != "proxy"@,
        r is Err ==> r->Err_0@ == "--id-mode=correlate requires proxy-captured workload (found: "@
            + capture_method@
            + "). Re-capture using `pg-retest proxy` or use --id-mode=sequence instead."@,
{
    if needs_correlation && !str_eq(capture_method, "proxy") {
        let mut e = copy_string("--id-mode=correlate requires proxy-captured workload (found: ");
        e.push_str(capture_method);
        e.push_str("). Re-capture using `pg-retest proxy` or use --id-mode=sequence instead.");
        return Err(e);
    }
    Ok(())
}

// ── Sources of a capture ────────────────────────────────────────────

/// Where a capture on the command line comes from.
#[derive(Debug)]
pub enum CaptureSource {
    PgCsv(String),
    MysqlSlow(String),
    Rds(String),
}

/// The model of a source.
pub ghost enum CaptureSourceView {
    PgCsv(Seq<char>),
    MysqlSlow(Seq<char>),
    Rds(Seq<char>),
}

impl View for CaptureSource {
    type V = CaptureSourceView;

    open spec fn view(&self) -> CaptureSourceView {
        match *self {
            CaptureSource::PgCsv(s) => CaptureSourceView::PgCsv(s@),
            CaptureSource::MysqlSlow(s) => CaptureSourceView::MysqlSlow(s@),
            CaptureSource::Rds(s) => CaptureSourceView::Rds(s@),
        }
    }
}

/// The source of a type, with what that type needs.
pub open spec fn capture_source(
    source_type: Seq<char>,
    source_log: Option<Seq<char>>,
    rds_instance: Option<Seq<char>>,
) -> Result<CaptureSourceView, Seq<char>> {
    if source_type == "pg-csv"@ {
        match source_log {
            Some(log) => Ok(CaptureSourceView::PgCsv(log)),
            None => Err("--source-log is required for pg-csv capture"@),
        }
    } else if source_type == "mysql-slow"@ {
        match source_log {
            Some(log) => Ok(CaptureSourceView::MysqlSlow(log)),
            None => Err("--source-log is required for mysql-slow capture"@),
        }
    } else if source_type == "rds"@ {
        match rds_instance {
            Some(id) => Ok(CaptureSourceView::Rds(id)),
            None => Err("--rds-instance is required for --source-type rds"@),
        }
    } else {
        Err("Unknown source type: "@ + source_type + ". Supported: pg-csv, mysql-slow, rds"@)
    }
}

/// Decides where a capture comes from.
pub fn choose_capture_source(
    source_type: &str,
    source_log: &Option<String>,
    rds_instance: &Option<String>,
) -> (r: Result<CaptureSource, String>)
    ensures
        match capture_source(source_type@, opt_view(*source_log), opt_view(*rds_instance)) {
            Ok(s) => r is Ok && r->Ok_0@ == s,
            Err(e) => r is Err && r->Err_0@ == e,
        },
{
    if str_eq(source_type, "pg-csv") {
        match source_log {
            Some(log) => Ok(CaptureSource::PgCsv(copy_string(log.as_str()))),
            None => Err(copy_string("--source-log is required for pg-csv capture")),
        }
    } else if str_eq(source_type, "mysql-slow") {
        match source_log {
            Some(log) => Ok(CaptureSource::MysqlSlow(copy_string(log.as_str()))),
            None => Err(copy_string("--source-log is required for mysql-slow capture")),
        }
    } else if str_eq(source_type, "rds") {
        match rds_instance {
            Some(id) => Ok(CaptureSource::Rds(copy_string(id.as_str()))),
            None => Err(copy_string("--rds-instance is required for --source-type rds")),
        }
    } else {
        let mut e = copy_string("Unknown source type: ");
        e.push_str(source_type);
        e.push_str(". Supported: pg-csv, mysql-slow, rds");
        Err(e)
    }
}

// ── Before a proxy runs ─────────────────────────────────────────────

/// Whether a step on the source database is taken.
#[derive(Debug, Clone, Copy, PartialEq, Eq, Structural)]
pub enum SourceStep {
    /// It is not asked for.
    NotAsked,
    /// It is asked for, but no source database is given.
    NoSource,
    /// It is taken.
    Take,
}

/// What is done before a proxy runs.
#[derive(Debug, Clone, Copy, PartialEq, Eq, Structural)]
pub struct ProxyPlan {
    pub snapshot_sequences: SourceStep,
    pub discover_keys: SourceStep,
    pub restore_point: bool,
    pub enable_correlation: bool,
    pub control_port: Option<u16>,
}

/// A step that is asked for is taken if there is a source database.
pub open spec fn source_step(asked: bool, source: bool) -> SourceStep {
    if !asked {
        SourceStep::NotAsked
    } else if source {
        SourceStep::Take
    } else {
        SourceStep::NoSource
    }
}

fn step_for(asked: bool, source: bool) -> (r: SourceStep)
    ensures
        r == source_step(asked, source),
{
    if !asked {
        SourceStep::NotAsked
    } else if source {
        SourceStep::Take
    } else {
        SourceStep::NoSource
    }
}

/// Plans what is done before a proxy runs. `source_db` is the connection string
/// of the source database; primary keys are not looked for with an empty one.
pub fn plan_proxy(
    id_mode: IdMode,
    id_capture_implicit: bool,
    source_db: &Option<String>,
    persistent: bool,
    control_port: u16,
) -> (r: ProxyPlan)
    ensures
        r == (ProxyPlan {
            snapshot_sequences: source_step(
                id_mode == IdMode::Sequence || id_mode == IdMode::Full,
                source_db is Some,
            ),
            discover_keys: source_step(
                id_capture_implicit,
                source_db is Some && source_db->0@.len() > 0,
            ),
            restore_point: source_db is Some,
            enable_correlation: id_mode == IdMode::Correlate || id_mode == IdMode::Full || id_capture_implicit,
            control_port: if persistent {
                Some(control_port)
            } else {
                None
            },
        }),
{
    let given: bool = source_db.is_some();
    let named: bool = match source_db {
        Some(s) => to_chars(s.as_str()).len() > 0,
        None => false,
    };
    ProxyPlan {
        snapshot_sequences: step_for(id_mode.needs_sequences(), given),
        discover_keys: step_for(id_capture_implicit, named),
        restore_point: given,
        enable_correlation: id_mode.needs_correlation() || id_capture_implicit,
        control_port: if persistent {
            Some(control_port)
        } else {
            None
        },
    }
}

} // verus!
