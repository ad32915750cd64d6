//! Rows of the terminal report.

use crate::number::{decimal, decimal_string, push_decimal, signed_decimal};
use crate::text::copy_string;
use vstd::prelude::*;

verus! {

/// A row: metric, source, replay, difference and status.
#[derive(Debug)]
pub struct ReportRow {
    pub metric: String,
    pub source: String,
    pub replay: String,
    pub delta: String,
    pub status: String,
}

/// A difference with its sign, zero without.
pub open spec fn delta_text(d: int) -> Seq<char> {
    if d > 0 {
        seq!['+'] + decimal(d as nat)
    } else {
        signed_decimal(d)
    }
}

fn delta_string(source: u64, replay: u64) -> (r: String)
    ensures
        r@ == delta_text(replay - source),
{
    let mut out = String::new();
    if replay > source {
        out.push('+');
        push_decimal(&mut out, replay - source);
    } else if replay < source {
        out.push('-');
        push_decimal(&mut out, source - replay);
    } else {
        push_decimal(&mut out, 0);
    }
    proof {
        assert(out@ =~= delta_text(replay - source));
    }
    out
}

/// A row for two counts, which differ or not.
pub fn make_row(metric: &str, source: u64, replay: u64) -> (r: ReportRow)
    ensures
        r.metric@ == metric@,
        r.source@ == decimal(source as nat),
        r.replay@ == decimal(replay as nat),
        r.delta@ == delta_text(replay - source),
        r.status@ == (if source == replay { "OK"@ } else { "DIFF"@ }),
{
    ReportRow {
        metric: copy_string(metric),
        source: decimal_string(source),
        replay: decimal_string(replay),
        delta: delta_string(source, replay),
        status: if source == replay { copy_string("OK") } else { copy_string("DIFF") },
    }
}

/// The row for the number of errors, of which the source has none.
pub fn error_row(errors: u64) -> (r: ReportRow)
    ensures
        r.metric@ == "Errors"@,
        r.source@ == "0"@,
        r.replay@ == decimal(errors as nat),
        r.delta@ == delta_text(errors as int),
        r.status@ == (if errors > 0 { "WARN"@ } else { "OK"@ }),
{
    let mut delta = String::new();
    if errors > 0 {
        delta.push('+');
    }
    push_decimal(&mut delta, errors);
    proof {
        assert(delta@ =~= delta_text(errors as int));
    }
    ReportRow {
        metric: copy_string("Errors"),
        source: copy_string("0"),
        replay: decimal_string(errors),
        delta,
        status: if errors > 0 { copy_string("WARN") } else { copy_string("OK") },
    }
}

/// How a latency compares: faster or slower by more than five percent, or
/// neither. Nothing is said of a source latency of zero.
pub open spec fn latency_status_of(source_us: int, replay_us: int) -> Seq<char> {
    if source_us > 0 && 100 * (replay_us - source_us) < -5 * source_us {
        "FASTER"@
    } else if source_us > 0 && 100 * (replay_us - source_us) > 5 * source_us {
        "SLOWER"@
    } else {
        "OK"@
    }
}

/// The status of a latency row.
pub fn latency_status(source_us: u64, replay_us: u64) -> (r: &'static str)
    ensures
        r@ == latency_status_of(source_us as int, replay_us as int),
{
    let s: i128 = source_us as i128;
    let d: i128 = (replay_us as i128) - s;
    if source_us > 0 && 100 * d + 5 * s < 0 {
        "FASTER"
    } else if source_us > 0 && 100 * d > 5 * s {
        "SLOWER"
    } else {
        "OK"
    }
}

} // verus!
