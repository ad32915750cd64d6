//! What a scaled replay achieved.

use crate::compare::{
    ascending, average, avg, collect_replay, error_total, percentile, percentile_of, replay_durations,
    sort_ascending, sum,
};
use crate::replay::{all_results, ReplayResults};
use vstd::prelude::*;

verus! {

/// Counts and latencies of a scaled replay. Throughput and error rate follow
/// from the counts and the elapsed time.
#[derive(Debug, Clone, Copy, PartialEq, Eq, Structural)]
pub struct ScaleReport {
    pub scale_factor: u32,
    pub total_sessions: u64,
    pub total_queries: u64,
    pub elapsed_us: u64,
    pub avg_latency_us: u64,
    pub p95_latency_us: u64,
    pub p99_latency_us: u64,
    pub error_count: u64,
}

pub fn compute_scale_report(results: &[ReplayResults], scale_factor: u32, elapsed_us: u64) -> (r: ScaleReport)
    requires
        all_results(results@).len() <= u64::MAX,
        sum(replay_durations(all_results(results@))) <= u64::MAX,
    ensures
        ({
            let t = replay_durations(all_results(results@));
            &&& r.scale_factor == scale_factor
            &&& r.total_sessions == results@.len()
            &&& r.total_queries == t.len()
            &&& r.elapsed_us == elapsed_us
            &&& r.avg_latency_us == average(t)
            &&& r.p95_latency_us == percentile_of(ascending(t), 95)
            &&& r.p99_latency_us == percentile_of(ascending(t), 99)
            &&& r.error_count == error_total(all_results(results@))
        }),
{
    let (mut t, error_count) = collect_replay(results);
    let avg_latency_us = avg(&t);
    let total_queries = t.len() as u64;
    sort_ascending(&mut t);
    ScaleReport {
        scale_factor,
        total_sessions: results.len() as u64,
        total_queries,
        elapsed_us,
        avg_latency_us,
        p95_latency_us: percentile(&t, 95),
        p99_latency_us: percentile(&t, 99),
        error_count,
    }
}

} // verus!
