//! Backend health check.
//!
//! A probe connects to the upstream target and sends the protocol's
//! SSLRequest. If it fails a number of times in a row the proxy flips its
//! degraded flag; one success clears it.

use crate::proxy::metrics::{counted, ProxyMetrics};
use crate::proxy::protocol::SSL_REQUEST_CODE;
use crate::proxy::wire::{be_bytes4, push_u32};
use vstd::prelude::*;

verus! {

/// Configuration for the health check background task.
#[derive(Debug, Clone, Copy, PartialEq, Eq, Structural)]
pub struct HealthCheckConfig {
    /// Interval between checks in seconds. 0 disables health checks entirely.
    pub interval_secs: u64,
    /// Per-check timeout in seconds (TCP connect + handshake).
    pub timeout_secs: u64,
    /// Consecutive failures before flipping the degraded flag.
    pub fail_threshold: u64,
}

impl Default for HealthCheckConfig {
    fn default() -> (r: Self)
        ensures
            r.interval_secs == 30,
            r.timeout_secs == 5,
            r.fail_threshold == 3,
    {
        HealthCheckConfig { interval_secs: 30, timeout_secs: 5, fail_threshold: 3 }
    }
}

impl HealthCheckConfig {
    /// Whether health checks are made at all.
    pub fn enabled(&self) -> (r: bool)
        ensures
            r == (self.interval_secs != 0),
    {
        self.interval_secs != 0
    }

    /// The number of failures that flips the degraded flag, at least one.
    pub open spec fn spec_threshold(&self) -> u64 {
        if self.fail_threshold == 0 {
            1
        } else {
            self.fail_threshold
        }
    }

    pub fn threshold(&self) -> (r: u64)
        ensures
            r == self.spec_threshold(),
    {
        if self.fail_threshold == 0 {
            1
        } else {
            self.fail_threshold
        }
    }
}

/// The eight bytes of an SSLRequest.
pub fn ssl_request() -> (r: Vec<u8>)
    ensures
        r@ == be_bytes4(8) + be_bytes4(SSL_REQUEST_CODE as nat),
{
    let mut out: Vec<u8> = Vec::new();
    push_u32(&mut out, 8);
    push_u32(&mut out, 80877103);
    proof {
        assert(out@ =~= be_bytes4(8) + be_bytes4(80877103));
    }
    out
}

/// Whether the answer to an SSLRequest shows a live backend: 'S' if it
/// supports TLS, 'N' if not.
pub fn is_alive_reply(reply: u8) -> (r: bool)
    ensures
        r == (reply == 83 || reply == 78),
{
    reply == 83 || reply == 78
}

/// What a probe changed.
#[derive(Debug, Clone, Copy, PartialEq, Eq, Structural)]
pub enum HealthChange {
    /// The backend answered as before.
    Healthy,
    /// The backend answered again.
    Recovered,
    /// The probe failed, as the given number in a row, below the threshold.
    Failing(u64),
    /// The probe failed and flipped the degraded flag.
    Degraded(u64),
    /// The probe failed and the flag was flipped already.
    StillDegraded(u64),
}

/// The metrics behind a probe.
pub open spec fn metrics_after(m: ProxyMetrics, threshold: u64, ok: bool) -> ProxyMetrics {
    if ok {
        ProxyMetrics {
            backend_healthchecks_ok_total: counted(m.backend_healthchecks_ok_total, 1),
            backend_consecutive_failures: 0,
            backend_degraded: false,
            ..m
        }
    } else {
        let failures = counted(m.backend_consecutive_failures, 1);
        ProxyMetrics {
            backend_healthchecks_fail_total: counted(m.backend_healthchecks_fail_total, 1),
            backend_consecutive_failures: failures,
            backend_degraded: m.backend_degraded || failures >= threshold,
            ..m
        }
    }
}

/// Takes in the outcome of a probe.
pub fn on_probe(metrics: &mut ProxyMetrics, config: &HealthCheckConfig, ok: bool) -> (r: HealthChange)
    ensures
        *final(metrics) == metrics_after(*old(metrics), config.spec_threshold(), ok),
        r == (if ok {
            if old(metrics).backend_degraded {
                HealthChange::Recovered
            } else {
                HealthChange::Healthy
            }
        } else {
            let n = counted(old(metrics).backend_consecutive_failures, 1);
            if n < config.spec_threshold() {
                HealthChange::Failing(n)
            } else if old(metrics).backend_degraded {
                HealthChange::StillDegraded(n)
            } else {
                HealthChange::Degraded(n)
            }
        }),
{
    let was_degraded = metrics.backend_degraded;
    if ok {
        metrics.record_healthcheck_ok();
        if was_degraded {
            HealthChange::Recovered
        } else {
            HealthChange::Healthy
        }
    } else {
        let n = metrics.record_healthcheck_fail();
        if n >= config.threshold() {
            metrics.mark_degraded();
            if was_degraded {
                HealthChange::StillDegraded(n)
            } else {
                HealthChange::Degraded(n)
            }
        } else {
            HealthChange::Failing(n)
        }
    }
}

/// The metrics behind `n` failed probes in a row.
pub open spec fn after_failures(m: ProxyMetrics, threshold: u64, n: nat) -> ProxyMetrics
    decreases n,
{
    if n == 0 {
        m
    } else {
        metrics_after(after_failures(m, threshold, (n - 1) as nat), threshold, false)
    }
}

/// The degraded flag flips exactly when as many probes in a row failed as the
/// threshold says, beginning with a healthy backend.
pub proof fn law_degraded_after_threshold(m: ProxyMetrics, threshold: u64, n: nat)
    requires
        threshold >= 1,
        n <= u64::MAX,
        m.backend_consecutive_failures == 0,
        !m.backend_degraded,
    ensures
        after_failures(m, threshold, n).backend_consecutive_failures == n,
        after_failures(m, threshold, n).backend_degraded <==> n >= threshold,
    decreases n,
{
    if n > 0 {
        law_degraded_after_threshold(m, threshold, (n - 1) as nat);
    }
}

/// One successful probe clears the failure streak and the flag.
pub proof fn law_success_clears(m: ProxyMetrics, threshold: u64)
    ensures
        metrics_after(m, threshold, true).backend_consecutive_failures == 0,
        !metrics_after(m, threshold, true).backend_degraded,
{
}

} // verus!
