//! Prometheus-shaped metrics for the proxy.
//!
//! Counters and gauges that are updated at key points in the listener, the
//! connection handler and the pool, and their text-exposition format.

use crate::number::{decimal, push_decimal};
use vstd::prelude::*;

verus! {

/// Aggregate metrics for a running proxy instance.
#[derive(Debug, Clone, Copy, PartialEq, Eq, Structural)]
pub struct ProxyMetrics {
    /// Total client connections accepted on the listener.
    pub connections_total: u64,
    /// Currently-active client connections (accepted minus closed).
    pub connections_active: u64,
    /// Connections rejected by the per-IP cap.
    pub connections_rejected_per_ip: u64,
    /// Connections rejected due to oversized PG protocol messages.
    pub connections_rejected_msg_size: u64,
    /// Connections rejected for other reasons (auth timeout, client closed, etc).
    pub connections_rejected_other: u64,
    /// Total PG queries relayed to the backend.
    pub queries_total: u64,
    /// Total bytes relayed from client to server.
    pub bytes_in_total: u64,
    /// Total bytes relayed from server to client.
    pub bytes_out_total: u64,
    /// Total errors encountered at any stage of a connection lifecycle.
    pub errors_total: u64,
    /// Whether the backend health check has flipped the degraded flag.
    pub backend_degraded: bool,
    /// Consecutive health check failures since last success.
    pub backend_consecutive_failures: u64,
    /// Total successful health checks since startup (0 if disabled).
    pub backend_healthchecks_ok_total: u64,
    /// Total failed health checks since startup (0 if disabled).
    pub backend_healthchecks_fail_total: u64,
}

/// A counter `n` further, beginning anew behind its maximum.
pub open spec fn counted(counter: u64, n: u64) -> u64 {
    if counter + n > u64::MAX {
        (counter + n - 18446744073709551616) as u64
    } else {
        (counter + n) as u64
    }
}

/// A counter one back, its maximum below zero.
pub open spec fn counted_down(counter: u64) -> u64 {
    if counter == 0 {
        u64::MAX
    } else {
        (counter - 1) as u64
    }
}

fn advance(counter: u64, n: u64) -> (r: u64)
    ensures
        r == counted(counter, n),
{
    counter.wrapping_add(n)
}

/// All counters at zero, the backend healthy.
pub open spec fn zero_metrics() -> ProxyMetrics {
    ProxyMetrics {
        connections_total: 0,
        connections_active: 0,
        connections_rejected_per_ip: 0,
        connections_rejected_msg_size: 0,
        connections_rejected_other: 0,
        queries_total: 0,
        bytes_in_total: 0,
        bytes_out_total: 0,
        errors_total: 0,
        backend_degraded: false,
        backend_consecutive_failures: 0,
        backend_healthchecks_ok_total: 0,
        backend_healthchecks_fail_total: 0,
    }
}

// ── Text exposition ─────────────────────────────────────────────────

/// The lines that announce a metric.
pub open spec fn preamble(name: Seq<char>, help: Seq<char>, kind: Seq<char>) -> Seq<char> {
    "# HELP "@ + name + seq![' '] + help + seq!['\n'] + "# TYPE "@ + name + seq![' '] + kind + seq!['\n']
}

/// A metric with one value.
pub open spec fn metric_text(name: Seq<char>, help: Seq<char>, kind: Seq<char>, value: u64) -> Seq<char> {
    preamble(name, help, kind) + name + seq![' '] + decimal(value as nat) + seq!['\n']
}

/// The value of a metric for one reason.
pub open spec fn reason_line(name: Seq<char>, reason: Seq<char>, value: u64) -> Seq<char> {
    name + "{reason=\""@ + reason + "\"} "@ + decimal(value as nat) + seq!['\n']
}

fn push_preamble(out: &mut String, name: &str, help: &str, kind: &str)
    ensures
        final(out)@ == old(out)@ + preamble(name@, help@, kind@),
{
    let ghost before = out@;
    out.push_str("# HELP ");
    out.push_str(name);
    out.push(' ');
    out.push_str(help);
    out.push('\n');
    out.push_str("# TYPE ");
    out.push_str(name);
    out.push(' ');
    out.push_str(kind);
    out.push('\n');
    proof {
        assert(out@ =~= before + preamble(name@, help@, kind@));
    }
}

fn push_metric(out: &mut String, name: &str, help: &str, kind: &str, value: u64)
    ensures
        final(out)@ == old(out)@ + metric_text(name@, help@, kind@, value),
{
    let ghost before = out@;
    push_preamble(out, name, help, kind);
    out.push_str(name);
    out.push(' ');
    push_decimal(out, value);
    out.push('\n');
    proof {
        assert(out@ =~= before + metric_text(name@, help@, kind@, value));
    }
}

fn push_counter(out: &mut String, name: &str, help: &str, value: u64)
    ensures
        final(out)@ == old(out)@ + metric_text(name@, help@, "counter"@, value),
{
    push_metric(out, name, help, "counter", value);
}

fn push_gauge(out: &mut String, name: &str, help: &str, value: u64)
    ensures
        final(out)@ == old(out)@ + metric_text(name@, help@, "gauge"@, value),
{
    push_metric(out, name, help, "gauge", value);
}

fn push_reason(out: &mut String, name: &str, reason: &str, value: u64)
    ensures
        final(out)@ == old(out)@ + reason_line(name@, reason@, value),
{
    let ghost before = out@;
    out.push_str(name);
    out.push_str("{reason=\"");
    out.push_str(reason);
    out.push_str("\"} ");
    push_decimal(out, value);
    out.push('\n');
    proof {
        assert(out@ =~= before + reason_line(name@, reason@, value));
    }
}

/// Connections: accepted, open, and rejected by reason.
pub open spec fn connection_text(m: ProxyMetrics) -> Seq<char> {
    metric_text(
        "pg_retest_proxy_connections_total"@,
        "Total client connections accepted"@,
        "counter"@,
        m.connections_total,
    ) + metric_text(
        "pg_retest_proxy_connections_active"@,
        "Client connections currently open"@,
        "gauge"@,
        m.connections_active,
    ) + preamble(
        "pg_retest_proxy_connections_rejected_total"@,
        "Connections rejected by resource limits"@,
        "counter"@,
    ) + reason_line(
        "pg_retest_proxy_connections_rejected_total"@,
        "per_ip"@,
        m.connections_rejected_per_ip,
    ) + reason_line(
        "pg_retest_proxy_connections_rejected_total"@,
        "msg_size"@,
        m.connections_rejected_msg_size,
    ) + reason_line("pg_retest_proxy_connections_rejected_total"@, "other"@, m.connections_rejected_other)
}

/// Queries, bytes in both directions, and errors.
pub open spec fn traffic_text(m: ProxyMetrics) -> Seq<char> {
    metric_text(
        "pg_retest_proxy_queries_total"@,
        "Total PG queries relayed to the backend"@,
        "counter"@,
        m.queries_total,
    ) + metric_text(
        "pg_retest_proxy_bytes_in_total"@,
        "Total bytes relayed from client to server"@,
        "counter"@,
        m.bytes_in_total,
    ) + metric_text(
        "pg_retest_proxy_bytes_out_total"@,
        "Total bytes relayed from server to client"@,
        "counter"@,
        m.bytes_out_total,
    ) + metric_text(
        "pg_retest_proxy_errors_total"@,
        "Total connection-level errors"@,
        "counter"@,
        m.errors_total,
    )
}

/// Server connections in use and idle.
pub open spec fn pool_text(active: u64, idle: u64) -> Seq<char> {
    metric_text(
        "pg_retest_proxy_pool_active"@,
        "Server connections currently checked out"@,
        "gauge"@,
        active,
    ) + metric_text(
        "pg_retest_proxy_pool_idle"@,
        "Server connections sitting idle in the pool"@,
        "gauge"@,
        idle,
    )
}

/// Backend health, and the uptime.
pub open spec fn backend_text(m: ProxyMetrics, uptime: u64) -> Seq<char> {
    metric_text(
        "pg_retest_proxy_backend_degraded"@,
        "1 if health checks detected the backend as unreachable, 0 otherwise"@,
        "gauge"@,
        if m.backend_degraded { 1 } else { 0 },
    ) + metric_text(
        "pg_retest_proxy_backend_healthchecks_ok_total"@,
        "Total successful backend health checks"@,
        "counter"@,
        m.backend_healthchecks_ok_total,
    ) + metric_text(
        "pg_retest_proxy_backend_healthchecks_fail_total"@,
        "Total failed backend health checks"@,
        "counter"@,
        m.backend_healthchecks_fail_total,
    ) + metric_text("pg_retest_proxy_uptime_seconds"@, "Seconds since proxy startup"@, "gauge"@, uptime)
}

/// All metrics.
pub open spec fn metrics_text(m: ProxyMetrics, active: u64, idle: u64, uptime: u64) -> Seq<char> {
    connection_text(m) + traffic_text(m) + pool_text(active, idle) + backend_text(m, uptime)
}

impl ProxyMetrics {
    pub fn new() -> (r: Self)
        ensures
            r == zero_metrics(),
    {
        ProxyMetrics {
            connections_total: 0,
            connections_active: 0,
            connections_rejected_per_ip: 0,
            connections_rejected_msg_size: 0,
            connections_rejected_other: 0,
            queries_total: 0,
            bytes_in_total: 0,
            bytes_out_total: 0,
            errors_total: 0,
            backend_degraded: false,
            backend_consecutive_failures: 0,
            backend_healthchecks_ok_total: 0,
            backend_healthchecks_fail_total: 0,
        }
    }

    /// Record a successful accept on the listener.
    pub fn record_accept(&mut self)
        ensures
            *final(self) == (ProxyMetrics {
                connections_total: counted(old(self).connections_total, 1),
                connections_active: counted(old(self).connections_active, 1),
                ..*old(self)
            }),
    {
        self.connections_total = advance(self.connections_total, 1);
        self.connections_active = advance(self.connections_active, 1);
    }

    /// Record a connection closing (regardless of whether it ended cleanly).
    pub fn record_close(&mut self)
        ensures
            *final(self) == (ProxyMetrics {
                connections_active: counted_down(old(self).connections_active),
                ..*old(self)
            }),
    {
        self.connections_active = self.connections_active.wrapping_sub(1);
    }

    /// Record a per-IP rejection.
    pub fn record_reject_per_ip(&mut self)
        ensures
            *final(self) == (ProxyMetrics {
                connections_rejected_per_ip: counted(old(self).connections_rejected_per_ip, 1),
                ..*old(self)
            }),
    {
        self.connections_rejected_per_ip = advance(self.connections_rejected_per_ip, 1);
    }

    /// Record a message-size rejection.
    pub fn record_reject_msg_size(&mut self)
        ensures
            *final(self) == (ProxyMetrics {
                connections_rejected_msg_size: counted(old(self).connections_rejected_msg_size, 1),
                ..*old(self)
            }),
    {
        self.connections_rejected_msg_size = advance(self.connections_rejected_msg_size, 1);
    }

    /// Record a miscellaneous rejection.
    pub fn record_reject_other(&mut self)
        ensures
            *final(self) == (ProxyMetrics {
                connections_rejected_other: counted(old(self).connections_rejected_other, 1),
                ..*old(self)
            }),
    {
        self.connections_rejected_other = advance(self.connections_rejected_other, 1);
    }

    /// Record a query relayed to the backend.
    pub fn record_query(&mut self)
        ensures
            *final(self) == (ProxyMetrics { queries_total: counted(old(self).queries_total, 1), ..*old(self) }),
    {
        self.queries_total = advance(self.queries_total, 1);
    }

    /// Record `n` bytes relayed from client to server.
    pub fn record_bytes_in(&mut self, n: u64)
        ensures
            *final(self) == (ProxyMetrics { bytes_in_total: counted(old(self).bytes_in_total, n), ..*old(self) }),
    {
        self.bytes_in_total = advance(self.bytes_in_total, n);
    }

    /// Record `n` bytes relayed from server to client.
    pub fn record_bytes_out(&mut self, n: u64)
        ensures
            *final(self) == (ProxyMetrics { bytes_out_total: counted(old(self).bytes_out_total, n), ..*old(self) }),
    {
        self.bytes_out_total = advance(self.bytes_out_total, n);
    }

    /// Record a connection-level error.
    pub fn record_error(&mut self)
        ensures
            *final(self) == (ProxyMetrics { errors_total: counted(old(self).errors_total, 1), ..*old(self) }),
    {
        self.errors_total = advance(self.errors_total, 1);
    }

    /// Record a successful backend health check: the failure streak and the
    /// degraded flag are cleared.
    pub fn record_healthcheck_ok(&mut self)
        ensures
            *final(self) == (ProxyMetrics {
                backend_healthchecks_ok_total: counted(old(self).backend_healthchecks_ok_total, 1),
                backend_consecutive_failures: 0,
                backend_degraded: false,
                ..*old(self)
            }),
    {
        self.backend_healthchecks_ok_total = advance(self.backend_healthchecks_ok_total, 1);
        self.backend_consecutive_failures = 0;
        self.backend_degraded = false;
    }

    /// Record a failed backend health check. Returns the new consecutive failure count.
    pub fn record_healthcheck_fail(&mut self) -> (r: u64)
        ensures
            *final(self) == (ProxyMetrics {
                backend_healthchecks_fail_total: counted(old(self).backend_healthchecks_fail_total, 1),
                backend_consecutive_failures: counted(old(self).backend_consecutive_failures, 1),
                ..*old(self)
            }),
            r == final(self).backend_consecutive_failures,
    {
        self.backend_healthchecks_fail_total = advance(self.backend_healthchecks_fail_total, 1);
        self.backend_consecutive_failures = advance(self.backend_consecutive_failures, 1);
        self.backend_consecutive_failures
    }

    /// Flip the degraded flag (called by the health check task after N consecutive failures).
    pub fn mark_degraded(&mut self)
        ensures
            *final(self) == (ProxyMetrics { backend_degraded: true, ..*old(self) }),
    {
        self.backend_degraded = true;
    }

    /// Render the metrics in Prometheus text-exposition format. The pool's
    /// numbers and the uptime in seconds come from outside.
    pub fn render(&self, pool_active: usize, pool_idle: usize, uptime_seconds: u64) -> (r: String)
        ensures
            r@ == metrics_text(*self, pool_active as u64, pool_idle as u64, uptime_seconds),
    {
        let mut out = String::new();
        self.render_connections(&mut out);
        self.render_traffic(&mut out);
        render_pool(&mut out, pool_active as u64, pool_idle as u64);
        self.render_backend(&mut out, uptime_seconds);
        proof {
            assert(out@ =~= metrics_text(*self, pool_active as u64, pool_idle as u64, uptime_seconds));
        }
        out
    }

    fn render_connections(&self, out: &mut String)
        ensures
            final(out)@ == old(out)@ + connection_text(*self),
    {
        let ghost before = out@;
        push_counter(
            out,
            "pg_retest_proxy_connections_total",
            "Total client connections accepted",
            self.connections_total,
        );
        push_gauge(
            out,
            "pg_retest_proxy_connections_active",
            "Client connections currently open",
            self.connections_active,
        );
        let name = "pg_retest_proxy_connections_rejected_total";
        push_preamble(out, name, "Connections rejected by resource limits", "counter");
        push_reason(out, name, "per_ip", self.connections_rejected_per_ip);
        push_reason(out, name, "msg_size", self.connections_rejected_msg_size);
        push_reason(out, name, "other", self.connections_rejected_other);
        proof {
            assert(out@ =~= before + connection_text(*self));
        }
    }

    fn render_traffic(&self, out: &mut String)
        ensures
            final(out)@ == old(out)@ + traffic_text(*self),
    {
        let ghost before = out@;
        push_counter(
            out,
            "pg_retest_proxy_queries_total",
            "Total PG queries relayed to the backend",
            self.queries_total,
        );
        push_counter(
            out,
            "pg_retest_proxy_bytes_in_total",
            "Total bytes relayed from client to server",
            self.bytes_in_total,
        );
        push_counter(
            out,
            "pg_retest_proxy_bytes_out_total",
            "Total bytes relayed from server to client",
            self.bytes_out_total,
        );
        push_counter(
            out,
            "pg_retest_proxy_errors_total",
            "Total connection-level errors",
            self.errors_total,
        );
        proof {
            assert(out@ =~= before + traffic_text(*self));
        }
    }

    fn render_backend(&self, out: &mut String, uptime: u64)
        ensures
            final(out)@ == old(out)@ + backend_text(*self, uptime),
    {
        let ghost before = out@;
        push_gauge(
            out,
            "pg_retest_proxy_backend_degraded",
            "1 if health checks detected the backend as unreachable, 0 otherwise",
            if self.backend_degraded { 1 } else { 0 },
        );
        push_counter(
            out,
            "pg_retest_proxy_backend_healthchecks_ok_total",
            "Total successful backend health checks",
            self.backend_healthchecks_ok_total,
        );
        push_counter(
            out,
            "pg_retest_proxy_backend_healthchecks_fail_total",
            "Total failed backend health checks",
            self.backend_healthchecks_fail_total,
        );
        push_gauge(out, "pg_retest_proxy_uptime_seconds", "Seconds since proxy startup", uptime);
        proof {
            assert(out@ =~= before + backend_text(*self, uptime));
        }
    }
}

fn render_pool(out: &mut String, active: u64, idle: u64)
    ensures
        final(out)@ == old(out)@ + pool_text(active, idle),
{
    let ghost before = out@;
    push_gauge(out, "pg_retest_proxy_pool_active", "Server connections currently checked out", active);
    push_gauge(out, "pg_retest_proxy_pool_idle", "Server connections sitting idle in the pool", idle);
    proof {
        assert(out@ =~= before + pool_text(active, idle));
    }
}

impl Default for ProxyMetrics {
    fn default() -> (r: Self)
        ensures
            r == zero_metrics(),
    {
        ProxyMetrics::new()
    }
}

/// An accept and a close leave the number of open connections as it was.
pub proof fn law_accept_then_close(active: u64)
    ensures
        counted_down(counted(active, 1)) == active,
{
}

} // verus!
