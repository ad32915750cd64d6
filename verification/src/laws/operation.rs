//! Laws of a running proxy: its pool, its limits, its counters and its commands.

use crate::capture::fraction::ten_to;
use crate::number::{all_digits, decimal, digits_value, law_decimal_value, lemma_zeros_value, padded_decimal};
use crate::proxy::capture::EventView;
use crate::proxy::control::{
    duration_text, ends_query, fraction_text, guard_action, guard_after, guard_counted, output_path,
    read_failed, refusal, shut_down, started, stop_reason_text, stopped, wrapped_up, write_failed, written,
    CaptureGuard, CommandError, GuardAction, PhaseView, StopReason, SummaryView, SIZE_CHECK_INTERVAL,
};
use crate::proxy::health::metrics_after;
use crate::proxy::limits::{in_transaction, past_limit, silent_secs, to_report, too_large, TransactionWatch};
use crate::proxy::listener::{admission, admitted, connections_of, departed, Admission};
use crate::proxy::metrics::{
    backend_text, connection_text, counted, metric_text, metrics_text, pool_text, preamble, reason_line,
    traffic_text, ProxyMetrics,
};
use crate::proxy::pool::{other_than, Checkout, PoolView};
use crate::text::{contains, is_digit, match_at};
use vstd::prelude::*;

verus! {

// ── The pool ────────────────────────────────────────────────────────

/// The connection that has been idle for longest is given out first; a new one
/// is opened only where none is idle, under a number that no later one has.
pub proof fn law_checkout_order(p: PoolView)
    ensures
        p.idle.len() > 0 ==> p.offered() == Checkout::Reuse(p.idle[0]) && p.checked_out().idle == p.idle.skip(1)
            && p.checked_out().next_id == p.next_id,
        p.idle.len() == 0 && p.active < p.max_size ==> p.offered() == Checkout::Open(p.next_id as u64)
            && p.checked_out().next_id > p.next_id && p.checked_out().idle.len() == 0,
        !(p.offered() is Wait) ==> p.checked_out().active == p.active + 1,
        p.offered() is Wait ==> p.checked_out() == p,
        p.checked_out().max_size == p.max_size,
{
}

/// A connection that comes back is idle behind the others and no longer in use;
/// one that is discarded is no longer in use either, and not idle.
pub proof fn law_connections_come_back(p: PoolView, id: u64)
    requires
        p.active > 0,
    ensures
        p.checked_in(id).idle.len() == p.idle.len() + 1,
        p.checked_in(id).idle.last() == id,
        p.checked_in(id).idle.drop_last() == p.idle,
        p.checked_in(id).active == p.active - 1,
        p.discarded().active == p.active - 1,
        p.discarded().idle == p.idle,
{
    assert(p.checked_in(id).idle.drop_last() =~= p.idle);
}

proof fn lemma_filtered(s: Seq<u64>, id: u64, y: u64)
    requires
        y != id,
    ensures
        s.filter(other_than(id)).contains(y) <==> s.contains(y),
        s.filter(other_than(id)).len() <= s.len(),
        !s.contains(id) ==> s.filter(other_than(id)) == s,
    decreases s.len(),
{
    reveal(Seq::filter);
    if s.len() > 0 {
        let t = s.drop_last();
        lemma_filtered(t, id, y);
        let f = t.filter(other_than(id));
        assert(s =~= t.push(s.last()));
        if s.contains(y) {
            let i = s.index_of(y);
            if i < t.len() {
                assert(t[i] == y);
                let j = f.index_of(y);
                assert(f.push(s.last())[j] == y);
            } else {
                assert(f.push(s.last())[f.len() as int] == y);
            }
        }
        if s.filter(other_than(id)).contains(y) {
            let j = s.filter(other_than(id)).index_of(y);
            if j < f.len() {
                assert(f[j] == y);
                let i = t.index_of(y);
                assert(s[i] == y);
            } else {
                assert(s[s.len() - 1] == y);
            }
        }
        if !s.contains(id) {
            assert(s[s.len() - 1] != id);
            if t.contains(id) {
                let i = t.index_of(id);
                assert(s[i] == id);
            }
        }
    }
}

/// Reaping an idle connection leaves the others idle, and the connections in use
/// as they are.
pub proof fn law_reaping_keeps_the_others(p: PoolView, id: u64, other: u64)
    requires
        other != id,
    ensures
        p.reaped(id).idle.contains(other) <==> p.idle.contains(other),
        !p.idle.contains(id) ==> p.reaped(id) == p,
        p.reaped(id).active == p.active,
{
    lemma_filtered(p.idle, id, other);
}

// ── Connections by address ──────────────────────────────────────────

/// A connection is refused just where its address has as many open as it may
/// have, and without a limit none is.
pub proof fn law_refused_at_the_limit(m: Map<Seq<char>, u32>, ip: Seq<char>, max: u32)
    ensures
        admission(m, ip, max) is Accepted <==> max == 0 || connections_of(m, ip) < max,
        max > 0 && connections_of(m, ip) >= max ==> admission(m, ip, max) == Admission::Rejected(
            (connections_of(m, ip) + 1) as u64,
        ),
{
}

/// Connections are counted by address: one more for each that is accepted, one
/// fewer for each that ends, and the other addresses are left alone.
pub proof fn law_connections_are_counted_by_address(m: Map<Seq<char>, u32>, ip: Seq<char>, other: Seq<char>, max: u32)
    ensures
        max > 0 && admission(m, ip, max) is Accepted ==> connections_of(admitted(m, ip, max), ip) == connections_of(
            m,
            ip,
        ) + 1,
        connections_of(m, ip) > 0 ==> connections_of(departed(m, ip), ip) == connections_of(m, ip) - 1,
        connections_of(m, ip) == 0 ==> connections_of(departed(m, ip), ip) == 0,
        other != ip ==> connections_of(admitted(m, ip, max), other) == connections_of(m, other),
        other != ip ==> connections_of(departed(m, ip), other) == connections_of(m, other),
{
}

// ── Limits ──────────────────────────────────────────────────────────

/// A limit of zero is none; any other holds for what is greater than it. The
/// length of a message counts its own four bytes.
pub proof fn law_limits_hold(secs: u64, limit: u64, body: nat, max: u32)
    ensures
        !past_limit(secs, 0),
        limit > 0 ==> (past_limit(secs, limit) <==> secs > limit),
        !too_large(body, 0),
        max > 0 ==> (too_large(body, max) <==> body + 4 > max),
{
}

/// A transaction is open in the states `T` and `E` of the server, and in no
/// other.
pub proof fn law_open_transactions(status: u8)
    ensures
        in_transaction(status) <==> status == 'T' as u8 || status == 'E' as u8,
{
    assert('T' as u8 == 84 && 'E' as u8 == 69);
}

/// A client's silence is reported once it has lasted for more whole seconds than
/// the limit, if it was not reported before; without a limit, or outside of a
/// transaction, never.
pub proof fn law_silence_is_reported(since: u64, now: u64, limit: u64)
    requires
        now >= since,
    ensures
        to_report(TransactionWatch { since: Some(since), reported: false }, now, Some(limit)) <==> limit > 0 && now
            - since >= (limit + 1) * 1_000_000_000,
        !to_report(TransactionWatch { since: Some(since), reported: true }, now, Some(limit)),
        !to_report(TransactionWatch { since: Some(since), reported: false }, now, None),
        !to_report(TransactionWatch { since: None, reported: false }, now, Some(limit)),
        silent_secs(TransactionWatch { since: Some(since), reported: false }, now) == Some(
            ((now - since) / 1_000_000_000) as u64,
        ),
{
}

// ── Health ──────────────────────────────────────────────────────────

/// A probe is counted among the successful or the failed ones, and changes none
/// of the other counters.
pub proof fn law_probes_are_counted(m: ProxyMetrics, threshold: u64)
    requires
        m.backend_healthchecks_ok_total < u64::MAX,
        m.backend_healthchecks_fail_total < u64::MAX,
        m.backend_consecutive_failures < u64::MAX,
    ensures
        ({
            let good = metrics_after(m, threshold, true);
            let bad = metrics_after(m, threshold, false);
            &&& good.backend_healthchecks_ok_total == m.backend_healthchecks_ok_total + 1
            &&& good.backend_healthchecks_fail_total == m.backend_healthchecks_fail_total
            &&& bad.backend_healthchecks_fail_total == m.backend_healthchecks_fail_total + 1
            &&& bad.backend_healthchecks_ok_total == m.backend_healthchecks_ok_total
            &&& bad.backend_consecutive_failures == m.backend_consecutive_failures + 1
            &&& m.backend_degraded ==> bad.backend_degraded
            &&& good.connections_total == m.connections_total && bad.connections_total == m.connections_total
            &&& good.queries_total == m.queries_total && bad.queries_total == m.queries_total
            &&& good.errors_total == m.errors_total && bad.errors_total == m.errors_total
        }),
{
}

/// Counting twice is counting the sum at once, and counts add up as long as they
/// fit.
pub proof fn law_counts_add_up(counter: u64, a: u64, b: u64)
    ensures
        counter + a <= u64::MAX ==> counted(counter, a) == counter + a,
        counted(counted(counter, a), b) == counted(counter, counted(a, b)),
        counted(counter, 0) == counter,
{
}

// ── Shown metrics ───────────────────────────────────────────────────

proof fn lemma_in_front(x: Seq<char>, y: Seq<char>, p: Seq<char>)
    requires
        contains(x, p),
    ensures
        contains(x + y, p),
{
    let i = choose|i: int| match_at(x, p, i);
    assert((x + y).subrange(i, i + p.len()) =~= x.subrange(i, i + p.len()));
    assert(match_at(x + y, p, i));
}

proof fn lemma_behind(x: Seq<char>, y: Seq<char>, p: Seq<char>)
    requires
        contains(y, p),
    ensures
        contains(x + y, p),
{
    let i = choose|i: int| match_at(y, p, i);
    let k = x.len() + i;
    assert((x + y).subrange(k, k + p.len()) =~= y.subrange(i, i + p.len()));
    assert(match_at(x + y, p, k));
}

/// The line of a value.
pub open spec fn value_line(name: Seq<char>, value: u64) -> Seq<char> {
    seq!['\n'] + name + seq![' '] + decimal(value as nat) + seq!['\n']
}

proof fn lemma_value_shown(name: Seq<char>, help: Seq<char>, kind: Seq<char>, value: u64)
    ensures
        contains(metric_text(name, help, kind, value), value_line(name, value)),
{
    let t = metric_text(name, help, kind, value);
    let line = value_line(name, value);
    let i = preamble(name, help, kind).len() - 1;
    assert(preamble(name, help, kind)[i] == '\n');
    assert(t.subrange(i, i + line.len()) =~= line);
    assert(match_at(t, line, i));
}

/// The counters of connections and traffic are shown, each on a line of its own
/// with its name before its value.
pub proof fn law_counters_are_shown(m: ProxyMetrics, active: u64, idle: u64, uptime: u64)
    ensures
        contains(
            metrics_text(m, active, idle, uptime),
            value_line("pg_retest_proxy_connections_total"@, m.connections_total),
        ),
        contains(
            metrics_text(m, active, idle, uptime),
            value_line("pg_retest_proxy_connections_active"@, m.connections_active),
        ),
        contains(
            metrics_text(m, active, idle, uptime),
            value_line("pg_retest_proxy_queries_total"@, m.queries_total),
        ),
        contains(
            metrics_text(m, active, idle, uptime),
            value_line("pg_retest_proxy_bytes_in_total"@, m.bytes_in_total),
        ),
        contains(
            metrics_text(m, active, idle, uptime),
            value_line("pg_retest_proxy_bytes_out_total"@, m.bytes_out_total),
        ),
        contains(
            metrics_text(m, active, idle, uptime),
            value_line("pg_retest_proxy_errors_total"@, m.errors_total),
        ),
{
    let c = connection_text(m);
    let t = traffic_text(m);
    let p = pool_text(active, idle);
    let b = backend_text(m, uptime);
    let m1 = metric_text(
        "pg_retest_proxy_connections_total"@,
        "Total client connections accepted"@,
        "counter"@,
        m.connections_total,
    );
    let m2 = metric_text(
        "pg_retest_proxy_connections_active"@,
        "Client connections currently open"@,
        "gauge"@,
        m.connections_active,
    );
    let l1 = value_line("pg_retest_proxy_connections_total"@, m.connections_total);
    let l2 = value_line("pg_retest_proxy_connections_active"@, m.connections_active);
    lemma_value_shown(
        "pg_retest_proxy_connections_total"@,
        "Total client connections accepted"@,
        "counter"@,
        m.connections_total,
    );
    lemma_value_shown(
        "pg_retest_proxy_connections_active"@,
        "Client connections currently open"@,
        "gauge"@,
        m.connections_active,
    );
    lemma_in_front(m1, m2, l1);
    lemma_behind(m1, m2, l2);
    let pre = preamble(
        "pg_retest_proxy_connections_rejected_total"@,
        "Connections rejected by resource limits"@,
        "counter"@,
    );
    let name = "pg_retest_proxy_connections_rejected_total"@;
    let r1 = reason_line(name, "per_ip"@, m.connections_rejected_per_ip);
    let r2 = reason_line(name, "msg_size"@, m.connections_rejected_msg_size);
    let r3 = reason_line(name, "other"@, m.connections_rejected_other);
    lemma_in_front(m1 + m2, pre, l1);
    lemma_in_front(m1 + m2, pre, l2);
    lemma_in_front(m1 + m2 + pre, r1, l1);
    lemma_in_front(m1 + m2 + pre, r1, l2);
    lemma_in_front(m1 + m2 + pre + r1, r2, l1);
    lemma_in_front(m1 + m2 + pre + r1, r2, l2);
    lemma_in_front(m1 + m2 + pre + r1 + r2, r3, l1);
    lemma_in_front(m1 + m2 + pre + r1 + r2, r3, l2);
    lemma_in_front(c, t, l1);
    lemma_in_front(c, t, l2);
    lemma_in_front(c + t, p, l1);
    lemma_in_front(c + t, p, l2);
    lemma_in_front(c + t + p, b, l1);
    lemma_in_front(c + t + p, b, l2);
    let t1 = metric_text(
        "pg_retest_proxy_queries_total"@,
        "Total PG queries relayed to the backend"@,
        "counter"@,
        m.queries_total,
    );
    let t2 = metric_text(
        "pg_retest_proxy_bytes_in_total"@,
        "Total bytes relayed from client to server"@,
        "counter"@,
        m.bytes_in_total,
    );
    let t3 = metric_text(
        "pg_retest_proxy_bytes_out_total"@,
        "Total bytes relayed from server to client"@,
        "counter"@,
        m.bytes_out_total,
    );
    let t4 = metric_text("pg_retest_proxy_errors_total"@, "Total connection-level errors"@, "counter"@, m.errors_total);
    let l3 = value_line("pg_retest_proxy_queries_total"@, m.queries_total);
    let l4 = value_line("pg_retest_proxy_bytes_in_total"@, m.bytes_in_total);
    let l5 = value_line("pg_retest_proxy_bytes_out_total"@, m.bytes_out_total);
    let l6 = value_line("pg_retest_proxy_errors_total"@, m.errors_total);
    lemma_value_shown(
        "pg_retest_proxy_queries_total"@,
        "Total PG queries relayed to the backend"@,
        "counter"@,
        m.queries_total,
    );
    lemma_value_shown(
        "pg_retest_proxy_bytes_in_total"@,
        "Total bytes relayed from client to server"@,
        "counter"@,
        m.bytes_in_total,
    );
    lemma_value_shown(
        "pg_retest_proxy_bytes_out_total"@,
        "Total bytes relayed from server to client"@,
        "counter"@,
        m.bytes_out_total,
    );
    lemma_value_shown(
        "pg_retest_proxy_errors_total"@,
        "Total connection-level errors"@,
        "counter"@,
        m.errors_total,
    );
    lemma_in_front(t1, t2, l3);
    lemma_in_front(t1 + t2, t3, l3);
    lemma_in_front(t1 + t2 + t3, t4, l3);
    lemma_behind(t1, t2, l4);
    lemma_in_front(t1 + t2, t3, l4);
    lemma_in_front(t1 + t2 + t3, t4, l4);
    lemma_behind(t1 + t2, t3, l5);
    lemma_in_front(t1 + t2 + t3, t4, l5);
    lemma_behind(t1 + t2 + t3, t4, l6);
    lemma_traffic_in_all(m, active, idle, uptime, l3);
    lemma_traffic_in_all(m, active, idle, uptime, l4);
    lemma_traffic_in_all(m, active, idle, uptime, l5);
    lemma_traffic_in_all(m, active, idle, uptime, l6);
}

proof fn lemma_traffic_in_all(m: ProxyMetrics, active: u64, idle: u64, uptime: u64, l: Seq<char>)
    requires
        contains(traffic_text(m), l),
    ensures
        contains(metrics_text(m, active, idle, uptime), l),
{
    let c = connection_text(m);
    let t = traffic_text(m);
    let p = pool_text(active, idle);
    let b = backend_text(m, uptime);
    lemma_behind(c, t, l);
    lemma_in_front(c + t, p, l);
    lemma_in_front(c + t + p, b, l);
}

/// The state of the pool and of the backend is shown.
pub proof fn law_states_are_shown(m: ProxyMetrics, active: u64, idle: u64, uptime: u64)
    ensures
        contains(metrics_text(m, active, idle, uptime), value_line("pg_retest_proxy_pool_active"@, active)),
        contains(metrics_text(m, active, idle, uptime), value_line("pg_retest_proxy_pool_idle"@, idle)),
        contains(
            metrics_text(m, active, idle, uptime),
            value_line(
                "pg_retest_proxy_backend_degraded"@,
                if m.backend_degraded {
                    1
                } else {
                    0
                },
            ),
        ),
        contains(
            metrics_text(m, active, idle, uptime),
            value_line("pg_retest_proxy_backend_healthchecks_ok_total"@, m.backend_healthchecks_ok_total),
        ),
        contains(
            metrics_text(m, active, idle, uptime),
            value_line("pg_retest_proxy_backend_healthchecks_fail_total"@, m.backend_healthchecks_fail_total),
        ),
        contains(metrics_text(m, active, idle, uptime), value_line("pg_retest_proxy_uptime_seconds"@, uptime)),
{
    let c = connection_text(m);
    let t = traffic_text(m);
    let p = pool_text(active, idle);
    let b = backend_text(m, uptime);
    let p1 = metric_text(
        "pg_retest_proxy_pool_active"@,
        "Server connections currently checked out"@,
        "gauge"@,
        active,
    );
    let p2 = metric_text(
        "pg_retest_proxy_pool_idle"@,
        "Server connections sitting idle in the pool"@,
        "gauge"@,
        idle,
    );
    let l1 = value_line("pg_retest_proxy_pool_active"@, active);
    let l2 = value_line("pg_retest_proxy_pool_idle"@, idle);
    lemma_value_shown(
        "pg_retest_proxy_pool_active"@,
        "Server connections currently checked out"@,
        "gauge"@,
        active,
    );
    lemma_value_shown(
        "pg_retest_proxy_pool_idle"@,
        "Server connections sitting idle in the pool"@,
        "gauge"@,
        idle,
    );
    lemma_in_front(p1, p2, l1);
    lemma_behind(p1, p2, l2);
    lemma_behind(c + t, p, l1);
    lemma_behind(c + t, p, l2);
    lemma_in_front(c + t + p, b, l1);
    lemma_in_front(c + t + p, b, l2);
    let degraded: u64 = if m.backend_degraded { 1 } else { 0 };
    let b1 = metric_text(
        "pg_retest_proxy_backend_degraded"@,
        "1 if health checks detected the backend as unreachable, 0 otherwise"@,
        "gauge"@,
        degraded,
    );
    let b2 = metric_text(
        "pg_retest_proxy_backend_healthchecks_ok_total"@,
        "Total successful backend health checks"@,
        "counter"@,
        m.backend_healthchecks_ok_total,
    );
    let b3 = metric_text(
        "pg_retest_proxy_backend_healthchecks_fail_total"@,
        "Total failed backend health checks"@,
        "counter"@,
        m.backend_healthchecks_fail_total,
    );
    let b4 = metric_text("pg_retest_proxy_uptime_seconds"@, "Seconds since proxy startup"@, "gauge"@, uptime);
    let l3 = value_line("pg_retest_proxy_backend_degraded"@, degraded);
    let l4 = value_line("pg_retest_proxy_backend_healthchecks_ok_total"@, m.backend_healthchecks_ok_total);
    let l5 = value_line("pg_retest_proxy_backend_healthchecks_fail_total"@, m.backend_healthchecks_fail_total);
    let l6 = value_line("pg_retest_proxy_uptime_seconds"@, uptime);
    lemma_value_shown(
        "pg_retest_proxy_backend_degraded"@,
        "1 if health checks detected the backend as unreachable, 0 otherwise"@,
        "gauge"@,
        degraded,
    );
    lemma_value_shown(
        "pg_retest_proxy_backend_healthchecks_ok_total"@,
        "Total successful backend health checks"@,
        "counter"@,
        m.backend_healthchecks_ok_total,
    );
    lemma_value_shown(
        "pg_retest_proxy_backend_healthchecks_fail_total"@,
        "Total failed backend health checks"@,
        "counter"@,
        m.backend_healthchecks_fail_total,
    );
    lemma_value_shown("pg_retest_proxy_uptime_seconds"@, "Seconds since proxy startup"@, "gauge"@, uptime);
    lemma_in_front(b1, b2, l3);
    lemma_in_front(b1 + b2, b3, l3);
    lemma_in_front(b1 + b2 + b3, b4, l3);
    lemma_behind(b1, b2, l4);
    lemma_in_front(b1 + b2, b3, l4);
    lemma_in_front(b1 + b2 + b3, b4, l4);
    lemma_behind(b1 + b2, b3, l5);
    lemma_in_front(b1 + b2 + b3, b4, l5);
    lemma_behind(b1 + b2 + b3, b4, l6);
    lemma_behind(c + t + p, b, l3);
    lemma_behind(c + t + p, b, l4);
    lemma_behind(c + t + p, b, l5);
    lemma_behind(c + t + p, b, l6);
}

// ── Commands ────────────────────────────────────────────────────────

/// A path that was asked for is used; else the configured one; else one with the
/// time in its name.
pub proof fn law_output_path(p: Seq<char>, configured: Option<Seq<char>>, time: Seq<char>)
    ensures
        output_path(Some(p), configured, time) == p,
        output_path(None, Some(p), time) == p,
        output_path(None, None, time) == "capture-"@ + time + ".wkl"@,
{
}

/// A start has effect on an idle proxy alone, a stop on a capturing one alone; a
/// shutdown saves what is being captured, and ends an idle proxy.
pub proof fn law_commands_have_effect_once(p: PhaseView, id: Seq<char>, output: Option<Seq<char>>)
    ensures
        started(PhaseView::Idle, id) == PhaseView::Capturing(id),
        !(p is Idle) ==> started(p, id) == p,
        stopped(PhaseView::Capturing(id), output) == (PhaseView::Reading { id, output, last: false }),
        !(p is Capturing) ==> stopped(p, output) == p,
        shut_down(PhaseView::Capturing(id)) == (PhaseView::Reading { id, output: None, last: true }),
        shut_down(PhaseView::Idle) == PhaseView::Stopped,
        wrapped_up(true) == PhaseView::Stopped,
        wrapped_up(false) == PhaseView::Idle,
{
}

/// The answer to a stop names the capture, the file and the numbers of sessions
/// and queries that were written, or says why nothing was; at shutdown there is
/// none. Rows that could not be read are kept.
pub proof fn law_stop_is_answered(p: PhaseView, error: Seq<char>)
    ensures
        p is Writing && !p->Writing_last ==> written(p).reply is Some && written(p).reply->0 is Ok && ({
            let s = written(p).reply->0->Ok_0;
            &&& s.capture_id == p->Writing_id
            &&& s.output == p->Writing_path
            &&& s.total_sessions == p->Writing_sessions
            &&& s.total_queries == p->Writing_queries
        }),
        p is Writing && !p->Writing_last ==> write_failed(p, error).reply == Some(
            Err::<SummaryView, Seq<char>>("Failed to write profile: "@ + error),
        ),
        p is Writing && p->Writing_last ==> written(p).reply is None && write_failed(p, error).reply is None,
        p is Writing ==> written(p).mark_idle && write_failed(p, error).mark_idle,
        p is Reading ==> read_failed(p, error).clear is None && !read_failed(p, error).mark_idle,
        p is Reading && !p->Reading_last ==> read_failed(p, error).reply == Some(
            Err::<SummaryView, Seq<char>>("Failed to read staging data: "@ + error),
        ),
        p is Reading && p->Reading_last ==> read_failed(p, error).reply is None,
{
}

/// A refused command is answered with the reason.
pub proof fn law_refusals_are_told()
    ensures
        refusal(CommandError::AlreadyCapturing) == "Already capturing"@,
        refusal(CommandError::NotCapturing) == "Not currently capturing"@,
        refusal(CommandError::NotConfigured) == "Proxy not configured for capture"@,
        refusal(CommandError::NotResponding) == "Proxy not responding"@,
{
}

/// The reason of a stop names the limit that was reached.
pub proof fn law_stop_reasons_name_the_limit(n: u64)
    ensures
        contains(stop_reason_text(StopReason::MaxQueries(n)), decimal(n as nat)),
        contains(stop_reason_text(StopReason::MaxSize(n)), decimal(n as nat)),
        contains(stop_reason_text(StopReason::MaxDuration(n)), duration_text(n as nat)),
        contains(stop_reason_text(StopReason::MaxQueries(n)), "max_queries_reached ("@),
        contains(stop_reason_text(StopReason::MaxSize(n)), "max_size_reached ("@),
        contains(stop_reason_text(StopReason::MaxDuration(n)), "max_duration_reached ("@),
{
    let d = decimal(n as nat);
    let t = duration_text(n as nat);
    lemma_whole(d);
    lemma_whole(t);
    lemma_whole("max_queries_reached ("@);
    lemma_whole("max_size_reached ("@);
    lemma_whole("max_duration_reached ("@);
    lemma_behind("max_queries_reached ("@, d, d);
    lemma_in_front("max_queries_reached ("@ + d, ")"@, d);
    lemma_behind("max_size_reached ("@, d, d);
    lemma_in_front("max_size_reached ("@ + d, " bytes)"@, d);
    lemma_behind("max_duration_reached ("@, t, t);
    lemma_in_front("max_duration_reached ("@ + t, ")"@, t);
    lemma_in_front("max_queries_reached ("@, d, "max_queries_reached ("@);
    lemma_in_front("max_queries_reached ("@ + d, ")"@, "max_queries_reached ("@);
    lemma_in_front("max_size_reached ("@, d, "max_size_reached ("@);
    lemma_in_front("max_size_reached ("@ + d, " bytes)"@, "max_size_reached ("@);
    lemma_in_front("max_duration_reached ("@, t, "max_duration_reached ("@);
    lemma_in_front("max_duration_reached ("@ + t, ")"@, "max_duration_reached ("@);
}

proof fn lemma_whole(x: Seq<char>)
    ensures
        contains(x, x),
{
    assert(x.subrange(0, x.len() as int) =~= x);
    assert(match_at(x, x, 0));
}

// ── Limits on a capture ─────────────────────────────────────────────

/// A session is counted from its start to its end, a query when it ends, and the
/// time of a capture runs from its first session on.
pub proof fn law_guard_counts(g: CaptureGuard, s: EventView, e: EventView, q: EventView, now: u64, later: u64)
    requires
        s is SessionStart,
        e is SessionEnd,
        ends_query(q),
        g.active_sessions < u64::MAX,
        g.total_queries < u64::MAX,
    ensures
        guard_counted(g, s, true, now).active_sessions == g.active_sessions + 1,
        guard_counted(guard_counted(g, s, true, now), e, true, later).active_sessions == g.active_sessions,
        guard_counted(g, q, true, now).total_queries == g.total_queries + 1,
        guard_counted(g, s, true, now).total_queries == g.total_queries,
        guard_counted(g, e, true, now).total_queries == g.total_queries,
        g.capture_start is None ==> guard_counted(g, s, true, now).capture_start == Some(now),
        g.capture_start is Some ==> guard_counted(g, s, true, now).capture_start == g.capture_start,
        guard_counted(g, s, false, now).capture_start == g.capture_start,
        guard_counted(g, q, true, now).capture_start == g.capture_start,
{
}

/// Where no limit on queries is reached, a capture stops with the first query
/// that ends when the time is up, and with none before.
pub proof fn law_duration_limit_stops(g: CaptureGuard, q: EventView, start: u64, max: u64, now: u64)
    requires
        ends_query(q),
        !g.limit_triggered,
        g.limits.max_queries == 0 || g.total_queries < g.limits.max_queries,
        g.limits.max_duration_ns == Some(max),
        g.capture_start == Some(start),
        start <= now,
        max > 0,
    ensures
        guard_action(g, q, now) == GuardAction::Stop(StopReason::MaxDuration(max)) <==> now - start >= max,
        now - start < max ==> !(guard_action(g, q, now) is Stop),
{
}

/// Without a limit nothing is ever stopped or looked at.
pub proof fn law_no_limits(g: CaptureGuard, e: EventView, now: u64)
    requires
        g.limits.max_queries == 0,
        g.limits.max_bytes == 0,
        g.limits.max_duration_ns is None,
    ensures
        guard_action(g, e, now) == GuardAction::Continue,
{
}

/// With a limit on its size alone, the capture is looked at when a thousand
/// queries have ended since the last time, and then not again at once.
pub proof fn law_size_is_looked_at(g: CaptureGuard, q: EventView, now: u64)
    requires
        ends_query(q),
        g.wf(),
        !g.limit_triggered,
        g.limits.max_queries == 0,
        g.limits.max_duration_ns is None,
        g.limits.max_bytes > 0,
        g.total_queries < u64::MAX,
    ensures
        guard_action(g, q, now) == GuardAction::CheckSize <==> g.total_queries - g.last_size_check >= 1000,
        !(guard_action(g, q, now) is Stop),
        g.total_queries + 1 - g.last_size_check >= 1000 ==> guard_after(g, q, true, now).last_size_check
            == g.total_queries + 1,
        g.total_queries + 1 - g.last_size_check < 1000 ==> guard_after(g, q, true, now).last_size_check
            == g.last_size_check,
{
    assert(SIZE_CHECK_INTERVAL == 1000);
}

// ── Durations in words ──────────────────────────────────────────────

proof fn lemma_decimal_len(n: nat, w: nat)
    requires
        w > 0,
        n < ten_to(w as int),
    ensures
        decimal(n).len() <= w,
    decreases w,
{
    if n < 10 {
        assert(decimal(n).len() == 1);
    } else if w > 1 {
        lemma_decimal_len(n / 10, (w - 1) as nat);
        assert(decimal(n).len() == decimal(n / 10).len() + 1);
    } else {
        assert(ten_to(1) == 10 * ten_to(0));
        assert(ten_to(0) == 1);
    }
}

proof fn lemma_padded(n: nat, w: nat)
    requires
        w > 0,
        n < ten_to(w as int),
    ensures
        padded_decimal(n, w).len() == w,
        all_digits(padded_decimal(n, w)),
        digits_value(padded_decimal(n, w)) == n,
{
    law_decimal_value(n);
    lemma_decimal_len(n, w);
    let d = decimal(n);
    if d.len() < w {
        lemma_zeros_value((w - d.len()) as nat, d);
    }
}

/// A part of a unit is written as the digits behind a point that are worth it,
/// without zeros at their end, and as nothing where it is zero.
pub proof fn law_fraction_is_worth_its_part(part: nat, width: nat)
    requires
        part < ten_to(width as int),
    ensures
        part == 0 ==> fraction_text(part, width).len() == 0,
        part > 0 ==> ({
            let t = fraction_text(part, width);
            &&& 1 < t.len() <= width + 1
            &&& t[0] == '.'
            &&& all_digits(t.skip(1))
            &&& t.last() != '0'
            &&& digits_value(t.skip(1)) * ten_to(width + 1 - t.len()) == part
        }),
    decreases width,
{
    if part > 0 {
        if width == 0 {
            assert(ten_to(0) == 1);
        } else if part % 10 == 0 {
            let w = (width - 1) as nat;
            assert(ten_to(width as int) == 10 * ten_to(w as int));
            law_fraction_is_worth_its_part(part / 10, w);
            let t = fraction_text(part, width);
            let k = w + 1 - t.len();
            let v = digits_value(t.skip(1));
            assert(ten_to(k + 1) == 10 * ten_to(k));
            let one = ten_to(k);
            let ten = ten_to(k + 1);
            assert(v * ten == 10 * (v * one)) by (nonlinear_arith)
                requires
                    ten == 10 * one,
            ;
            assert(width + 1 - t.len() == k + 1);
        } else {
            reveal_strlit(".");
            lemma_padded(part, width);
            let p = padded_decimal(part, width);
            let t = fraction_text(part, width);
            assert(t.skip(1) =~= p);
            assert(t.last() == p.last());
            let none = ten_to(0);
            let v = digits_value(p);
            assert(none == 1);
            assert(v * none == v) by (nonlinear_arith)
                requires
                    none == 1,
            ;
            assert(width + 1 - t.len() == 0);
            assert(digits_value(p) == digits_value(p.drop_last()) * 10 + (p.last() as u32 - 48));
            assert(is_digit(p[p.len() - 1]));
            assert(p.last() != '0') by {
                if p.last() == '0' {
                    assert(digits_value(p) % 10 == 0);
                }
            }
        }
    }
}

/// A duration is written in its largest unit of which it holds at least one:
/// whole units, the rest as a fraction, and the name of the unit.
pub proof fn law_duration_is_written_in_its_unit(ns: nat)
    ensures
        ns >= 1_000_000_000 ==> duration_text(ns) == decimal(ns / 1_000_000_000) + fraction_text(
            ns % 1_000_000_000,
            9,
        ) + "s"@,
        1_000_000 <= ns < 1_000_000_000 ==> duration_text(ns) == decimal(ns / 1_000_000) + fraction_text(
            ns % 1_000_000,
            6,
        ) + "ms"@,
        1_000 <= ns < 1_000_000 ==> duration_text(ns) == decimal(ns / 1_000) + fraction_text(ns % 1_000, 3)
            + "\u{b5}s"@,
        ns < 1_000 ==> duration_text(ns) == decimal(ns) + "ns"@,
{
}

} // verus!
