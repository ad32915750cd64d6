use pg_retest::correlate::capture::TablePk;
use pg_retest::profile::Timestamp;
use pg_retest::proxy::capture::CaptureEvent;
use pg_retest::proxy::connection::{
    build_implicit_capture_state, identify_session, on_auth_message, on_client_message,
    on_server_message, on_startup_message, AuthStep, CorrelateState, ImplicitCaptureState,
    StartupStep, StmtCache, TimeoutConfig,
};
use pg_retest::proxy::control::{
    choose_output_path, recovered_path, start_refusal, stop_refusal, CaptureGuard, CaptureLimits,
    CaptureManager, CommandError, GuardAction, Phase, StopReason,
};
use pg_retest::proxy::calendar::civil_from_days;
use pg_retest::proxy::limits::{is_past_limit, is_too_large, TransactionWatch};
use pg_retest::proxy::health::{
    is_alive_reply, on_probe, ssl_request, HealthChange, HealthCheckConfig,
};
use pg_retest::proxy::listener::{Admission, IpConnections};
use pg_retest::proxy::metrics::ProxyMetrics;
use pg_retest::proxy::pool::{drain_step, Checkout, DrainStep, SessionPool};
use pg_retest::proxy::protocol::{build_query_message, extract_query_sql, PgMessage};

const NOW: Timestamp = Timestamp { secs: 1_700_000_000, nanos: 0 };

// ── Metrics ─────────────────────────────────────────────────────────

#[test]
fn test_counters_start_zero() {
    let m = ProxyMetrics::new();
    assert_eq!(m.connections_total, 0);
    assert_eq!(m.connections_active, 0);
    assert_eq!(m.queries_total, 0);
    assert_eq!(m.bytes_in_total, 0);
    assert_eq!(m.bytes_out_total, 0);
    assert_eq!(m.errors_total, 0);
    assert!(!m.backend_degraded);
}

#[test]
fn test_record_accept_then_close() {
    let mut m = ProxyMetrics::new();
    m.record_accept();
    m.record_accept();
    m.record_accept();
    assert_eq!(m.connections_total, 3);
    assert_eq!(m.connections_active, 3);
    m.record_close();
    assert_eq!(m.connections_total, 3); // total never decreases
    assert_eq!(m.connections_active, 2);
}

#[test]
fn test_healthcheck_flip_and_reset() {
    let mut m = ProxyMetrics::new();
    assert_eq!(m.record_healthcheck_fail(), 1);
    assert_eq!(m.record_healthcheck_fail(), 2);
    assert_eq!(m.record_healthcheck_fail(), 3);
    assert_eq!(m.backend_consecutive_failures, 3);
    m.mark_degraded();
    assert!(m.backend_degraded);

    // A successful check clears the failure streak and the degraded flag
    m.record_healthcheck_ok();
    assert_eq!(m.backend_consecutive_failures, 0);
    assert!(!m.backend_degraded);
    assert_eq!(m.backend_healthchecks_ok_total, 1);
    assert_eq!(m.backend_healthchecks_fail_total, 3);
}

#[test]
fn test_render_prometheus_format() {
    let mut m = ProxyMetrics::new();
    m.record_accept();
    m.record_accept();
    m.record_query();
    m.record_bytes_in(512);
    m.record_bytes_out(1024);
    m.record_reject_per_ip();

    let text = m.render(2, 5, 7);

    // Prometheus text format requires # HELP and # TYPE preambles
    assert!(text.contains("# HELP pg_retest_proxy_connections_total"));
    assert!(text.contains("# TYPE pg_retest_proxy_connections_total counter"));
    assert!(text.contains("pg_retest_proxy_connections_total 2"));
    assert!(text.contains("pg_retest_proxy_connections_active 2"));
    assert!(text.contains("pg_retest_proxy_queries_total 1"));
    assert!(text.contains("pg_retest_proxy_bytes_in_total 512"));
    assert!(text.contains("pg_retest_proxy_bytes_out_total 1024"));
    assert!(text.contains("pg_retest_proxy_connections_rejected_total{reason=\"per_ip\"} 1"));
    assert!(text.contains("pg_retest_proxy_connections_rejected_total{reason=\"msg_size\"} 0"));
    assert!(text.contains("pg_retest_proxy_pool_active 2"));
    assert!(text.contains("pg_retest_proxy_pool_idle 5"));
    assert!(text.contains("pg_retest_proxy_backend_degraded 0"));
    assert!(text.contains("pg_retest_proxy_uptime_seconds"));
    assert!(text.contains("pg_retest_proxy_uptime_seconds 7\n"));
}

#[test]
fn test_render_reflects_degraded_flag() {
    let mut m = ProxyMetrics::new();
    m.mark_degraded();
    let text = m.render(0, 0, 0);
    assert!(text.contains("pg_retest_proxy_backend_degraded 1"));
}

#[test]
fn test_record_error() {
    let mut m = ProxyMetrics::new();
    m.record_error();
    m.record_error();
    assert_eq!(m.errors_total, 2);
}

#[test]
fn rejections_are_counted_by_reason() {
    let mut m = ProxyMetrics::new();
    m.record_reject_msg_size();
    m.record_reject_other();
    m.record_reject_other();
    let text = m.render(0, 0, 0);
    assert!(text.contains("pg_retest_proxy_connections_rejected_total{reason=\"msg_size\"} 1"));
    assert!(text.contains("pg_retest_proxy_connections_rejected_total{reason=\"other\"} 2"));
}

// ── Health ──────────────────────────────────────────────────────────

#[test]
fn test_default_config() {
    let c = HealthCheckConfig::default();
    assert_eq!(c.interval_secs, 30);
    assert_eq!(c.timeout_secs, 5);
    assert_eq!(c.fail_threshold, 3);
    assert!(c.enabled());
}

#[test]
fn probes_flip_the_flag_once() {
    let c = HealthCheckConfig { interval_secs: 0, timeout_secs: 1, fail_threshold: 2 };
    assert!(!c.enabled());
    let mut m = ProxyMetrics::new();
    assert_eq!(on_probe(&mut m, &c, false), HealthChange::Failing(1));
    assert_eq!(on_probe(&mut m, &c, false), HealthChange::Degraded(2));
    assert!(m.backend_degraded);
    assert_eq!(on_probe(&mut m, &c, true), HealthChange::Recovered);
    assert!(!m.backend_degraded);
    assert_eq!(on_probe(&mut m, &c, true), HealthChange::Healthy);
    assert_eq!(ssl_request(), vec![0, 0, 0, 8, 4, 210, 22, 47]);
    assert!(is_alive_reply(b'S') && is_alive_reply(b'N') && !is_alive_reply(b'E'));
}

// ── Timeouts ────────────────────────────────────────────────────────

#[test]
fn test_timeout_config_from_secs_zero_means_no_timeout() {
    let tc = TimeoutConfig::from_secs(0, 0, 0);
    assert!(tc.client_timeout.is_none());
    assert!(tc.server_timeout.is_none());
    assert!(tc.auth_timeout.is_none());
}

#[test]
fn test_timeout_config_from_secs_nonzero() {
    let tc = TimeoutConfig::from_secs(300, 600, 30);
    assert_eq!(tc.client_timeout, Some(300));
    assert_eq!(tc.server_timeout, Some(600));
    assert_eq!(tc.auth_timeout, Some(30));
}

#[test]
fn test_timeout_config_mixed() {
    // Only auth timeout enabled
    let tc = TimeoutConfig::from_secs(0, 0, 15);
    assert!(tc.client_timeout.is_none());
    assert!(tc.server_timeout.is_none());
    assert_eq!(tc.auth_timeout, Some(15));
    let tc = TimeoutConfig::from_secs_full(1, 2, 3, 4).with_max_message_size(9);
    assert_eq!(tc.idle_transaction_timeout, Some(4));
    assert_eq!(tc.max_message_size, 9);
}

// ── Connections ─────────────────────────────────────────────────────

#[test]
fn test_implicit_capture_state_stealth_default() {
    // Stealth should be true by default (no_stealth = false)
    let state = ImplicitCaptureState {
        pk_map: vec![],
        stealth: true,
    };
    assert!(state.stealth);

    // When --no-stealth is passed
    let state = ImplicitCaptureState {
        pk_map: vec![],
        stealth: false,
    };
    assert!(!state.stealth);

    assert!(build_implicit_capture_state(false, &None, false).is_none());
    assert!(build_implicit_capture_state(true, &None, false).unwrap().stealth);
    assert!(!build_implicit_capture_state(true, &None, true).unwrap().stealth);
}

fn message(msg_type: u8, body: &[u8]) -> PgMessage {
    let mut payload = ((body.len() + 4) as i32).to_be_bytes().to_vec();
    payload.extend_from_slice(body);
    PgMessage { msg_type, payload }
}

fn row_description() -> PgMessage {
    let mut body = vec![0, 1];
    body.extend_from_slice(b"id\0");
    body.extend_from_slice(&[0; 18]);
    message(b'T', &body)
}

fn data_row() -> PgMessage {
    message(b'D', &[0, 1, 0, 0, 0, 2, b'4', b'2'])
}

fn implicit() -> Option<ImplicitCaptureState> {
    Some(ImplicitCaptureState {
        pk_map: vec![TablePk {
            schema: "public".into(),
            table: "orders".into(),
            columns: vec!["id".into()],
        }],
        stealth: true,
    })
}

#[test]
fn stealth_capture_of_a_simple_query() {
    let mut stmts = StmtCache::new();
    let mut correlate = Some(CorrelateState::new());
    let query = build_query_message("INSERT INTO orders (name) VALUES ('x')");
    let action = on_client_message(query, &mut stmts, &mut correlate, &implicit(), false, 7, 100);
    assert_eq!(
        extract_query_sql(&action.send),
        Some("INSERT INTO orders (name) VALUES ('x') RETURNING id".to_string())
    );
    assert!(!action.close);
    assert!(matches!(action.event, Some(CaptureEvent::QueryStart { session_id: 7, .. })));
    // what the injected clause returns is captured and held back
    let r = on_server_message(&row_description(), &mut correlate, false, 7, 110);
    assert!(!r.forward);
    let r = on_server_message(&data_row(), &mut correlate, false, 7, 120);
    assert!(!r.forward);
    let done = message(b'C', b"INSERT 0 1\0");
    let r = on_server_message(&done, &mut correlate, false, 7, 130);
    assert!(r.forward);
    assert!(matches!(r.event, Some(CaptureEvent::QueryComplete { session_id: 7, timestamp: 130 })));
    match r.returning {
        Some(CaptureEvent::QueryReturning { columns, rows, .. }) => {
            assert_eq!(columns, vec!["id".to_string()]);
            assert_eq!(rows, vec![vec![Some("42".to_string())]]);
        }
        _ => panic!("the rows are reported"),
    }
    let ready = message(b'Z', b"I");
    let r = on_server_message(&ready, &mut correlate, false, 7, 140);
    assert!(r.forward && r.flush);
    // rows of an ordinary query pass
    let r = on_server_message(&data_row(), &mut correlate, false, 7, 150);
    assert!(r.forward);
}

#[test]
fn errors_end_the_holding_back() {
    let mut stmts = StmtCache::new();
    let mut correlate = Some(CorrelateState::new());
    let query = build_query_message("INSERT INTO orders (name) VALUES ('x')");
    on_client_message(query, &mut stmts, &mut correlate, &implicit(), false, 1, 0);
    assert!(correlate.as_ref().unwrap().suppress_response);
    let error = message(b'E', b"SERROR\0Mbad\0\0");
    let r = on_server_message(&error, &mut correlate, false, 1, 5);
    assert!(r.forward);
    assert!(!correlate.as_ref().unwrap().suppress_response);
    match r.event {
        Some(CaptureEvent::QueryError { message, .. }) => assert_eq!(message, "bad"),
        _ => panic!("the error is reported"),
    }
}

#[test]
fn without_capture_everything_passes() {
    let mut stmts = StmtCache::new();
    let mut correlate = None;
    let sql = "INSERT INTO orders (name) VALUES ('x')";
    let action =
        on_client_message(build_query_message(sql), &mut stmts, &mut correlate, &None, true, 1, 0);
    assert_eq!(extract_query_sql(&action.send), Some(sql.to_string()));
    assert!(action.event.is_none());
    let r = on_server_message(&data_row(), &mut correlate, true, 1, 0);
    assert!(r.forward && r.event.is_none());
    let end = on_client_message(message(b'X', b""), &mut stmts, &mut correlate, &None, true, 1, 0);
    assert!(end.close);
}

#[test]
fn prepared_statements_are_reported_with_their_values() {
    let mut stmts = StmtCache::new();
    let mut correlate = None;
    let parse = message(b'P', b"s\0SELECT $1\0\0\0");
    on_client_message(parse, &mut stmts, &mut correlate, &None, false, 1, 0);
    assert_eq!(stmts.get("s"), Some("SELECT $1".to_string()));
    let bind = message(b'B', b"\0s\0\0\0\0\x01\0\0\0\x017");
    let action = on_client_message(bind, &mut stmts, &mut correlate, &None, false, 1, 9);
    match action.event {
        Some(CaptureEvent::QueryStart { sql, timestamp, .. }) => {
            assert_eq!(sql, "SELECT '7'");
            assert_eq!(timestamp, 9);
        }
        _ => panic!("the statement is reported"),
    }
}

#[test]
fn startup_and_authentication() {
    let ssl = PgMessage { msg_type: 0, payload: ssl_request() };
    assert_eq!(on_startup_message(&ssl), StartupStep::RejectSsl);
    let mut payload = vec![0, 0, 0, 23, 0, 3, 0, 0];
    payload.extend_from_slice(b"user\0app\0\0");
    let start = PgMessage { msg_type: 0, payload };
    assert_eq!(on_startup_message(&start), StartupStep::Proceed);
    let (user, database) = identify_session(&start);
    assert_eq!(user, "app");
    assert_eq!(database, "app");
    assert_eq!(on_auth_message(&message(b'Z', b"I")), AuthStep::Ready);
    assert_eq!(on_auth_message(&message(b'R', &[0, 0, 0, 0])), AuthStep::ReadServer);
    assert_eq!(on_auth_message(&message(b'R', &[0, 0, 0, 5, 1, 2, 3, 4])), AuthStep::ReadClient);
    assert_eq!(on_auth_message(&message(b'S', b"")), AuthStep::ReadServer);
}

// ── Pool ────────────────────────────────────────────────────────────

#[test]
fn the_pool_reuses_and_limits() {
    let mut pool = SessionPool::new(2);
    assert_eq!(pool.capacity(), 2);
    assert_eq!(pool.checkout(), Checkout::Open(1));
    assert_eq!(pool.checkout(), Checkout::Open(2));
    assert_eq!(pool.checkout(), Checkout::Wait);
    pool.checkin(1);
    assert_eq!(pool.stats(), (1, 1));
    assert_eq!(pool.checkout(), Checkout::Reuse(1));
    pool.discard();
    assert_eq!(pool.stats(), (1, 0));
    assert_eq!(pool.checkout(), Checkout::Open(3));
    assert_eq!(drain_step(0, false), DrainStep::Drained);
    assert_eq!(drain_step(2, true), DrainStep::GiveUp(2));
    assert_eq!(drain_step(2, false), DrainStep::Wait(2));
}

// ── Addresses ───────────────────────────────────────────────────────

#[test]
fn test_ip_connection_guard_increments_and_decrements() {
    let mut map = IpConnections::new();
    let ip = "127.0.0.1";
    assert_eq!(map.accept(ip, 10), Admission::Accepted);
    assert_eq!(map.count(ip), 1);
    map.release(ip);
    // After release, count should be 0 and entry removed
    assert!(!map.tracks(ip));
}

#[test]
fn test_ip_connection_guard_multiple_connections() {
    let mut map = IpConnections::new();
    let ip = "10.0.0.1";
    // Simulate 3 connections
    for _ in 0..3 {
        assert_eq!(map.accept(ip, 3), Admission::Accepted);
    }
    assert_eq!(map.count(ip), 3);
    assert_eq!(map.accept(ip, 3), Admission::Rejected(4));
    assert_eq!(map.count(ip), 3);
    map.release(ip);
    assert_eq!(map.count(ip), 2);
    map.release(ip);
    assert_eq!(map.count(ip), 1);
    // Last — entry should be removed
    map.release(ip);
    assert!(!map.tracks(ip));
    map.release(ip);
    assert_eq!(map.count(ip), 0);
}

#[test]
fn test_ip_connection_guard_different_ips() {
    let mut map = IpConnections::new();
    let (ip1, ip2) = ("192.168.1.1", "192.168.1.2");
    for ip in [ip1, ip2] {
        map.accept(ip, 5);
    }
    map.release(ip1);
    // ip1 should be gone, ip2 should remain
    assert!(!map.tracks(ip1));
    assert_eq!(map.count(ip2), 1);
    // without a limit nothing is counted
    assert_eq!(map.accept(ip1, 0), Admission::Accepted);
    assert!(!map.tracks(ip1));
}

// ── Control ─────────────────────────────────────────────────────────

#[test]
fn captures_start_and_stop() {
    let mut m = CaptureManager::new(Some("conf.wkl".into()), "db:5432".into(), false);
    assert!(!m.is_capturing());
    assert_eq!(m.stop(None).unwrap_err(), CommandError::NotCapturing);
    m.start("a").unwrap();
    assert!(m.is_capturing());
    assert_eq!(m.start("b").unwrap_err(), CommandError::AlreadyCapturing);
    assert_eq!(m.stop(Some("x.wkl".into())).unwrap(), "a");
    let (profile, path) = m.on_rows(vec![], "T", NOW).unwrap();
    assert_eq!(path, "x.wkl");
    assert_eq!(profile.source_host, "db:5432");
    let finish = m.on_written();
    assert_eq!(finish.clear.as_deref(), Some("a"));
    assert!(finish.mark_idle);
    let summary = finish.reply.unwrap().unwrap();
    assert_eq!((summary.capture_id.as_str(), summary.output.as_str()), ("a", "x.wkl"));
    assert_eq!((summary.total_sessions, summary.total_queries), (0, 0));
    assert_eq!(start_refusal(true, true), Some(CommandError::AlreadyCapturing));
    assert_eq!(start_refusal(false, false), Some(CommandError::NotConfigured));
    assert_eq!(start_refusal(false, true), None);
    assert_eq!(stop_refusal(false, true), Some(CommandError::NotCapturing));
    assert_eq!(stop_refusal(true, true), None);
    assert_eq!(CommandError::NotConfigured.message(), "Proxy not configured for capture");
    assert_eq!(CommandError::NotResponding.message(), "Proxy not responding");
    assert_eq!(choose_output_path(&None, &None, "T"), "capture-T.wkl");
    assert_eq!(choose_output_path(&None, &Some("c".into()), "T"), "c");
    assert_eq!(choose_output_path(&Some("r".into()), &Some("c".into()), "T"), "r");
    assert_eq!(recovered_path("x"), "recovered-x.wkl");
}

#[test]
fn captures_that_cannot_be_saved() {
    let mut m = CaptureManager::new(None, "h".into(), false);
    m.start("a").unwrap();
    m.stop(None).unwrap();
    let finish = m.on_read_failed("disk");
    assert!(finish.clear.is_none() && !finish.mark_idle);
    assert_eq!(finish.reply.unwrap().unwrap_err(), "Failed to read staging data: disk");
    m.start("b").unwrap();
    m.stop(None).unwrap();
    let (_, path) = m.on_rows(vec![], "T", NOW).unwrap();
    assert_eq!(path, "capture-T.wkl");
    let finish = m.on_write_failed("full");
    assert_eq!(finish.clear.as_deref(), Some("b"));
    assert_eq!(finish.reply.unwrap().unwrap_err(), "Failed to write profile: full");
    // a running capture is saved at shutdown, and nobody waits for an answer
    m.start("c").unwrap();
    assert_eq!(m.shutdown().as_deref(), Some("c"));
    m.on_rows(vec![], "T", NOW).unwrap();
    let finish = m.on_written();
    assert_eq!(finish.clear.as_deref(), Some("c"));
    assert!(finish.reply.is_none());
    assert!(matches!(m.phase, Phase::Stopped));
    let mut idle = CaptureManager::new(None, "h".into(), false);
    assert!(idle.shutdown().is_none());
}

#[test]
fn limits_stop_a_capture_once() {
    let limits = CaptureLimits { max_queries: 2, max_bytes: 0, max_duration_ns: None };
    let mut guard = CaptureGuard::new(limits);
    let done = CaptureEvent::QueryComplete { session_id: 1, timestamp: 0 };
    assert_eq!(guard.on_event(&done, true, 0), GuardAction::Continue);
    assert_eq!(guard.on_event(&done, true, 1), GuardAction::Stop(StopReason::MaxQueries(2)));
    assert_eq!(guard.on_event(&done, true, 2), GuardAction::Continue);
}

#[test]
fn durations_are_told_in_their_largest_unit() {
    let text = |ns: u64| StopReason::MaxDuration(ns).describe();
    for ns in [0, 1, 999, 1_000, 1_500, 999_999, 2_000_000, 2_050_000, 60_000_000_000, 1_500_000_000, 1_000_000_001] {
        let expected = format!("max_duration_reached ({:?})", std::time::Duration::from_nanos(ns));
        assert_eq!(text(ns), expected);
    }
    assert_eq!(text(60_000_000_000), "max_duration_reached (60s)");
    assert_eq!(text(2_050_000), "max_duration_reached (2.05ms)");
    assert_eq!(StopReason::MaxQueries(5).describe(), "max_queries_reached (5)");
    assert_eq!(StopReason::MaxSize(9).describe(), "max_size_reached (9 bytes)");
}

#[test]
fn the_pool_may_hold_more_than_its_size() {
    let mut pool = SessionPool::new(1);
    pool.checkin(7);
    pool.checkin(8);
    assert_eq!(pool.stats(), (0, 2));
    assert_eq!(pool.checkout(), Checkout::Reuse(7));
    assert_eq!(pool.checkout(), Checkout::Reuse(8));
    assert_eq!(pool.checkout(), Checkout::Wait);
}

#[test]
fn old_and_idle_connections_leave_the_pool() {
    let mut pool = SessionPool::new(3);
    pool.checkout();
    pool.checkout();
    assert!(!pool.checkin_aged(1, 3601, 3600));
    assert_eq!(pool.stats(), (1, 0));
    assert!(pool.checkin_aged(2, 3600, 3600));
    assert_eq!(pool.stats(), (0, 1));
    assert!(!pool.reap(2, 600, 600));
    assert!(!pool.reap(2, 601, 0));
    assert_eq!(pool.stats(), (0, 1));
    assert!(pool.reap(2, 601, 600));
    assert_eq!(pool.stats(), (0, 0));
    assert_eq!(pool.next_number(), 3);
    assert_eq!(pool.checkout(), Checkout::Open(3));
    assert!(!is_past_limit(u64::MAX, 0));
}

#[test]
fn large_messages_are_refused() {
    assert!(!is_too_large(usize::MAX, 0));
    assert!(!is_too_large(60, 64));
    assert!(is_too_large(61, 64));
    assert!(is_too_large(0, 3));
}

#[test]
fn a_silent_transaction_is_reported_once() {
    let second = 1_000_000_000;
    let mut watch = TransactionWatch::new();
    assert_eq!(watch.check(100 * second, Some(1)), None);
    watch.on_ready(b'T', 10 * second);
    assert_eq!(watch.check(15 * second, Some(5)), None);
    assert_eq!(watch.check(16 * second, None), None);
    assert_eq!(watch.check(16 * second, Some(5)), Some(6));
    assert_eq!(watch.check(17 * second, Some(5)), None);
    watch.on_ready(b'E', 20 * second);
    watch.on_client_message();
    assert_eq!(watch.check(90 * second, Some(5)), None);
    watch.on_ready(b'I', 20 * second);
    assert_eq!(watch.check(90 * second, Some(5)), None);
    watch.on_ready(b'E', 20 * second);
    assert_eq!(watch.check(26 * second, Some(5)), Some(6));
}

#[test]
fn days_are_counted_from_march_of_year_zero() {
    assert_eq!(civil_from_days(0), (0, 3, 1));
    assert_eq!(civil_from_days(-1), (0, 2, 29));
    assert_eq!(civil_from_days(719_468), (1970, 1, 1));
    assert_eq!(civil_from_days(730_425), (2000, 1, 1));
    assert_eq!(civil_from_days(730_484), (2000, 2, 29));
    assert_eq!(civil_from_days(-719_468), (-1970, 4, 30));
    civil_from_days(i64::MAX);
    civil_from_days(i64::MIN);
}

#[test]
fn statements_are_found_by_name() {
    let mut stmts = StmtCache::new();
    assert_eq!(stmts.get("a"), None);
    stmts.insert("a".into(), "SELECT 1".into());
    stmts.insert("".into(), "SELECT 2".into());
    stmts.insert("a".into(), "SELECT 3".into());
    assert_eq!(stmts.get("a").as_deref(), Some("SELECT 3"));
    assert_eq!(stmts.get("").as_deref(), Some("SELECT 2"));
    assert_eq!(stmts.get("b"), None);
}
