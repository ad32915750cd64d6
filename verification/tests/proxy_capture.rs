use pg_retest::capture::error::CaptureError;
use pg_retest::correlate::sequence::SequenceState;
use pg_retest::profile::{QueryKind, Timestamp};
use pg_retest::proxy::capture::{
    build_profile, finish_capture, CaptureEvent, CapturedQuery, Collector,
};
use pg_retest::proxy::control::CaptureManager;
use pg_retest::proxy::staging::{build_profile_from_staging, recover_profile, StagingCollector, StagingRow};

const NOW: Timestamp = Timestamp { secs: 1_700_000_000, nanos: 0 };

fn start(session_id: u64, timestamp: u64) -> CaptureEvent {
    CaptureEvent::SessionStart {
        session_id,
        user: "app".into(),
        database: "mydb".into(),
        timestamp,
    }
}

fn query(session_id: u64, sql: &str, timestamp: u64) -> CaptureEvent {
    CaptureEvent::QueryStart { session_id, sql: sql.into(), timestamp }
}

#[test]
fn test_collector_basic_session() {
    let mut collector = Collector::new();
    collector.on_event(start(1, 0));
    collector.on_event(query(1, "SELECT 1", 100_000));
    collector.on_event(CaptureEvent::QueryComplete { session_id: 1, timestamp: 600_000 });
    collector.on_event(CaptureEvent::SessionEnd { session_id: 1 });

    let captured = collector.finish();
    assert_eq!(captured.len(), 1);

    let (id, user, _db, queries) = &captured[0];
    assert_eq!(*id, 1);
    assert_eq!(user, "app");
    assert_eq!(queries.len(), 1);
    assert_eq!(queries[0].sql, "SELECT 1");
    assert!(queries[0].duration_us >= 400);
    assert_eq!((queries[0].start_offset_us, queries[0].duration_us), (100, 500));
}

#[test]
fn test_staging_collector_basic() {
    let mut collector = StagingCollector::new("test-cap".to_string());
    assert!(collector.on_event(start(1, 0)).is_none());
    assert!(collector.on_event(query(1, "SELECT 1", 100_000)).is_none());
    let done = CaptureEvent::QueryComplete { session_id: 1, timestamp: 600_000 };
    assert!(collector.on_event(done).is_none());
    assert!(collector.on_event(CaptureEvent::SessionEnd { session_id: 1 }).is_none());

    let rows = collector.on_close().unwrap();
    assert_eq!(rows.len(), 1);
    assert_eq!(rows[0].capture_id, "test-cap");
    assert_eq!(rows[0].sql, "SELECT 1");
    assert_eq!(rows[0].user_name.as_deref(), Some("app"));
    assert_eq!(rows[0].database_name.as_deref(), Some("mydb"));
    assert!(!rows[0].is_error);
    assert!(rows[0].error_message.is_none());
    assert_eq!(rows[0].kind.as_deref(), Some("Select"));
}

#[test]
fn test_staging_collector_error_query() {
    let mut collector = StagingCollector::new("err-cap".to_string());
    collector.on_event(start(1, 0));
    collector.on_event(query(1, "INSERT INTO bad VALUES (1)", 100_000));
    collector.on_event(CaptureEvent::QueryError {
        session_id: 1,
        message: "relation does not exist".into(),
        timestamp: 300_000,
    });

    let rows = collector.on_timeout().unwrap();
    assert_eq!(rows.len(), 1);
    assert!(rows[0].is_error);
    assert_eq!(
        rows[0].error_message.as_deref(),
        Some("relation does not exist")
    );
    assert_eq!((rows[0].start_offset_us, rows[0].duration_us), (100, 200));
    // what was handed out is gone
    assert!(collector.on_timeout().is_none());
    assert!(collector.on_close().is_none());
}

#[test]
fn test_build_profile_with_transactions() {
    let captured = vec![(
        1u64,
        "app".to_string(),
        "db".to_string(),
        vec![
            CapturedQuery {
                sql: "BEGIN".into(),
                start_offset_us: 0,
                duration_us: 10,
                is_error: false,
                error_message: None,
                response_values: None,
            },
            CapturedQuery {
                sql: "INSERT INTO t VALUES (1)".into(),
                start_offset_us: 100,
                duration_us: 500,
                is_error: false,
                error_message: None,
                response_values: None,
            },
            CapturedQuery {
                sql: "COMMIT".into(),
                start_offset_us: 700,
                duration_us: 20,
                is_error: false,
                error_message: None,
                response_values: None,
            },
        ],
    )];

    let profile = build_profile(captured, "test-host", false, NOW);
    assert_eq!(profile.capture_method, "proxy");
    assert_eq!(profile.sessions.len(), 1);
    assert_eq!(profile.sessions[0].queries.len(), 3);
    assert_eq!(profile.sessions[0].queries[0].kind, QueryKind::Begin);
    assert_eq!(profile.sessions[0].queries[0].transaction_id, Some(1));
    assert_eq!(profile.sessions[0].queries[1].transaction_id, Some(1));
    assert_eq!(profile.sessions[0].queries[2].transaction_id, Some(1));
}

#[test]
fn test_build_profile_with_masking() {
    let captured = vec![(
        1u64,
        "app".to_string(),
        "db".to_string(),
        vec![CapturedQuery {
            sql: "SELECT * FROM users WHERE email = 'alice@corp.com'".into(),
            start_offset_us: 0,
            duration_us: 100,
            is_error: false,
            error_message: None,
            response_values: None,
        }],
    )];

    let profile = build_profile(captured, "test", true, NOW);
    assert!(profile.sessions[0].queries[0].sql.contains("$S"));
    assert!(!profile.sessions[0].queries[0].sql.contains("alice"));
}

#[test]
fn test_build_profile_from_staging_basic() {
    let rows = vec![
        StagingRow {
            capture_id: "cap-1".to_string(),
            session_id: 1,
            user_name: Some("app".to_string()),
            database_name: Some("db".to_string()),
            sql: "SELECT 1".to_string(),
            kind: Some("Select".to_string()),
            start_offset_us: 0,
            duration_us: 100,
            is_error: false,
            error_message: None,
            timestamp_us: 0,
            response_values: None,
        },
        StagingRow {
            capture_id: "cap-1".to_string(),
            session_id: 1,
            user_name: Some("app".to_string()),
            database_name: Some("db".to_string()),
            sql: "SELECT 2".to_string(),
            kind: Some("Select".to_string()),
            start_offset_us: 200,
            duration_us: 50,
            is_error: false,
            error_message: None,
            timestamp_us: 200,
            response_values: None,
        },
    ];

    let profile = build_profile_from_staging(rows, "test-host", false, NOW);
    assert_eq!(profile.version, 2);
    assert_eq!(profile.capture_method, "proxy");
    assert_eq!(profile.metadata.total_sessions, 1);
    assert_eq!(profile.metadata.total_queries, 2);
    assert_eq!(profile.sessions[0].user, "app");
    assert_eq!(profile.sessions[0].queries[0].sql, "SELECT 1");
    assert_eq!(profile.sessions[0].queries[1].sql, "SELECT 2");
}

#[test]
fn test_build_profile_from_staging_with_transactions() {
    let rows = vec![
        StagingRow {
            capture_id: "cap-1".to_string(),
            session_id: 1,
            user_name: Some("app".to_string()),
            database_name: Some("db".to_string()),
            sql: "BEGIN".to_string(),
            kind: Some("Begin".to_string()),
            start_offset_us: 0,
            duration_us: 10,
            is_error: false,
            error_message: None,
            timestamp_us: 0,
            response_values: None,
        },
        StagingRow {
            capture_id: "cap-1".to_string(),
            session_id: 1,
            user_name: Some("app".to_string()),
            database_name: Some("db".to_string()),
            sql: "INSERT INTO t VALUES (1)".to_string(),
            kind: Some("Insert".to_string()),
            start_offset_us: 100,
            duration_us: 500,
            is_error: false,
            error_message: None,
            timestamp_us: 100,
            response_values: None,
        },
        StagingRow {
            capture_id: "cap-1".to_string(),
            session_id: 1,
            user_name: Some("app".to_string()),
            database_name: Some("db".to_string()),
            sql: "COMMIT".to_string(),
            kind: Some("Commit".to_string()),
            start_offset_us: 700,
            duration_us: 20,
            is_error: false,
            error_message: None,
            timestamp_us: 700,
            response_values: None,
        },
    ];

    let profile = build_profile_from_staging(rows, "test-host", false, NOW);
    assert_eq!(profile.sessions[0].queries[0].kind, QueryKind::Begin);
    assert_eq!(profile.sessions[0].queries[0].transaction_id, Some(1));
    assert_eq!(profile.sessions[0].queries[1].transaction_id, Some(1));
    assert_eq!(profile.sessions[0].queries[2].transaction_id, Some(1));
}

#[test]
fn test_build_profile_from_staging_with_masking() {
    let rows = vec![StagingRow {
        capture_id: "cap-1".to_string(),
        session_id: 1,
        user_name: Some("app".to_string()),
        database_name: Some("db".to_string()),
        sql: "SELECT * FROM users WHERE email = 'alice@corp.com'".to_string(),
        kind: Some("Select".to_string()),
        start_offset_us: 0,
        duration_us: 100,
        is_error: false,
        error_message: None,
        timestamp_us: 0,
        response_values: None,
    }];

    let profile = build_profile_from_staging(rows, "test", true, NOW);
    assert!(profile.sessions[0].queries[0].sql.contains("$S"));
    assert!(!profile.sessions[0].queries[0].sql.contains("alice"));
}

#[test]
fn returned_rows_belong_to_the_last_query() {
    let mut collector = Collector::new();
    collector.on_event(start(1, 0));
    collector.on_event(query(1, "INSERT INTO t VALUES (1) RETURNING id", 1_000));
    collector.on_event(CaptureEvent::QueryComplete { session_id: 1, timestamp: 2_000 });
    collector.on_event(CaptureEvent::QueryReturning {
        session_id: 1,
        columns: vec!["id".into()],
        rows: vec![vec![Some("42".into())]],
        timestamp: 2_000,
    });
    // events of unknown sessions are ignored
    collector.on_event(query(9, "SELECT 1", 0));
    let profile = build_profile(collector.finish(), "h", false, NOW);
    assert_eq!(profile.sessions.len(), 1);
    let rows = profile.sessions[0].queries[0].response_values.as_ref().unwrap();
    assert_eq!(rows[0].columns, vec![("id".to_string(), "42".to_string())]);
    assert_eq!(profile.metadata.capture_duration_us, 2);
}

#[test]
fn a_stopped_proxy_gives_its_workload() {
    assert!(finish_capture(vec![], "h", false, true, None, NOW).unwrap().is_none());
    let snapshot: Option<Vec<SequenceState>> = Some(vec![]);
    let profile = finish_capture(vec![], "h", false, false, snapshot, NOW).unwrap().unwrap();
    assert!(profile.metadata.sequence_snapshot.is_some());
    assert!(finish_capture(vec![], "h", false, false, None, NOW)
        .unwrap()
        .unwrap()
        .metadata
        .sequence_snapshot
        .is_none());
}

#[test]
fn times_that_do_not_fit_are_refused() {
    let row = |start_offset_us: i64| StagingRow {
        capture_id: "cap-1".to_string(),
        session_id: 1,
        user_name: None,
        database_name: None,
        sql: "SELECT 1".to_string(),
        kind: None,
        start_offset_us,
        duration_us: 1,
        is_error: false,
        error_message: None,
        timestamp_us: 0,
        response_values: None,
    };
    assert!(matches!(recover_profile(vec![row(-1)], "h", false, NOW), Err(CaptureError::TooLong)));
    // only the last query of a session counts
    let p = recover_profile(vec![row(-1), row(5)], "h", false, NOW).unwrap();
    assert_eq!(p.metadata.capture_duration_us, 6);
    let query = CapturedQuery {
        sql: "SELECT 1".to_string(),
        start_offset_us: u64::MAX,
        duration_us: 1,
        is_error: false,
        error_message: None,
        response_values: None,
    };
    let captured = vec![(1, "u".to_string(), "d".to_string(), vec![query])];
    assert!(matches!(
        finish_capture(captured.clone(), "h", false, false, None, NOW),
        Err(CaptureError::TooLong)
    ));
    assert!(finish_capture(captured, "h", false, true, None, NOW).unwrap().is_none());
    let mut m = CaptureManager::new(None, "h".into(), false);
    m.start("a").unwrap();
    m.stop(None).unwrap();
    assert!(matches!(m.on_rows(vec![row(-1)], "T", NOW), Err(CaptureError::TooLong)));
    assert!(m.on_read_failed("x").clear.is_none());
}

#[test]
fn sessions_keep_the_order_in_which_they_started() {
    let mut collector = Collector::new();
    for id in [5, 2, 9] {
        collector.on_event(start(id, 0));
    }
    collector.on_event(query(2, "SELECT 1", 1_000));
    collector.on_event(CaptureEvent::QueryComplete { session_id: 2, timestamp: 3_000 });
    collector.on_event(start(2, 9_000));
    collector.on_event(query(7, "SELECT 2", 1_000));
    let captured = collector.finish();
    let seen: Vec<(u64, usize)> = captured.iter().map(|s| (s.0, s.3.len())).collect();
    // a session that starts anew begins without queries
    assert_eq!(seen, vec![(5, 0), (2, 0), (9, 0)]);
}

#[test]
fn batches_lose_no_query() {
    let mut collector = StagingCollector::new("cap".to_string());
    let mut rows = vec![];
    rows.extend(collector.on_event(start(1, 0)).unwrap_or_default());
    for n in 0..250 {
        rows.extend(collector.on_event(query(1, &format!("SELECT {n}"), n)).unwrap_or_default());
        let done = CaptureEvent::QueryComplete { session_id: 1, timestamp: n + 1 };
        rows.extend(collector.on_event(done).unwrap_or_default());
    }
    assert_eq!(rows.len(), 200);
    rows.extend(collector.on_close().unwrap());
    let expected: Vec<String> = (0..250).map(|n| format!("SELECT {n}")).collect();
    let sqls: Vec<String> = rows.into_iter().map(|r| r.sql).collect();
    assert_eq!(sqls, expected);
}
