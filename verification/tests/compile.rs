use pg_retest::correlate::capture::ResponseRow;
use pg_retest::correlate::compile::compile_workload;
use pg_retest::profile::{
    Metadata, Query, QueryKind, Session, SourceDialect, Timestamp, WorkloadProfile,
};

fn make_profile(queries: Vec<Query>) -> WorkloadProfile {
    WorkloadProfile {
        version: 2,
        captured_at: Timestamp { secs: 0, nanos: 0 },
        source_host: "localhost".into(),
        pg_version: "16.2".into(),
        capture_method: "proxy".into(),
        source_dialect: SourceDialect::Postgres,
        sessions: vec![Session {
            id: 1,
            user: "app".into(),
            database: "db".into(),
            queries,
        }],
        metadata: Metadata {
            total_queries: 1,
            total_sessions: 1,
            capture_duration_us: 100,
            sequence_snapshot: Some(vec![]),
            pk_map: None,
        },
    }
}

#[test]
fn test_compile_strips_response_values() {
    let profile = make_profile(vec![
        Query {
            sql: "INSERT INTO t (x) VALUES (1) RETURNING id".into(),
            start_offset_us: 0,
            duration_us: 100,
            kind: QueryKind::Insert,
            transaction_id: None,
            response_values: Some(vec![ResponseRow {
                columns: vec![("id".into(), "42".into())],
            }]),
            original_sql: None,
        },
        Query {
            sql: "SELECT * FROM t WHERE id = 42".into(),
            start_offset_us: 100,
            duration_us: 50,
            kind: QueryKind::Select,
            transaction_id: None,
            response_values: None,
            original_sql: None,
        },
    ]);
    let (compiled, stats) = compile_workload(profile).unwrap();
    assert!(compiled.sessions[0].queries[0].response_values.is_none());
    assert!(compiled.sessions[0].queries[1].response_values.is_none());
    assert_eq!(stats.queries_with_responses, 1);
    assert_eq!(stats.unique_captured_ids, 1);
}

#[test]
fn test_compile_preserves_sequence_snapshot() {
    let profile = make_profile(vec![Query {
        sql: "INSERT INTO t (x) VALUES (1) RETURNING id".into(),
        start_offset_us: 0,
        duration_us: 100,
        kind: QueryKind::Insert,
        transaction_id: None,
        response_values: Some(vec![ResponseRow {
            columns: vec![("id".into(), "1".into())],
        }]),
        original_sql: None,
    }]);
    let (compiled, _) = compile_workload(profile).unwrap();
    assert!(compiled.metadata.sequence_snapshot.is_some());
}

#[test]
fn test_compile_updates_capture_method() {
    let profile = make_profile(vec![Query {
        sql: "INSERT INTO t (x) VALUES (1) RETURNING id".into(),
        start_offset_us: 0,
        duration_us: 100,
        kind: QueryKind::Insert,
        transaction_id: None,
        response_values: Some(vec![ResponseRow {
            columns: vec![("id".into(), "1".into())],
        }]),
        original_sql: None,
    }]);
    let (compiled, _) = compile_workload(profile).unwrap();
    assert_eq!(compiled.capture_method, "proxy+compiled");
}

#[test]
fn test_compile_no_response_values_error() {
    let profile = make_profile(vec![Query {
        sql: "SELECT 1".into(),
        start_offset_us: 0,
        duration_us: 100,
        kind: QueryKind::Select,
        transaction_id: None,
        response_values: None,
        original_sql: None,
    }]);
    assert!(compile_workload(profile).is_err());
}

#[test]
fn test_compile_finds_references() {
    let profile = make_profile(vec![
        Query {
            sql: "INSERT INTO orders (cid) VALUES (1) RETURNING id".into(),
            start_offset_us: 0,
            duration_us: 100,
            kind: QueryKind::Insert,
            transaction_id: None,
            response_values: Some(vec![ResponseRow {
                columns: vec![("id".into(), "42".into())],
            }]),
            original_sql: None,
        },
        Query {
            sql: "INSERT INTO items (order_id) VALUES (42)".into(),
            start_offset_us: 100,
            duration_us: 50,
            kind: QueryKind::Insert,
            transaction_id: None,
            response_values: None,
            original_sql: None,
        },
        Query {
            sql: "SELECT * FROM orders WHERE id = 42".into(),
            start_offset_us: 200,
            duration_us: 30,
            kind: QueryKind::Select,
            transaction_id: None,
            response_values: None,
            original_sql: None,
        },
    ]);
    let (_, stats) = compile_workload(profile).unwrap();
    assert_eq!(stats.queries_referencing_ids, 2); // items INSERT + SELECT
    assert_eq!(stats.total_id_references, 2);
}

#[test]
fn test_compile_idempotent_capture_method() {
    let mut profile = make_profile(vec![Query {
        sql: "INSERT INTO t (x) VALUES (1) RETURNING id".into(),
        start_offset_us: 0,
        duration_us: 100,
        kind: QueryKind::Insert,
        transaction_id: None,
        response_values: Some(vec![ResponseRow {
            columns: vec![("id".into(), "1".into())],
        }]),
        original_sql: None,
    }]);
    // Pre-set the capture method to already include +compiled
    profile.capture_method = "proxy+compiled".into();
    let (compiled, _) = compile_workload(profile).unwrap();
    // Should not double-append
    assert_eq!(compiled.capture_method, "proxy+compiled");
}

#[test]
fn test_compile_preserves_sql_unchanged() {
    let original_sql = "INSERT INTO t (x) VALUES (1) RETURNING id";
    let select_sql = "SELECT * FROM t WHERE id = 99";
    let profile = make_profile(vec![
        Query {
            sql: original_sql.into(),
            start_offset_us: 0,
            duration_us: 100,
            kind: QueryKind::Insert,
            transaction_id: None,
            response_values: Some(vec![ResponseRow {
                columns: vec![("id".into(), "99".into())],
            }]),
            original_sql: None,
        },
        Query {
            sql: select_sql.into(),
            start_offset_us: 100,
            duration_us: 50,
            kind: QueryKind::Select,
            transaction_id: None,
            response_values: None,
            original_sql: None,
        },
    ]);
    let (compiled, _) = compile_workload(profile).unwrap();
    assert_eq!(compiled.sessions[0].queries[0].sql, original_sql);
    assert_eq!(compiled.sessions[0].queries[1].sql, select_sql);
}

#[test]
fn compile_without_responses_says_why() {
    let e = compile_workload(make_profile(vec![])).unwrap_err();
    assert!(e.message().starts_with("No response_values found in workload."));
}

#[test]
fn captured_ids_are_counted_once() {
    let returned = |id: &str, start_offset_us: u64| Query {
        sql: "INSERT INTO t (x) VALUES (1) RETURNING id".into(),
        start_offset_us,
        duration_us: 1,
        kind: QueryKind::Insert,
        transaction_id: None,
        response_values: Some(vec![ResponseRow {
            columns: vec![("id".into(), id.into())],
        }]),
        original_sql: None,
    };
    let profile = make_profile(vec![returned("71", 0), returned("72", 1), returned("71", 2)]);
    let (_, stats) = compile_workload(profile).unwrap();
    assert_eq!(stats.unique_captured_ids, 2);
}

#[test]
fn a_compiled_workload_is_not_compiled_again() {
    let profile = make_profile(vec![Query {
        sql: "INSERT INTO t (x) VALUES (1) RETURNING id".into(),
        start_offset_us: 0,
        duration_us: 1,
        kind: QueryKind::Insert,
        transaction_id: None,
        response_values: Some(vec![]),
        original_sql: None,
    }]);
    let (compiled, stats) = compile_workload(profile).unwrap();
    assert_eq!((stats.queries_with_responses, stats.unique_captured_ids), (1, 0));
    assert!(compile_workload(compiled).is_err());
}
