use pg_retest::classify::{
    class_from_counts, classify_session, classify_workload, session_class, vote, ClassCounts,
    WorkloadClass,
};
use pg_retest::correlate::capture::ResponseRow;
use pg_retest::correlate::map::IdMap;
use pg_retest::correlate::sequence::SequenceState;
use pg_retest::pipeline::mask_sessions;
use pg_retest::profile::{
    assign_transaction_ids, Metadata, Query, QueryKind, Session, SourceDialect, Timestamp,
    WorkloadProfile,
};
use pg_retest::replay::scaling::{
    check_write_safety, prepare_replay, scale_sessions, scale_sessions_by_class, ClassScales,
};
use pg_retest::replay::session::{effective_sql, register_returned, Plan, ReplayState};
use pg_retest::replay::ReplayMode;

fn query(sql: &str, start_offset_us: u64, duration_us: u64) -> Query {
    Query {
        sql: sql.to_string(),
        start_offset_us,
        duration_us,
        kind: QueryKind::from_sql(sql),
        transaction_id: None,
        response_values: None,
        original_sql: None,
    }
}

fn session(id: u64, queries: Vec<Query>) -> Session {
    Session { id, user: "app".into(), database: "db".into(), queries }
}

fn profile(sessions: Vec<Session>) -> WorkloadProfile {
    WorkloadProfile {
        version: 2,
        captured_at: Timestamp { secs: 0, nanos: 0 },
        source_host: "h".into(),
        pg_version: "16".into(),
        capture_method: "proxy".into(),
        source_dialect: SourceDialect::Postgres,
        sessions,
        metadata: Metadata {
            total_queries: 0,
            total_sessions: 0,
            capture_duration_us: 0,
            sequence_snapshot: None,
            pk_map: None,
        },
    }
}

#[test]
fn kinds_come_from_the_first_word() {
    assert_eq!(QueryKind::from_sql("  select 1"), QueryKind::Select);
    assert_eq!(QueryKind::from_sql("INSERT INTO t"), QueryKind::Insert);
    assert_eq!(QueryKind::from_sql("update t"), QueryKind::Update);
    assert_eq!(QueryKind::from_sql("DELETE FROM t"), QueryKind::Delete);
    assert_eq!(QueryKind::from_sql("CREATE TABLE t"), QueryKind::Ddl);
    assert_eq!(QueryKind::from_sql("begin"), QueryKind::Begin);
    assert_eq!(QueryKind::from_sql("COMMIT;"), QueryKind::Commit);
    assert_eq!(QueryKind::from_sql("rollback"), QueryKind::Rollback);
    assert_eq!(QueryKind::from_sql("VACUUM"), QueryKind::Other);
    assert!(QueryKind::Select.is_read_only() && !QueryKind::Insert.is_read_only());
    assert!(QueryKind::Begin.is_transaction_control());
    assert!(!QueryKind::Ddl.is_transaction_control());
}

#[test]
fn blocks_share_a_transaction() {
    let mut qs = vec![
        query("SELECT 1", 0, 1),
        query("BEGIN", 1, 1),
        query("INSERT INTO t VALUES (1)", 2, 1),
        query("COMMIT", 3, 1),
        query("SELECT 2", 4, 1),
        query("BEGIN", 5, 1),
        query("ROLLBACK", 6, 1),
    ];
    let mut next: u64 = 7;
    assign_transaction_ids(&mut qs, &mut next);
    let ids: Vec<Option<u64>> = qs.iter().map(|q| q.transaction_id).collect();
    assert_eq!(ids, vec![None, Some(7), Some(7), Some(7), None, Some(8), Some(8)]);
    assert_eq!(next, 9);
}

// ── Classes ─────────────────────────────────────────────────────────

#[test]
fn classes_follow_shares_and_latency() {
    assert_eq!(class_from_counts(0, 10, 1, 2), WorkloadClass::Bulk);
    assert_eq!(class_from_counts(10, 0, 10_001, 0), WorkloadClass::Analytical);
    assert_eq!(class_from_counts(10, 0, 10_000, 0), WorkloadClass::Mixed);
    assert_eq!(class_from_counts(7, 3, 4_999, 3), WorkloadClass::Transactional);
    assert_eq!(class_from_counts(8, 2, 4_999, 3), WorkloadClass::Mixed);
    assert_eq!(class_from_counts(0, 0, 0, 0), WorkloadClass::Mixed);
    assert_eq!(WorkloadClass::Bulk.name(), "Bulk");
}

#[test]
fn sessions_and_workloads_are_classified() {
    let bulk = session(1, vec![query("INSERT INTO t VALUES (1)", 0, 7), query("VACUUM", 0, 8)]);
    let c = classify_session(&bulk);
    assert_eq!((c.reads, c.writes, c.query_count, c.avg_latency_us), (0, 1, 2, 7));
    assert_eq!(c.class, WorkloadClass::Bulk);
    assert_eq!(session_class(&session(2, vec![])), WorkloadClass::Mixed);
    let slow = session(3, vec![query("SELECT 1", 0, 20_000)]);
    let w = classify_workload(&profile(vec![bulk, slow]));
    assert_eq!(w.class_counts, ClassCounts { analytical: 1, transactional: 0, mixed: 0, bulk: 1 });
    // of several, the last class wins
    assert_eq!(w.overall_class, WorkloadClass::Bulk);
    let none = ClassCounts { analytical: 0, transactional: 0, mixed: 0, bulk: 0 };
    assert_eq!(vote(&none), WorkloadClass::Bulk);
    let some = ClassCounts { analytical: 3, transactional: 2, mixed: 1, bulk: 0 };
    assert_eq!(vote(&some), WorkloadClass::Analytical);
}

// ── Scaling ─────────────────────────────────────────────────────────

#[test]
fn scaling_copies_and_staggers() {
    let p = profile(vec![
        session(1, vec![query("SELECT 1", 5, 1)]),
        session(2, vec![query("SELECT 2", 6, 1)]),
    ]);
    let once = scale_sessions(&p, 0, 100);
    assert_eq!(once.len(), 2);
    let scaled = scale_sessions(&p, 3, 100);
    let ids: Vec<u64> = scaled.iter().map(|s| s.id).collect();
    assert_eq!(ids, vec![1, 2, 3, 4, 5, 6]);
    assert_eq!(scaled[5].queries[0].start_offset_us, 200_006);
    assert_eq!(scaled[5].queries[0].sql, "SELECT 2");
}

#[test]
fn scaling_by_class_leaves_classes_out() {
    let p = profile(vec![
        session(1, vec![query("SELECT 1", 0, 20_000)]),
        session(2, vec![query("INSERT INTO t VALUES (1)", 0, 1)]),
    ]);
    let scales = ClassScales { analytical: 2, transactional: 1, mixed: 1, bulk: 0 };
    let scaled = scale_sessions_by_class(&p, &scales, 10);
    assert_eq!(scaled.len(), 2);
    assert!(scaled.iter().all(|s| s.queries[0].sql == "SELECT 1"));
    assert_eq!(scaled[1].queries[0].start_offset_us, 10_000);
}

#[test]
fn scaled_writes_are_warned_of() {
    let reads = profile(vec![session(1, vec![query("SELECT 1", 0, 1)])]);
    assert_eq!(check_write_safety(&reads), None);
    let writes = profile(vec![session(
        1,
        vec![query("SELECT 1", 0, 1), query("DELETE FROM t", 0, 1)],
    )]);
    let w = check_write_safety(&writes).unwrap();
    assert!(w.starts_with(
        "Warning: scaling a workload with 1 write queries (out of 2 total)."
    ));
}

#[test]
fn replays_are_prepared() {
    let p = || profile(vec![session(1, vec![query("DELETE FROM t", u64::MAX - 5, 1)])]);
    let (same, warning) = prepare_replay(p(), None, 1, 7).unwrap();
    assert_eq!((same.metadata.total_sessions, warning), (0, None));
    // offsets that do not fit
    assert!(prepare_replay(p(), None, 2, 1).is_none());
    assert!(prepare_replay(p(), None, 2, u64::MAX).is_none());
    let (twice, warning) = prepare_replay(p(), None, 2, 0).unwrap();
    assert_eq!((twice.metadata.total_sessions, twice.metadata.total_queries), (2, 2));
    assert!(warning.unwrap().contains("1 write queries"));
    // scales by class come first
    let none = ClassScales { analytical: 1, transactional: 1, mixed: 1, bulk: 0 };
    let (left, _) = prepare_replay(p(), Some(none), 5, 0).unwrap();
    assert_eq!(left.sessions.len(), 0);
}

// ── Replay of a session ─────────────────────────────────────────────

#[test]
fn a_failed_transaction_is_skipped() {
    let mut qs = vec![
        query("BEGIN", 0, 1),
        query("INSERT INTO t VALUES (1)", 1, 5),
        query("INSERT INTO t VALUES (2)", 2, 6),
        query("COMMIT", 3, 1),
        query("SELECT 1", 4, 1),
    ];
    let mut next: u64 = 1;
    assign_transaction_ids(&mut qs, &mut next);
    let mut state = ReplayState::new();
    let rw = ReplayMode::ReadWrite;
    assert!(matches!(state.plan(rw, &qs[0]), Plan::Run));
    assert!(matches!(state.plan(rw, &qs[1]), Plan::Run));
    let (r, rollback) = state.finish(&qs[1], qs[1].sql.clone(), 2, 9, Some("boom".to_string()));
    assert!(rollback);
    assert_eq!((r.original_duration_us, r.replay_duration_us, r.success), (5, 9, false));
    assert_eq!(r.error, Some("boom".to_string()));
    assert_eq!(r.id_substitution_count, 2);
    match state.plan(rw, &qs[2]) {
        Plan::Skip(r) => assert_eq!(r.error, Some("skipped: transaction failed".to_string())),
        _ => panic!("the transaction failed"),
    }
    match state.plan(rw, &qs[3]) {
        Plan::Skip(r) => assert_eq!(
            r.error,
            Some("skipped: transaction already rolled back".to_string())
        ),
        _ => panic!("the transaction was rolled back"),
    }
    assert!(matches!(state.plan(rw, &qs[4]), Plan::Run));
    let (r, rollback) = state.finish(&qs[4], qs[4].sql.clone(), 0, 3, None);
    assert!(r.success && !rollback);
    assert!(matches!(state.plan(ReplayMode::ReadOnly, &qs[1]), Plan::Ignore));
}

#[test]
fn returned_ids_are_learned_and_used() {
    let mut map = IdMap::new();
    let captured = vec![ResponseRow { columns: vec![("id".into(), "42".into())] }];
    register_returned(&mut map, &captured, &vec![vec![Some("1001".to_string())]]);
    assert_eq!(map.get("42"), Some("1001".to_string()));
    let q = query("SELECT * FROM t WHERE id = 42", 0, 1);
    assert_eq!(effective_sql(&q, None), (q.sql.clone(), 0));
    assert_eq!(
        effective_sql(&q, Some(&map)),
        ("SELECT * FROM t WHERE id = 1001".to_string(), 1)
    );
}

// ── Sequences ───────────────────────────────────────────────────────

#[test]
fn sequences_are_restored() {
    let mut seq = SequenceState {
        schema: "public".into(),
        name: "orders_id_seq".into(),
        last_value: Some(41),
        increment_by: 1,
        start_value: 1,
        min_value: 1,
        max_value: 100,
        cycle: false,
        is_called: true,
    };
    assert_eq!(seq.qualified_name(), "\"public\".\"orders_id_seq\"");
    assert_eq!(seq.restore_sql(), "SELECT setval('\"public\".\"orders_id_seq\"', 41, true)");
    seq.last_value = None;
    assert_eq!(seq.restore_sql(), "SELECT setval('\"public\".\"orders_id_seq\"', 1, false)");
}

// ── Changes to a workload ───────────────────────────────────────────

#[test]
fn workloads_are_masked() {
    let mut sessions = vec![session(1, vec![query("SELECT 'x', 5", 0, 1)])];
    mask_sessions(&mut sessions);
    assert_eq!(sessions[0].queries[0].sql, "SELECT $S, $N");
}

#[test]
fn scaled_sessions_have_numbers_of_their_own() {
    let p = profile(vec![
        session(1, vec![query("SELECT 1", 0, 1)]),
        session(3, vec![query("SELECT 3", 0, 1)]),
    ]);
    let ids: Vec<u64> = scale_sessions(&p, 3, 0).iter().map(|s| s.id).collect();
    assert_eq!(ids, vec![1, 3, 4, 6, 7, 9]);
    let scales = ClassScales { analytical: 3, transactional: 3, mixed: 3, bulk: 3 };
    let mut ids: Vec<u64> = scale_sessions_by_class(&p, &scales, 0).iter().map(|s| s.id).collect();
    ids.sort();
    ids.dedup();
    assert_eq!(ids.len(), 6);
}

#[test]
fn writes_under_with_are_writes() {
    let kind = |sql: &str| QueryKind::from_sql(sql);
    assert_eq!(kind("WITH d AS (DELETE FROM a RETURNING *) SELECT * FROM d"), QueryKind::Delete);
    assert_eq!(kind("WITH x AS (SELECT 1) INSERT INTO t SELECT * FROM x"), QueryKind::Insert);
    assert_eq!(kind("with x as (select 1) update t set a = 1"), QueryKind::Update);
    assert_eq!(kind("WITH x AS (SELECT 1) MERGE INTO t USING x ON true"), QueryKind::Other);
    assert_eq!(kind("WITH x AS (SELECT 1) SELECT * FROM x"), QueryKind::Select);
    assert_eq!(kind("WITH x AS (SELECT 1) SELECT * FROM t FOR UPDATE"), QueryKind::Select);
    assert_eq!(kind("WITH x AS (SELECT 'DELETE') SELECT * FROM x"), QueryKind::Select);
    assert!(!ReplayMode::ReadOnly.should_replay(&query("WITH d AS (DELETE FROM a) SELECT 1", 0, 1)));
}

#[test]
fn names_under_with_are_no_writes() {
    let kind = |sql: &str| QueryKind::from_sql(sql);
    for sql in [
        "with update as (select 1) select * from update",
        "WITH a AS (SELECT 1), delete AS (SELECT 2) SELECT delete FROM delete",
        "WITH x (update) AS (SELECT 1) SELECT max(update) FROM x",
        "WITH x AS (SELECT 1) SELECT insert, merge FROM x FOR NO KEY UPDATE",
        "WITH x AS (SELECT 1) SELECT f(1) delete FROM x",
        "WITH x AS (SELECT 1) SELECT * FROM f() AS (update int)",
    ] {
        assert_eq!(kind(sql), QueryKind::Select, "{sql}");
    }
    assert_eq!(
        kind("WITH x AS MATERIALIZED (UPDATE t SET a = 1 RETURNING *) SELECT * FROM x"),
        QueryKind::Update
    );
    assert_eq!(
        kind("WITH y AS (WITH x AS (SELECT 1) DELETE FROM t RETURNING *) SELECT * FROM y"),
        QueryKind::Delete
    );
    assert_eq!(
        kind("WITH RECURSIVE x AS (SELECT 1) SEARCH DEPTH FIRST BY a SET b INSERT INTO t SELECT * FROM x"),
        QueryKind::Insert
    );
}

#[test]
fn scaled_numbers_follow_the_number_of_sessions() {
    let p = profile(vec![
        session(10, vec![query("SELECT 1", 0, 1)]),
        session(20, vec![query("SELECT 2", 0, 1)]),
    ]);
    let ids = |n: u32| -> Vec<u64> { scale_sessions(&p, n, 0).iter().map(|s| s.id).collect() };
    assert_eq!(ids(2), vec![10, 20, 12, 22]);
    // with six copies the sixth would be number 20 again
    assert_eq!(ids(6)[..4], [10, 20, 21, 31]);
    let far = profile(vec![
        session(1, vec![query("SELECT 1", 0, 1)]),
        session(u64::MAX - 100, vec![query("SELECT 2", 0, 1)]),
    ]);
    let ids: Vec<u64> = scale_sessions(&far, 3, 0).iter().map(|s| s.id).collect();
    assert_eq!(ids, vec![1, u64::MAX - 100, 3, u64::MAX - 98, 5, u64::MAX - 96]);
}
