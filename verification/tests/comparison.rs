use pg_retest::compare::ab::{compute_ab_comparison, VariantResult};
use pg_retest::compare::capacity::compute_scale_report;
use pg_retest::compare::junit::{junit_xml, xml_escape, JunitCase};
use pg_retest::compare::report::{error_row, latency_status, make_row};
use pg_retest::compare::{
    avg, compute_comparison, evaluate_outcome, judge, percentile, sort_ascending, CompareOutcome,
    Percent, Verdict,
};
use pg_retest::profile::{
    Metadata, Query, QueryKind, Session, SourceDialect, Timestamp, WorkloadProfile,
};
use pg_retest::replay::{QueryResult, ReplayMode, ReplayResults};

fn source_query(sql: &str, start_offset_us: u64, duration_us: u64, kind: QueryKind) -> Query {
    Query {
        sql: sql.into(),
        start_offset_us,
        duration_us,
        kind,
        transaction_id: None,
        response_values: None,
        original_sql: None,
    }
}

fn result(sql: &str, original_duration_us: u64, replay_duration_us: u64) -> QueryResult {
    QueryResult {
        sql: sql.into(),
        original_duration_us,
        replay_duration_us,
        success: true,
        error: None,
        id_substitution_count: 0,
    }
}

fn percent(p: f64) -> Percent {
    Percent { millionths: (p * 1_000_000.0) as i64 }
}

#[test]
fn test_filtered_percentiles_read_only_mode() {
    // Source has 3 SELECTs and 2 DML queries
    let source = WorkloadProfile {
        version: 2,
        captured_at: Timestamp { secs: 0, nanos: 0 },
        source_host: "src".into(),
        pg_version: "16".into(),
        capture_method: "csv_log".into(),
        source_dialect: SourceDialect::Postgres,
        sessions: vec![Session {
            id: 1,
            user: "app".into(),
            database: "db".into(),
            queries: vec![
                source_query("SELECT 1", 0, 100, QueryKind::Select),
                source_query("INSERT INTO t VALUES (1)", 200, 9000, QueryKind::Insert),
                source_query("SELECT 2", 400, 200, QueryKind::Select),
                source_query("UPDATE t SET x=1", 600, 8000, QueryKind::Update),
                source_query("SELECT 3", 800, 300, QueryKind::Select),
            ],
        }],
        metadata: Metadata {
            total_queries: 5,
            total_sessions: 1,
            capture_duration_us: 1000,
            sequence_snapshot: None,
            pk_map: None,
        },
    };

    // Replay results only contain SELECTs (ReadOnly mode skipped DML)
    let results = vec![ReplayResults {
        session_id: 1,
        query_results: vec![
            result("SELECT 1", 100, 90),
            result("SELECT 2", 200, 180),
            result("SELECT 3", 300, 310),
        ],
    }];

    // Without mode filter: source includes all 5 queries (with high DML durations)
    let report_unfiltered = compute_comparison(&source, &results, percent(20.0), None);
    assert_eq!(report_unfiltered.total_queries_source, 5);
    assert_eq!(report_unfiltered.total_queries_filtered, 0);
    // Source avg includes DML: (100+9000+200+8000+300)/5 = 3520
    assert_eq!(report_unfiltered.source_avg_latency_us, 3520);

    // With ReadOnly mode: source only includes 3 SELECTs
    let report_filtered =
        compute_comparison(&source, &results, percent(20.0), Some(ReplayMode::ReadOnly));
    assert_eq!(report_filtered.total_queries_source, 3);
    assert_eq!(report_filtered.total_queries_replayed, 3);
    assert_eq!(report_filtered.total_queries_filtered, 2);
    // Source avg is only SELECTs: (100+200+300)/3 = 200
    assert_eq!(report_filtered.source_avg_latency_us, 200);

    // With ReadWrite mode: no filtering, same as None
    let report_rw =
        compute_comparison(&source, &results, percent(20.0), Some(ReplayMode::ReadWrite));
    assert_eq!(report_rw.total_queries_source, 5);
    assert_eq!(report_rw.total_queries_filtered, 0);
    assert_eq!(report_rw.replay_p50_latency_us, 180);
    assert_eq!(report_rw.replay_p99_latency_us, 310);
    assert_eq!(
        evaluate_outcome(&report_rw, true, true),
        CompareOutcome::Pass
    );
}

#[test]
fn regressions_are_above_the_threshold_and_worst_first() {
    let source = WorkloadProfile {
        version: 2,
        captured_at: Timestamp { secs: 0, nanos: 0 },
        source_host: "".into(),
        pg_version: "".into(),
        capture_method: "".into(),
        source_dialect: SourceDialect::Postgres,
        sessions: vec![],
        metadata: Metadata {
            total_queries: 0,
            total_sessions: 0,
            capture_duration_us: 0,
            sequence_snapshot: None,
            pk_map: None,
        },
    };
    let mut failed = result("E", 0, 50);
    failed.success = false;
    let results = vec![
        ReplayResults {
            session_id: 1,
            query_results: vec![result("A", 100, 121), result("B", 100, 120), result("C", 10, 20)],
        },
        ReplayResults {
            session_id: 2,
            query_results: vec![failed, result("D", 1000, 2000), result("F", 1, 9)],
        },
    ];
    let report = compute_comparison(&source, &results, percent(20.0), None);
    let sqls: Vec<&str> = report.regressions.iter().map(|r| r.sql.as_str()).collect();
    // exactly 20 percent is within the threshold, equal changes keep their order
    assert_eq!(sqls, vec!["F", "C", "D", "A"]);
    assert_eq!(report.total_errors, 1);
    assert_eq!(report.source_avg_latency_us, 0);
    let outcome = evaluate_outcome(&report, true, true);
    assert_eq!(outcome, CompareOutcome::Errors);
    assert_eq!((outcome.exit_code(), outcome.label()), (2, "FAIL (query errors detected)"));
    let outcome = evaluate_outcome(&report, true, false);
    assert_eq!((outcome.exit_code(), outcome.label()), (1, "FAIL (regressions detected)"));
    let outcome = evaluate_outcome(&report, false, false);
    assert_eq!((outcome.exit_code(), outcome.label()), (0, "PASS"));
}

#[test]
fn changes_are_judged_exactly() {
    assert_eq!(judge(100, 107, percent(7.0)), Verdict::Within);
    assert_eq!(judge(100, 108, percent(7.0)), Verdict::Regression);
    assert_eq!(judge(100, 93, percent(7.0)), Verdict::Within);
    assert_eq!(judge(100, 92, percent(7.0)), Verdict::Improvement);
    assert_eq!(judge(u64::MAX, 0, Percent { millionths: i64::MAX }), Verdict::Within);
    assert_eq!(judge(u64::MAX, 0, Percent { millionths: i64::MIN }), Verdict::Regression);
}

#[test]
fn averages_and_percentiles() {
    assert_eq!(avg(&[]), 0);
    assert_eq!(avg(&[1, 2]), 2);
    assert_eq!(avg(&[1, 1, 2]), 1);
    let mut v = vec![5, 1, 4, 2, 3];
    sort_ascending(&mut v);
    assert_eq!(v, vec![1, 2, 3, 4, 5]);
    assert_eq!(percentile(&v, 0), 1);
    assert_eq!(percentile(&v, 50), 3);
    assert_eq!(percentile(&v, 95), 5);
    assert_eq!(percentile(&[], 50), 0);
}

#[test]
fn variants_are_compared_with_the_first() {
    let variant = |label: &str, times: &[u64]| {
        VariantResult::from_results(
            label.to_string(),
            vec![ReplayResults {
                session_id: 1,
                query_results: times.iter().map(|t| result("Q", 1, *t)).collect(),
            }],
        )
    };
    let report = compute_ab_comparison(
        vec![
            variant("base", &[100, 0, 100, 100]),
            variant("slow", &[300, 5, 100, 200]),
            variant("fast", &[50, 5, 10]),
        ],
        percent(20.0),
    );
    assert_eq!(report.baseline_label, "base");
    let slower: Vec<u64> = report.regressions.iter().map(|r| r.variant_us).collect();
    assert_eq!(slower, vec![300, 200]);
    let faster: Vec<u64> = report.improvements.iter().map(|r| r.variant_us).collect();
    assert_eq!(faster, vec![10, 50]);
    assert_eq!(report.winner(), Some("fast"));
    assert_eq!(report.winner_place(), Some(2));
    let empty = compute_ab_comparison(vec![], percent(20.0));
    assert_eq!(empty.winner(), None);
    assert_eq!(empty.baseline_label, "");
}

#[test]
fn capacity_reports_count() {
    let results = vec![ReplayResults { session_id: 1, query_results: vec![result("Q", 1, 7)] }];
    let r = compute_scale_report(&results, 4, 1_000_000);
    assert_eq!((r.scale_factor, r.total_sessions, r.total_queries), (4, 1, 1));
    assert_eq!((r.elapsed_us, r.avg_latency_us, r.error_count), (1_000_000, 7, 0));
}

#[test]
fn junit_reports_are_escaped() {
    assert_eq!(xml_escape("a<b>&\"c\"'"), "a&lt;b&gt;&amp;&quot;c&quot;&apos;");
    let cases = vec![
        JunitCase { name: "p95".into(), passed: true, time: "0.5".into(), message: None },
        JunitCase {
            name: "p99".into(),
            passed: false,
            time: "0.6".into(),
            message: Some("7 > 5".into()),
        },
    ];
    assert_eq!(
        junit_xml(&cases, "1.2"),
        "<?xml version=\"1.0\" encoding=\"UTF-8\"?>\n\
         <testsuites tests=\"2\" failures=\"1\" time=\"1.2\">\n\
         \x20 <testsuite name=\"pg-retest\" tests=\"2\" failures=\"1\">\n\
         \x20   <testcase name=\"p95\" time=\"0.5\"/>\n\
         \x20   <testcase name=\"p99\" time=\"0.6\">\n\
         \x20     <failure message=\"7 &gt; 5\"/>\n\
         \x20   </testcase>\n\
         \x20 </testsuite>\n\
         </testsuites>\n"
    );
}

#[test]
fn report_rows() {
    let r = make_row("Queries", 5, 3);
    assert_eq!((r.source.as_str(), r.replay.as_str(), r.delta.as_str()), ("5", "3", "-2"));
    assert_eq!(r.status, "DIFF");
    assert_eq!(make_row("Queries", 5, 5).status, "OK");
    assert_eq!(make_row("Queries", 5, 5).delta, "0");
    assert_eq!(error_row(2).delta, "+2");
    assert_eq!(error_row(2).status, "WARN");
    assert_eq!(error_row(0).status, "OK");
    assert_eq!(latency_status(100, 94), "FASTER");
    assert_eq!(latency_status(100, 106), "SLOWER");
    assert_eq!(latency_status(100, 105), "OK");
    assert_eq!(latency_status(0, 9), "OK");
}

#[test]
fn the_order_of_results_does_not_matter() {
    let mut failed = result("C", 1, 70);
    failed.success = false;
    let all = [result("A", 1, 40), result("B", 1, 10), failed, result("D", 1, 25)];
    let variant = |order: [usize; 4]| {
        let query_results = order.iter().map(|i| all[*i].clone()).collect();
        VariantResult::from_results("v".into(), vec![ReplayResults { session_id: 1, query_results }])
    };
    let numbers = |v: VariantResult| {
        [v.avg_latency_us, v.p50_latency_us, v.p95_latency_us, v.p99_latency_us, v.total_errors, v.total_queries]
    };
    let expected = [36, 40, 70, 70, 1, 4];
    assert_eq!(numbers(variant([0, 1, 2, 3])), expected);
    assert_eq!(numbers(variant([2, 3, 0, 1])), expected);
    let none = VariantResult::from_results("v".into(), vec![]);
    assert_eq!(numbers(none), [0; 6]);
}
