use pg_retest::capture::csv_log::{
    inline_parameters, parse_duration_statement, parse_parameters, CsvLogCapture,
};
use pg_retest::capture::error::CaptureError;
use pg_retest::capture::mssql_querystore::MssqlQueryStoreCapture;
use pg_retest::capture::mssql_trace::{parse_mssql_timestamp, MssqlTraceCapture};
use pg_retest::capture::mssql_xevents::MssqlXEventsCapture;
use pg_retest::capture::mysql_slow::{
    apply_changes, parse_mysql_timestamp, parse_query_time, parse_set_timestamp, parse_slow_log,
    parse_user_host, MysqlSlowLogCapture, SqlChange,
};
use pg_retest::capture::oracle_awr::OracleAwrCapture;
use pg_retest::capture::oracle_trace::{
    fill_placeholders, format_bind, is_trace_event, substitute_binds, OracleTraceCapture,
};
use pg_retest::capture::rds::{
    after_portion, choose_log_file, next_marker, select_latest_log_file, PortionStep, RdsCapture,
    RdsLogFile,
};
use pg_retest::capture::time::{is_earlier, micros_from};
use pg_retest::profile::{QueryKind, SourceDialect, Timestamp};

const NOW: Timestamp = Timestamp { secs: 1_700_000_000, nanos: 0 };

// ── PostgreSQL's log ────────────────────────────────────────────────

#[test]
fn test_parse_duration_statement() {
    let (dur, sql) =
        parse_duration_statement("duration: 1.234 ms  statement: SELECT * FROM users").unwrap();
    assert_eq!(dur, 1234);
    assert_eq!(sql, "SELECT * FROM users");
}

#[test]
fn test_parse_duration_statement_sub_ms() {
    let (dur, sql) = parse_duration_statement("duration: 0.045 ms  statement: SELECT 1").unwrap();
    assert_eq!(dur, 45);
    assert_eq!(sql, "SELECT 1");
}

#[test]
fn test_parse_duration_statement_rejects_non_duration() {
    assert!(parse_duration_statement("connection authorized: user=app").is_none());
    assert!(parse_duration_statement("").is_none());
}

#[test]
fn test_parse_duration_execute_prepared() {
    let msg = "duration: 9.281 ms  execute stmtcache_15f213b: SELECT u.id, u.name FROM users u WHERE u.email = $1";
    let (dur, sql) = parse_duration_statement(msg).unwrap();
    assert_eq!(dur, 9281);
    assert_eq!(sql, "SELECT u.id, u.name FROM users u WHERE u.email = $1");
}

#[test]
fn test_parse_duration_bind_skipped() {
    // bind entries are skipped to avoid duplicating prepared-statement queries
    let msg = "duration: 2.072 ms  bind stmtcache_abc123: SELECT * FROM orders WHERE id = $1";
    assert!(parse_duration_statement(msg).is_none());
}

#[test]
fn test_parse_duration_parse_skipped() {
    // parse entries are skipped — only execute carries the execution duration
    let msg = "duration: 0.500 ms  parse stmtcache_def456: INSERT INTO logs (msg) VALUES ($1)";
    assert!(parse_duration_statement(msg).is_none());
}

#[test]
fn test_parse_duration_unnamed_prepared() {
    // Unnamed prepared statements use empty string as name
    let msg = "duration: 1.000 ms  execute <unnamed>: SELECT 1";
    let (dur, sql) = parse_duration_statement(msg).unwrap();
    assert_eq!(dur, 1000);
    assert_eq!(sql, "SELECT 1");
}

#[test]
fn duration_edge_cases() {
    assert!(parse_duration_statement("duration: ms  statement: SELECT 1").is_none());
    assert!(parse_duration_statement("duration: x ms  statement: SELECT 1").is_none());
    assert!(parse_duration_statement("duration: 1 ms  statement: ").is_none());
    assert!(parse_duration_statement("duration: 1 ms  execute s SELECT 1").is_none());
    // half a microsecond rounds up
    assert_eq!(parse_duration_statement("duration: 0.0005 ms  statement: A").unwrap().0, 1);
    assert_eq!(parse_duration_statement("duration: -1.5 ms  statement: A").unwrap().0, 0);
    assert_eq!(parse_duration_statement("duration: inf ms  statement: A").unwrap().0, u64::MAX);
    assert_eq!(parse_duration_statement("duration: 1.5e3 ms  statement: A").unwrap().0, 1_500_000);
}

#[test]
fn test_parse_parameters_basic() {
    let params = parse_parameters("Parameters: $1 = 'sales_demo_app', $2 = 42, $3 = NULL").unwrap();
    assert_eq!(params.len(), 3);
    assert_eq!(params[0], (1, "'sales_demo_app'".to_string()));
    assert_eq!(params[1], (2, "42".to_string()));
    assert_eq!(params[2], (3, "NULL".to_string()));
}

#[test]
fn test_parse_parameters_with_embedded_comma() {
    let params = parse_parameters("Parameters: $1 = 'hello, world', $2 = 5").unwrap();
    assert_eq!(params.len(), 2);
    assert_eq!(params[0], (1, "'hello, world'".to_string()));
    assert_eq!(params[1], (2, "5".to_string()));
}

#[test]
fn parameter_edge_cases() {
    assert!(parse_parameters("parameters: $1 = 1").is_none());
    assert_eq!(parse_parameters("Parameters:").unwrap().len(), 0);
    let quoted = parse_parameters("Parameters: $1 = 'it''s, fine', 2 = x, $y = 3, junk").unwrap();
    assert_eq!(quoted, vec![(1, "'it''s, fine'".to_string()), (2, "x".to_string())]);
}

#[test]
fn test_inline_parameters() {
    let sql = "SELECT * FROM users WHERE email = $1 AND id = $2";
    let params = vec![(1, "'alice@corp.com'".to_string()), (2, "42".to_string())];
    let result = inline_parameters(sql, &params);
    assert_eq!(
        result,
        "SELECT * FROM users WHERE email = 'alice@corp.com' AND id = 42"
    );
}

#[test]
fn test_inline_parameters_double_digit() {
    // $10 should not be confused with $1 + "0"
    let sql = "SELECT $1, $10";
    let params = vec![(1, "'a'".to_string()), (10, "'b'".to_string())];
    let result = inline_parameters(sql, &params);
    assert_eq!(result, "SELECT 'a', 'b'");
}

const CSV_LOG: &str = "\
2024-03-08 10:00:00.500 UTC,app,db,1,host,s2,1,,,,,LOG,,\"duration: 2.000 ms  statement: SELECT 2\"
2024-03-08 10:00:00.100 UTC,app,db,1,host,s1,1,,,,,LOG,,\"duration: 1.000 ms  statement: BEGIN\"
2024-03-08 10:00:00.400 UTC,app,db,1,host,s1,1,,,,,LOG,,\"duration: 1.000 ms  statement: COMMIT\"
2024-03-08 10:00:00.200 UTC,app,db,1,host,s1,1,,,,,LOG,,\"duration: 1.500 ms  execute x: SELECT $1\",\"Parameters: $1 = 'a, b'\"
2024-03-08 10:00:00.200 UTC,app,db,1,host,s1,1,,,,,ERROR,,\"duration: 1.500 ms  statement: SELECT 9\"
2024-03-08 10:00:00.200 UTC,app,db
";

#[test]
fn csv_log_becomes_sessions() {
    let p = CsvLogCapture
        .capture_from_bytes(CSV_LOG.as_bytes(), "host", "16", NOW)
        .unwrap();
    assert_eq!(p.capture_method, "csv_log");
    assert_eq!(p.pg_version, "16");
    assert_eq!(p.version, 2);
    assert_eq!(p.metadata.total_queries, 4);
    assert_eq!(p.metadata.total_sessions, 2);
    // from .100 to .500
    assert_eq!(p.metadata.capture_duration_us, 400_000);
    assert_eq!(p.sessions[0].id, 1);
    assert_eq!(p.sessions[0].queries[0].sql, "SELECT 2");
    let s = &p.sessions[1];
    assert_eq!(s.id, 2);
    assert_eq!(s.user, "app");
    assert_eq!(s.database, "db");
    let sqls: Vec<&str> = s.queries.iter().map(|q| q.sql.as_str()).collect();
    assert_eq!(sqls, vec!["BEGIN", "SELECT 'a, b'", "COMMIT"]);
    assert_eq!(s.queries[1].start_offset_us, 100_000);
    assert_eq!(s.queries[2].start_offset_us, 300_000);
    assert_eq!(s.queries[1].duration_us, 1500);
    assert_eq!(s.queries[1].kind, QueryKind::Select);
    // one transaction for the whole block
    assert!(s.queries.iter().all(|q| q.transaction_id == Some(1)));
}

#[test]
fn csv_log_with_broken_text_fails() {
    let e = CsvLogCapture.capture_from_bytes(b"a,\xff\xfe\n", "h", "16", NOW).unwrap_err();
    assert!(matches!(e, CaptureError::BadRecord));
    assert_eq!(e.message(), "Failed to read CSV record");
}

#[test]
fn csv_log_without_a_readable_time_uses_now() {
    let log = "never,u,d,1,h,s,1,,,,,LOG,,\"duration: 2.000 ms  statement: SELECT 2\"\n\
               2023-11-14T22:13:30Z,u,d,1,h,s,1,,,,,LOG,,\"duration: 2.000 ms  statement: SELECT 3\"\n";
    let p = CsvLogCapture.capture_from_bytes(log.as_bytes(), "h", "16", NOW).unwrap();
    // NOW is 2023-11-14T22:13:20Z
    assert_eq!(p.sessions[0].queries[0].sql, "SELECT 2");
    assert_eq!(p.sessions[0].queries[1].start_offset_us, 10_000_000);
}

// ── MySQL's slow log ────────────────────────────────────────────────

#[test]
fn test_parse_mysql_timestamp() {
    let ts = parse_mysql_timestamp("2024-03-08T10:00:00.100000Z").unwrap();
    let time = chrono::DateTime::from_timestamp(ts.secs, ts.nanos).unwrap();
    assert_eq!(
        time.format("%Y-%m-%d %H:%M:%S").to_string(),
        "2024-03-08 10:00:00"
    );
    assert_eq!(ts.nanos, 100_000_000);
    // without an offset it is UTC
    assert_eq!(parse_mysql_timestamp(" 2024-03-08T10:00:00.1 "), Some(ts));
    assert_eq!(parse_mysql_timestamp("yesterday"), None);
}

#[test]
fn test_parse_user_host() {
    let (user, id) =
        parse_user_host("# User@Host: app_user[app_user] @ localhost []  Id:    42").unwrap();
    assert_eq!(user, "app_user");
    assert_eq!(id, 42);
}

#[test]
fn test_parse_user_host_with_ip() {
    let (user, id) =
        parse_user_host("# User@Host: admin[admin] @ 192.168.1.10 []  Id:    99").unwrap();
    assert_eq!(user, "admin");
    assert_eq!(id, 99);
    assert!(parse_user_host("# User@Host: admin @ x Id: 99").is_none());
    assert!(parse_user_host("# User@Host: admin[admin] @ x").is_none());
    assert!(parse_user_host("# User@Host: admin[admin] Id: x").is_none());
}

#[test]
fn test_parse_query_time() {
    assert_eq!(
        parse_query_time(
            "# Query_time: 0.001234  Lock_time: 0.000100 Rows_sent: 1  Rows_examined: 100"
        ),
        Some(1234)
    );
    assert_eq!(
        parse_query_time(
            "# Query_time: 0.050000  Lock_time: 0.001000 Rows_sent: 5000  Rows_examined: 100000"
        ),
        Some(50000)
    );
    assert_eq!(parse_query_time("# Query_time: 0.05"), None);
    assert_eq!(parse_query_time("# Query_time: x y"), None);
}

#[test]
fn test_parse_set_timestamp() {
    let ts = parse_set_timestamp("SET timestamp=1709892000;").unwrap();
    let time = chrono::DateTime::from_timestamp(ts.secs, ts.nanos).unwrap();
    assert_eq!(time.format("%Y-%m-%d").to_string(), "2024-03-08");
    assert_eq!(ts, Timestamp { secs: 1709892000, nanos: 0 });
    assert_eq!(parse_set_timestamp("SET timestamp=-5;;"), Some(Timestamp { secs: -5, nanos: 0 }));
    assert_eq!(parse_set_timestamp("SET timestamp=9223372036854775807;"), None);
    assert_eq!(parse_set_timestamp("SET timestamp=x;"), None);
}

const SLOW_LOG: &str = "/usr/sbin/mysqld, Version: 8.0\r
Tcp port: 3306  Unix socket: /tmp/mysql.sock
Time                 Id Command    Argument
# Time: 2024-03-08T10:00:00.100000Z
# User@Host: app[app] @ localhost []  Id:    42
# Query_time: 0.001000  Lock_time: 0.0 Rows_sent: 1  Rows_examined: 1
SET timestamp=1709892000;
SELECT *
  FROM t;
# Time: 2024-03-08T10:00:00.300000Z
# User@Host: app[app] @ localhost []  Id:    42
# Query_time: 0.002000  Lock_time: 0.0 Rows_sent: 1  Rows_examined: 1
SET timestamp=1709892000;
SHOW TABLES;
# Time: 2024-03-08T10:00:00.200000Z
# User@Host: bob[bob] @ localhost []  Id:    7
# Query_time: 0.003000  Lock_time: 0.0 Rows_sent: 1  Rows_examined: 1
SET timestamp=1709892000;
UPDATE t SET a = 1;
";

#[test]
fn slow_log_becomes_sessions() {
    let entries = parse_slow_log(SLOW_LOG, NOW);
    assert_eq!(entries.len(), 3);
    assert_eq!(entries[0].sql, "SELECT *\nFROM t;");
    let p = MysqlSlowLogCapture.build_profile(entries, "my", NOW).unwrap();
    assert_eq!(p.capture_method, "mysql_slow_log");
    assert_eq!(p.metadata.total_queries, 3);
    assert_eq!(p.metadata.total_sessions, 2);
    assert_eq!(p.metadata.capture_duration_us, 200_000);
    assert_eq!(p.sessions[0].id, 42);
    assert_eq!(p.sessions[0].user, "app");
    assert_eq!(p.sessions[0].database, "");
    assert_eq!(p.sessions[0].queries[1].start_offset_us, 200_000);
    assert_eq!(p.sessions[0].queries[1].duration_us, 2000);
    assert_eq!(p.sessions[1].id, 7);
    assert_eq!(p.sessions[1].queries[0].kind, QueryKind::Update);
}

#[test]
fn skipped_statements_still_count_for_times() {
    let entries = parse_slow_log(SLOW_LOG, NOW);
    let changes = vec![
        SqlChange::Skipped,
        SqlChange::Transformed("SELECT 1".to_string()),
        SqlChange::Unchanged,
    ];
    let p = MysqlSlowLogCapture
        .build_profile(apply_changes(entries, changes), "my", NOW)
        .unwrap();
    assert_eq!(p.metadata.total_queries, 2);
    assert_eq!(p.metadata.capture_duration_us, 200_000);
    // ordered by the time of the first kept query
    assert_eq!(p.sessions[0].id, 7);
    assert_eq!(p.sessions[1].id, 42);
    assert_eq!(p.sessions[1].queries[0].sql, "SELECT 1");
    assert_eq!(p.sessions[1].queries[0].start_offset_us, 200_000);
}

#[test]
fn slow_log_without_time_uses_the_statement_time() {
    let log = "# User@Host: a[a] @ h []  Id: 1\nSET timestamp=1709892000;\nSELECT 1;\n";
    let entries = parse_slow_log(log, NOW);
    assert_eq!(entries[0].time, Some(Timestamp { secs: 1709892000, nanos: 0 }));
    let entries = parse_slow_log("SELECT 1;", NOW);
    assert_eq!(entries[0].time, Some(NOW));
    let p = MysqlSlowLogCapture.capture_from_text("", "h", NOW).unwrap();
    assert_eq!(p.metadata.total_queries, 0);
    assert_eq!(p.metadata.capture_duration_us, 0);
}

// ── SQL Server's Query Store ────────────────────────────────────────

const QUERYSTORE_CSV: &str = "\
query_sql_text,count_executions,avg_duration
\"SELECT TOP 10 name FROM products\",100,1500
\"INSERT INTO events (note) VALUES ('qs_origin')\",5,800
";

#[test]
fn mssql_querystore_test_parses_sql_text_and_timing() {
    let p = MssqlQueryStoreCapture
        .capture_from_reader(QUERYSTORE_CSV.as_bytes(), "mssql01", NOW)
        .unwrap();
    assert_eq!(p.source_dialect, SourceDialect::SqlServer);
    assert_eq!(p.capture_method, "mssql_querystore");
    assert_eq!(p.metadata.total_queries, 2);
    let qs = &p.sessions[0].queries;
    assert!(qs[0].sql.contains("TOP 10"));
    assert_eq!(qs[0].duration_us, 1500);
    assert!(qs[1].sql.contains("qs_origin"));
    // one behind the other
    assert_eq!(qs[1].start_offset_us, 1500);
    assert_eq!(p.metadata.capture_duration_us, 2300);
    assert_eq!(p.sessions[0].user, "mssql01");
}

#[test]
fn test_missing_sql_column_errors() {
    let bad = "foo,bar\n1,2\n";
    let err = MssqlQueryStoreCapture
        .capture_from_reader(bad.as_bytes(), "mssql01", NOW)
        .unwrap_err();
    assert!(err.message().contains("query_sql_text"));
}

#[test]
fn test_empty_sql_rows_skipped() {
    let csv = "query_sql_text,avg_duration\n,100\n\"SELECT 1\",200\n";
    let p = MssqlQueryStoreCapture
        .capture_from_reader(csv.as_bytes(), "mssql01", NOW)
        .unwrap();
    assert_eq!(p.metadata.total_queries, 1);
}

#[test]
fn extract_errors() {
    let capture = |data: &[u8]| MssqlQueryStoreCapture.capture_from_reader(data, "h", NOW);
    assert!(matches!(capture(b"\xff,a\n"), Err(CaptureError::NoHeader)));
    assert_eq!(CaptureError::NoHeader.message(), "CSV has no header row");
    assert!(matches!(capture(b"sql\n\xff\n"), Err(CaptureError::BadRow)));
    assert_eq!(CaptureError::BadRow.message(), "malformed CSV row");
    assert!(matches!(capture(b""), Err(CaptureError::MissingColumn { .. })));
    let long = "sql,duration\nA,18446744073709551615\nB,1\n";
    assert!(matches!(capture(long.as_bytes()), Err(CaptureError::TooLong)));
    assert_eq!(
        CaptureError::TooLong.message(),
        "captured times do not fit into 64 bits"
    );
    match capture(b"foo,bar\n") {
        Err(CaptureError::MissingColumn { column, headers }) => {
            assert_eq!(column, "query_sql_text");
            assert_eq!(headers, vec!["foo".to_string(), "bar".to_string()]);
            let e = CaptureError::MissingColumn { column, headers };
            assert_eq!(
                e.message(),
                "CSV needs a `query_sql_text` column (got: StringRecord([\"foo\", \"bar\"]))"
            );
        }
        _ => panic!("a column is missing"),
    }
}

#[test]
fn extract_fields_are_trimmed() {
    let csv = " SQL , Duration \n  SELECT 1  , 1.9 \n\u{3000}SELECT 2\u{3000}, x\n";
    let p = MssqlQueryStoreCapture.capture_from_reader(csv.as_bytes(), "h", NOW).unwrap();
    let qs = &p.sessions[0].queries;
    assert_eq!(qs[0].sql, "SELECT 1");
    assert_eq!(qs[0].duration_us, 1);
    assert_eq!(qs[1].sql, "SELECT 2");
    assert_eq!(qs[1].duration_us, 0);
    // a statement without a duration takes one microsecond
    assert_eq!(p.metadata.capture_duration_us, 2);
}

// ── Oracle's AWR ────────────────────────────────────────────────────

const AWR_CSV: &str = "\
sql_text,executions,elapsed_us
\"SELECT NVL(name, 'x') FROM products\",100,1500
\"INSERT INTO events (note) VALUES ('awr_origin')\",5,800
";

#[test]
fn oracle_awr_test_parses_sql_text_and_timing() {
    let p = OracleAwrCapture
        .capture_from_reader(AWR_CSV.as_bytes(), "orcl", NOW)
        .unwrap();
    assert_eq!(p.source_dialect, SourceDialect::Oracle);
    assert_eq!(p.capture_method, "oracle_awr");
    assert_eq!(p.metadata.total_queries, 2);
    let qs = &p.sessions[0].queries;
    assert!(qs[0].sql.contains("NVL"));
    assert_eq!(qs[0].duration_us, 1500);
    assert!(qs[1].sql.contains("awr_origin"));
}

#[test]
fn test_missing_sql_text_column_errors() {
    let bad = "foo,bar\n1,2\n";
    assert!(OracleAwrCapture
        .capture_from_reader(bad.as_bytes(), "orcl", NOW)
        .is_err());
}

#[test]
fn test_only_sql_text_column_ok() {
    let csv = "sql_text\n\"SELECT 1 FROM dual\"\n";
    let p = OracleAwrCapture
        .capture_from_reader(csv.as_bytes(), "orcl", NOW)
        .unwrap();
    assert_eq!(p.metadata.total_queries, 1);
    assert_eq!(p.sessions[0].queries[0].duration_us, 0);
}

// ── SQL Server's trace tables ───────────────────────────────────────

const TRACE_CSV: &str = "\
TextData,Duration,StartTime,SPID,DatabaseName,LoginName,EventClass
\"SELECT * FROM products WHERE id = 1\",1500,2026-03-08 10:00:00.100,52,app,svc_app,12
\"EXEC dbo.get_order 42\",800,2026-03-08 10:00:00.900,52,app,svc_app,10
\"SELECT 1\",100,2026-03-08 10:00:01.000,53,app,svc_app,12
\"sp_reset_connection\",5,2026-03-08 10:00:01.100,53,app,svc_app,14
";

#[test]
fn test_groups_by_spid_and_filters_event_class() {
    let p = MssqlTraceCapture
        .capture_from_reader(TRACE_CSV.as_bytes(), "mssql01", NOW)
        .unwrap();
    assert_eq!(p.source_dialect, SourceDialect::SqlServer);
    assert_eq!(p.capture_method, "mssql_trace");
    // The EventClass=14 row (sp_reset_connection) is filtered out.
    assert_eq!(p.metadata.total_queries, 3);
    assert_eq!(p.metadata.total_sessions, 2);

    let spid_52 = p.sessions.iter().find(|s| s.id == 52).unwrap();
    assert_eq!(spid_52.queries.len(), 2);
    assert_eq!(spid_52.user, "svc_app");
    assert_eq!(spid_52.database, "app");
    // Second query is 800us after the first (10:00:00.900 - 10:00:00.100).
    assert_eq!(spid_52.queries[1].start_offset_us, 800_000);
    assert_eq!(spid_52.queries[1].duration_us, 800);

    let spid_53 = p.sessions.iter().find(|s| s.id == 53).unwrap();
    assert_eq!(spid_53.queries.len(), 1);
}

#[test]
fn test_missing_text_data_column_errors() {
    let bad = "foo,bar\n1,2\n";
    let err = MssqlTraceCapture
        .capture_from_reader(bad.as_bytes(), "mssql01", NOW)
        .unwrap_err();
    assert!(err.message().contains("TextData"));
}

#[test]
fn test_no_event_class_column_accepts_all_rows() {
    let csv = "TextData,Duration\n\"SELECT 1\",100\n\"sp_reset_connection\",5\n";
    let p = MssqlTraceCapture
        .capture_from_reader(csv.as_bytes(), "mssql01", NOW)
        .unwrap();
    assert_eq!(p.metadata.total_queries, 2);
}

#[test]
fn trace_rows_are_ordered_by_time_and_session() {
    let csv = "textdata,start_time,session_id,eventclass\n\
               B,2026-03-08 10:00:02,9,rpc:completed\n\
               A,2026-03-08T10:00:01Z,9,sql:batchcompleted\n\
               C,,9,12\n\
               D,2026-03-08 10:00:00,3,12\n";
    let p = MssqlTraceCapture.capture_from_reader(csv.as_bytes(), "h", NOW).unwrap();
    assert_eq!(p.sessions[0].id, 3);
    let sqls: Vec<&str> = p.sessions[1].queries.iter().map(|q| q.sql.as_str()).collect();
    // a row without a time comes first, and then no offset is known
    assert_eq!(sqls, vec!["C", "A", "B"]);
    assert!(p.sessions[1].queries.iter().all(|q| q.start_offset_us == 0));
    assert_eq!(p.metadata.capture_duration_us, 2_000_000);
    assert_eq!(
        parse_mssql_timestamp(" 2026-03-08 10:00:02.5 ").map(|t| t.nanos),
        Some(500_000_000)
    );
    assert_eq!(parse_mssql_timestamp("x"), None);
}

// ── SQL Server's Extended Events ────────────────────────────────────

const XML: &str = r#"<RingBufferTarget>
<event name="sql_batch_completed" package="sqlserver" timestamp="2026-03-08T10:00:00.100Z">
    <data name="duration"><value>1500</value></data>
    <data name="batch_text"><value>SELECT * FROM products WHERE id = 1</value></data>
    <action name="session_id" package="sqlserver"><value>52</value></action>
    <action name="database_name" package="sqlserver"><value>app</value></action>
</event>
<event name="rpc_completed" package="sqlserver" timestamp="2026-03-08T10:00:00.900Z">
    <data name="duration"><value>800</value></data>
    <data name="statement"><value>EXEC dbo.get_order 42</value></data>
    <action name="session_id" package="sqlserver"><value>52</value></action>
    <action name="database_name" package="sqlserver"><value>app</value></action>
</event>
<event name="login" package="sqlserver" timestamp="2026-03-08T10:00:00.050Z">
    <action name="session_id" package="sqlserver"><value>52</value></action>
</event>
</RingBufferTarget>"#;

#[test]
fn test_parses_completed_events_and_skips_others() {
    let p = MssqlXEventsCapture
        .capture_from_reader(XML.as_bytes(), "mssql01", NOW)
        .unwrap();
    assert_eq!(p.source_dialect, SourceDialect::SqlServer);
    assert_eq!(p.capture_method, "mssql_xevents");
    // The "login" event has no duration/text and isn't a completed statement — skipped.
    assert_eq!(p.metadata.total_queries, 2);
    assert_eq!(p.metadata.total_sessions, 1);

    let session = &p.sessions[0];
    assert_eq!(session.id, 52);
    assert_eq!(session.database, "app");
    assert!(session.queries[0].sql.contains("SELECT"));
    assert_eq!(session.queries[0].duration_us, 1500);
    assert!(session.queries[1].sql.contains("get_order"));
    assert_eq!(session.queries[1].start_offset_us, 800_000);
}

#[test]
fn test_bare_event_sequence_without_wrapper() {
    let xml = r#"<event name="sql_batch_completed" timestamp="2026-01-01T00:00:00Z">
            <data name="duration"><value>100</value></data>
            <data name="batch_text"><value>SELECT 1</value></data>
        </event>"#;
    let p = MssqlXEventsCapture
        .capture_from_reader(xml.as_bytes(), "mssql01", NOW)
        .unwrap();
    assert_eq!(p.metadata.total_queries, 1);
}

#[test]
fn test_empty_xml_produces_empty_profile() {
    let p = MssqlXEventsCapture
        .capture_from_reader(
            b"<RingBufferTarget></RingBufferTarget>".as_slice(),
            "mssql01",
            NOW,
        )
        .unwrap();
    assert_eq!(p.metadata.total_queries, 0);
    assert!(p.sessions.is_empty());
}

#[test]
fn xevents_names_and_errors() {
    let capture = |xml: &str| MssqlXEventsCapture.capture_from_reader(xml.as_bytes(), "h", NOW);
    // prefixes do not count, attribute values are unescaped
    let p = capture(
        "<x:event name='rpc&#95;completed'><x:data name='statement'><x:value>EXEC p</x:value></x:data></x:event>",
    )
    .unwrap();
    assert_eq!(p.sessions[0].queries[0].sql, "EXEC p");
    assert_eq!(p.sessions[0].id, 0);
    let e = capture("<event name='a'></data>").unwrap_err();
    assert!(matches!(e, CaptureError::BadXml));
    assert_eq!(e.message(), "malformed XML");
    let e = capture("<event name='&nosuch;'/>").unwrap_err();
    assert!(matches!(e, CaptureError::BadAttribute(_)));
    assert!(e.message().contains("unrecognized entity `nosuch`"));
    let broken = b"<event name='a'><data name='b'><value>\xff</value></data></event>";
    let e = MssqlXEventsCapture.capture_from_reader(broken, "h", NOW).unwrap_err();
    assert!(matches!(e, CaptureError::BadText));
    assert_eq!(e.message(), "malformed XML text");
    assert_eq!(CaptureError::BadEntity.message(), "malformed XML entity");
    // broken text counts only in a field's value
    let outside = b"<event name='a'>\xff</event>";
    assert!(MssqlXEventsCapture.capture_from_reader(outside, "h", NOW).is_ok());
}

// ── Oracle's SQL trace ──────────────────────────────────────────────

const TRACE: &str = "\
*** SESSION ID:(123.456) 2026-06-15T10:00:00.000
PARSING IN CURSOR #140001 len=58 dep=0 uid=84 oct=3 lid=84 tim=1000000 hv=1 ad='0' sqlid='aaa'
SELECT NVL(name, 'none') AS n FROM employees WHERE active = 1
END OF STMT
PARSE #140001:c=100,e=200,p=0,cr=0,cu=0,mis=1,r=0,dep=0,og=1,plh=0,tim=1000000
EXEC #140001:c=300,e=1500,p=0,cr=0,cu=0,mis=0,r=0,dep=0,og=1,plh=1,tim=1000300
FETCH #140001:c=200,e=800,p=0,cr=5,cu=0,mis=0,r=2,dep=0,og=1,plh=1,tim=1001000
PARSING IN CURSOR #140002 len=40 dep=1 uid=0 oct=3 lid=0 tim=1002000 hv=2 ad='0' sqlid='bbb'
select obj# from obj$ where name=:1
END OF STMT
EXEC #140002:c=50,e=100,p=0,cr=2,cu=0,mis=0,r=0,dep=1,og=4,plh=2,tim=1002100
PARSING IN CURSOR #140003 len=52 dep=0 uid=84 oct=2 lid=84 tim=1003000 hv=3 ad='0' sqlid='ccc'
INSERT INTO audit_log (msg) VALUES ('oracle trace')
END OF STMT
EXEC #140003:c=400,e=2000,p=0,cr=1,cu=3,mis=0,r=1,dep=0,og=1,plh=3,tim=1003500
";

#[test]
fn test_parses_top_level_and_filters_recursive() {
    let profile = OracleTraceCapture.capture_from_reader(TRACE, "orcl", NOW).unwrap();

    assert_eq!(profile.source_dialect, SourceDialect::Oracle);
    assert_eq!(profile.capture_method, "oracle_trace");
    // The dep=1 recursive obj$ query is filtered; 2 top-level statements remain.
    assert_eq!(profile.metadata.total_queries, 2);
    let qs = &profile.sessions[0].queries;
    assert!(qs[0].sql.contains("NVL"));
    assert_eq!(qs[0].duration_us, 1500); // EXEC e=
    assert_eq!(qs[0].start_offset_us, 0); // first EXEC tim
    assert!(qs[1].sql.contains("INSERT INTO audit_log"));
    assert_eq!(qs[1].start_offset_us, 3200); // tim 1003500 - 1000300
    assert!(!qs.iter().any(|q| q.sql.contains("obj$"))); // recursive filtered
    assert_eq!(profile.metadata.capture_duration_us, 5200);
}

const BIND_TRACE: &str = "\
PARSING IN CURSOR #140005 len=46 dep=0 uid=84 oct=6 lid=84 tim=2000000 hv=5 ad='0' sqlid='upd'
UPDATE products SET price = :1 WHERE name = :2
END OF STMT
PARSE #140005:c=10,e=20,p=0,cr=0,cu=0,mis=1,r=0,dep=0,og=1,plh=0,tim=2000000
BINDS #140005:
 Bind#0
  oacdty=02 mxl=22(22) mxlc=00 mal=00 scl=00 pre=00
  value=99
 Bind#1
  oacdty=01 mxl=32(20) mxlc=00 mal=00 scl=00 pre=00
  value=\"alice\"
EXEC #140005:c=100,e=500,p=0,cr=0,cu=1,mis=0,r=1,dep=0,og=1,plh=5,tim=2000100
";

#[test]
fn test_bind_substitution() {
    let profile = OracleTraceCapture.capture_from_reader(BIND_TRACE, "orcl", NOW).unwrap();
    assert_eq!(profile.metadata.total_queries, 1);
    // :1 → 99 (number), :2 → 'alice' (string).
    assert_eq!(
        profile.sessions[0].queries[0].sql,
        "UPDATE products SET price = 99 WHERE name = 'alice'"
    );
}

#[test]
fn test_format_bind_string_and_number() {
    assert_eq!(format_bind("99"), "99");
    assert_eq!(format_bind("\"alice\""), "'alice'");
    assert_eq!(format_bind("\"O'Brien\""), "'O''Brien'"); // quote doubling
    assert_eq!(format_bind("\""), "\"");
}

#[test]
fn test_empty_trace_yields_no_sessions() {
    let profile = OracleTraceCapture
        .capture_from_reader("Trace file header\n", "orcl", NOW)
        .unwrap();
    assert_eq!(profile.metadata.total_queries, 0);
    assert!(profile.sessions.is_empty());
}

#[test]
fn surplus_placeholders_stay() {
    let vals = vec!["1".to_string()];
    assert_eq!(substitute_binds("a = :x AND b = :y", &vals), "a = 1 AND b = :y");
    assert_eq!(substitute_binds("a = :x AND b = :y", &[]), "a = :x AND b = :y");
    let gaps = vec!["a".to_string(), "b".to_string()];
    assert_eq!(fill_placeholders(&gaps, &[":p".to_string()], &vals), "a1b");
    assert_eq!(fill_placeholders(&gaps, &[":p".to_string()], &[]), "a:pb");
}

#[test]
fn trace_statements_repeat_and_end() {
    assert!(is_trace_event("WAIT #1: nam='x'"));
    assert!(!is_trace_event(" value=1"));
    // an unfinished statement still belongs to its cursor; the trace ends there
    let open = "PARSING IN CURSOR #1 len=1 dep=0\nSELECT 1";
    let p = OracleTraceCapture.capture_from_reader(open, "o", NOW).unwrap();
    assert_eq!(p.metadata.total_queries, 0);
    // lines may end with a carriage return; a statement may have several
    let twice = "PARSING IN CURSOR #1 len=1 dep=0 x\r\nSELECT\r\n 1\r\nEND OF STMT\r\n\
                 EXEC #1:e=5,tim=10\r\nEXEC #1:e=6,tim=9\r\nEXEC #2:e=1,tim=99\r\n";
    let p = OracleTraceCapture.capture_from_reader(twice, "o", NOW).unwrap();
    let qs = &p.sessions[0].queries;
    assert_eq!(qs.len(), 2);
    assert_eq!(qs[0].sql, "SELECT  1");
    // a time before the first counts as the first
    assert_eq!(qs[1].start_offset_us, 0);
    assert_eq!(p.metadata.capture_duration_us, 6);
    let long = "PARSING IN CURSOR #1 dep=0\nA\nEND OF STMT\nEXEC #1:e=1,tim=0\nEXEC #1:e=18446744073709551615,tim=1\n";
    assert!(matches!(
        OracleTraceCapture.capture_from_reader(long, "o", NOW),
        Err(CaptureError::TooLong)
    ));
}

// ── Amazon RDS ──────────────────────────────────────────────────────

fn log_file(name: &str, last_written: u64) -> RdsLogFile {
    RdsLogFile { log_file_name: name.to_string(), last_written, size: 1 }
}

#[test]
fn the_latest_log_file_is_taken() {
    let files = vec![log_file("a", 5), log_file("b", 9), log_file("c", 9), log_file("d", 1)];
    assert_eq!(select_latest_log_file(&files), Some("c".to_string()));
    assert_eq!(select_latest_log_file(&[]), None);
    assert_eq!(choose_log_file(Some("x"), &files), Some("x".to_string()));
    assert_eq!(choose_log_file(None, &files), Some("c".to_string()));
}

#[test]
fn portions_go_on_while_more_is_pending() {
    let m = Some("12".to_string());
    assert_eq!(next_marker(Some(true), m.clone()), m);
    assert_eq!(next_marker(Some(true), None), None);
    assert_eq!(next_marker(Some(false), m.clone()), None);
    assert_eq!(next_marker(None, m), None);
    assert_eq!(after_portion(true, false), PortionStep::Take);
    assert_eq!(after_portion(false, false), PortionStep::Retry);
    assert_eq!(after_portion(false, true), PortionStep::Fail);
}

#[test]
fn rds_workloads_are_marked() {
    let p = RdsCapture.capture_from_log(CSV_LOG.as_bytes(), "host", NOW).unwrap();
    assert_eq!(p.capture_method, "rds");
    assert_eq!(p.pg_version, "unknown");
    assert_eq!(p.metadata.total_queries, 4);
}

#[test]
fn references_belong_to_the_text_around_them() {
    let value = |text: &str| {
        let xml = format!(
            "<event name='rpc_completed'><data name='statement'><value>{text}</value></data></event>"
        );
        MssqlXEventsCapture
            .capture_from_reader(xml.as_bytes(), "h", NOW)
            .map(|p| p.sessions.first().map(|s| s.queries[0].sql.clone()))
    };
    let sql = |text: &str| value(text).unwrap().unwrap();
    assert_eq!(sql("SELECT 1 WHERE a &lt; b"), "SELECT 1 WHERE a < b");
    assert_eq!(sql("&lt;&amp;&gt;"), "<&>");
    assert_eq!(sql("a&#65;b &#x42;"), "aAb B");
    assert_eq!(sql("\n  SELECT 'x'\n  FROM t &amp; u  \n"), "SELECT 'x'\n  FROM t & u");
    assert_eq!(sql("a<!-- c -->b"), "ab");
    assert_eq!(value("   ").unwrap(), None);
    assert!(matches!(value("a &nosuch; b"), Err(CaptureError::BadEntity)));
    // outside of values references do not count
    let p = MssqlXEventsCapture
        .capture_from_reader(b"<r>&nosuch;<event name='a'/></r>".as_slice(), "h", NOW)
        .unwrap();
    assert!(p.sessions.is_empty());
}

#[test]
fn each_value_begins_anew() {
    let xml = "<event name='rpc_completed'>\n\
               <data name='result'>\n<value>0</value>\n<text>OK</text>\n</data>\n\
               <data name='statement'>\n<value>EXEC p</value>\n</data>\n\
               <data name='duration'>\n<value>7</value>\n</data>\n</event>";
    let p = MssqlXEventsCapture.capture_from_reader(xml.as_bytes(), "h", NOW).unwrap();
    let q = &p.sessions[0].queries[0];
    assert_eq!((q.sql.as_str(), q.duration_us), ("EXEC p", 7));
}

#[test]
fn logged_parameters_are_not_searched_for_placeholders() {
    let params = vec![(1, "'a'".to_string()), (2, "'$1'".to_string())];
    assert_eq!(inline_parameters("SELECT $1, $2", &params), "SELECT 'a', '$1'");
    assert_eq!(inline_parameters("SELECT $3, $2", &params), "SELECT $3, '$1'");
}

#[test]
fn leap_seconds_come_before_the_next_second() {
    let t = |secs: i64, nanos: u32| Timestamp { secs, nanos };
    assert!(is_earlier(&t(59, 999_999_999), &t(59, 1_500_000_000)));
    assert!(is_earlier(&t(59, 1_500_000_000), &t(60, 0)));
    assert!(!is_earlier(&t(60, 0), &t(59, 1_500_000_000)));
    assert_eq!(micros_from(&t(59, 0), &t(59, 1_500_000_000)), 1_500_000);
    assert_eq!(micros_from(&t(59, 1_500_000_000), &t(60, 0)), 500_000);
    assert_eq!(micros_from(&t(10, 0), &t(12, 500)), 2_000_000);
    assert_eq!(micros_from(&t(12, 0), &t(10, 0)), 0);
}
