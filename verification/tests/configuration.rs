use pg_retest::cli::{
    check_correlation, choose_capture_source, client_tls, parse_duration, parse_size_string,
    parse_variant, plan_proxy, proxy_output, restores_sequences, CaptureSource, SourceStep,
};
use pg_retest::config::{
    default_rds_region, default_scale, default_source_type, validate_config, CaptureConfig,
    ConfigError, PipelineConfig, ProvisionConfig, ReplayConfig, VariantConfig,
};
use pg_retest::correlate::IdMode;
use pg_retest::pipeline::{
    build_class_scales, choose_target, choose_workload_source, classify_error, compares_variants,
    replay_mode, threshold_exit_code, TargetChoice, WorkloadSource,
};
use pg_retest::replay::ReplayMode;
use pg_retest::tls::{parse_tls_mode, uses_tls, TlsMode};

fn text(t: &toml::Table, key: &str) -> Option<String> {
    t.get(key).and_then(|v| v.as_str()).map(String::from)
}

fn scale(t: &toml::Table, key: &str) -> Option<u32> {
    t.get(key).and_then(|v| v.as_integer()).map(|n| n as u32)
}

/// A configuration from its text, with the library's defaults.
fn config(source: &str) -> PipelineConfig {
    let all: toml::Table = source.parse().unwrap();
    let table = |key: &str| all.get(key).and_then(|v| v.as_table());
    let replay = table("replay").unwrap();
    PipelineConfig {
        capture: table("capture").map(|t| CaptureConfig {
            workload: text(t, "workload"),
            source_log: text(t, "source_log"),
            source_host: text(t, "source_host"),
            pg_version: text(t, "pg_version"),
            source_type: text(t, "source_type").unwrap_or_else(default_source_type),
            mask_values: t.get("mask_values").and_then(|v| v.as_bool()).unwrap_or(false),
            rds_instance: text(t, "rds_instance"),
            rds_region: text(t, "rds_region").unwrap_or_else(default_rds_region),
            rds_log_file: text(t, "rds_log_file"),
        }),
        provision: table("provision").map(|t| ProvisionConfig {
            backend: text(t, "backend").unwrap(),
            image: text(t, "image"),
            restore_from: text(t, "restore_from"),
            connection_string: text(t, "connection_string"),
            port: None,
        }),
        replay: ReplayConfig {
            read_only: replay.get("read_only").and_then(|v| v.as_bool()).unwrap_or(false),
            scale: scale(replay, "scale").unwrap_or_else(default_scale),
            stagger_ms: replay.get("stagger_ms").and_then(|v| v.as_integer()).unwrap_or(0) as u64,
            scale_analytical: scale(replay, "scale_analytical"),
            scale_transactional: scale(replay, "scale_transactional"),
            scale_mixed: scale(replay, "scale_mixed"),
            scale_bulk: scale(replay, "scale_bulk"),
            target: text(replay, "target"),
        },
        output: None,
        variants: all.get("variants").and_then(|v| v.as_array()).map(|list| {
            list.iter()
                .map(|v| VariantConfig {
                    label: text(v.as_table().unwrap(), "label").unwrap(),
                    target: text(v.as_table().unwrap(), "target").unwrap(),
                })
                .collect()
        }),
    }
}

#[test]
fn test_validate_no_workload_source() {
    let toml = r#"
[capture]
mask_values = true

[replay]
target = "host=localhost"
"#;
    let err = validate_config(&config(toml)).unwrap_err();
    assert!(err.message().contains("workload"));
    assert_eq!(err, ConfigError::NoWorkload);
}

#[test]
fn test_validate_no_target() {
    let toml = r#"
[capture]
workload = "test.wkl"

[replay]
speed = 2.0
"#;
    let err = validate_config(&config(toml)).unwrap_err();
    assert!(err.message().contains("target"));
    assert_eq!(err, ConfigError::NoTarget);
}

#[test]
fn test_parse_mysql_config() {
    let toml = r#"
[capture]
source_log = "mysql_slow.log"
source_type = "mysql-slow"
source_host = "mysql-prod"

[replay]
target = "host=localhost dbname=test"
read_only = true
"#;
    let config = config(toml);
    assert_eq!(config.capture.as_ref().unwrap().source_type, "mysql-slow");
    match choose_workload_source(&config.capture) {
        Ok(WorkloadSource::MysqlSlow { source_log, source_host }) => {
            assert_eq!((source_log.as_str(), source_host.as_str()), ("mysql_slow.log", "mysql-prod"));
        }
        _ => panic!("a MySQL log is configured"),
    }
}

#[test]
fn test_parse_per_category_scaling_config() {
    let toml = r#"
[capture]
workload = "test.wkl"

[replay]
target = "host=localhost dbname=test"
scale_analytical = 2
scale_transactional = 4
scale_mixed = 1
scale_bulk = 0
stagger_ms = 500
"#;
    let config = config(toml);
    assert_eq!(config.replay.scale_analytical, Some(2));
    assert_eq!(config.replay.scale_transactional, Some(4));
    assert_eq!(config.replay.scale_mixed, Some(1));
    assert_eq!(config.replay.scale_bulk, Some(0));
    assert_eq!(config.replay.stagger_ms, 500);
    let scales = build_class_scales(&config.replay).unwrap();
    assert_eq!((scales.analytical, scales.transactional, scales.mixed, scales.bulk), (2, 4, 1, 0));
}

#[test]
fn test_default_source_type_is_pg_csv() {
    let toml = r#"
[capture]
source_log = "pg_log.csv"

[replay]
target = "host=localhost"
"#;
    let config = config(toml);
    assert_eq!(config.capture.as_ref().unwrap().source_type, "pg-csv");
    assert!(build_class_scales(&config.replay).is_none());
    match choose_workload_source(&config.capture) {
        Ok(WorkloadSource::PgCsv { source_log, source_host, pg_version }) => {
            assert_eq!(source_log, "pg_log.csv");
            assert_eq!((source_host.as_str(), pg_version.as_str()), ("unknown", "unknown"));
        }
        _ => panic!("a CSV log is configured"),
    }
}

#[test]
fn test_parse_rds_config() {
    let toml = r#"
[capture]
source_type = "rds"
rds_instance = "mydb-instance"
rds_region = "us-west-2"

[replay]
target = "host=localhost dbname=test"
"#;
    let config = config(toml);
    let cap = config.capture.as_ref().unwrap();
    assert_eq!(cap.source_type, "rds");
    assert_eq!(cap.rds_instance.as_deref(), Some("mydb-instance"));
    assert_eq!(cap.rds_region, "us-west-2");
    // Validation should pass (rds_instance counts as workload source)
    assert!(validate_config(&config).is_ok());
}

#[test]
fn test_rds_config_default_region() {
    let toml = r#"
[capture]
source_type = "rds"
rds_instance = "mydb-instance"

[replay]
target = "host=localhost dbname=test"
"#;
    let config = config(toml);
    let cap = config.capture.as_ref().unwrap();
    assert_eq!(cap.rds_region, "us-east-1");
}

#[test]
fn test_parse_variant_config() {
    let toml = r#"
[capture]
workload = "test.wkl"

[[variants]]
label = "pg16-default"
target = "host=db1 dbname=app"

[[variants]]
label = "pg16-tuned"
target = "host=db2 dbname=app"

[replay]
speed = 1.0
read_only = true
"#;
    let config = config(toml);
    assert!(compares_variants(&config));
    let variants = config.variants.unwrap();
    assert_eq!(variants.len(), 2);
    assert_eq!(variants[0].label, "pg16-default");
    assert_eq!(variants[1].target, "host=db2 dbname=app");
}

#[test]
fn targets_and_sources() {
    let docker = config("[capture]\nworkload = \"w\"\n[provision]\nbackend = \"docker\"\n[replay]\n");
    assert!(validate_config(&docker).is_ok());
    assert_eq!(choose_target(&docker), TargetChoice::Provision);
    let given = config("[replay]\ntarget = \"t\"\n");
    assert_eq!(choose_target(&given), TargetChoice::Given);
    assert_eq!(choose_workload_source(&given.capture).unwrap_err(), "[capture] section required");
    let neither = config("[capture]\nsource_type = \"x\"\n[replay]\n");
    assert_eq!(choose_target(&neither), TargetChoice::Missing);
    assert_eq!(
        choose_workload_source(&neither.capture).unwrap_err(),
        "Capture error: unknown source_type: x"
    );
    assert_eq!(replay_mode(true), ReplayMode::ReadOnly);
    assert_eq!(replay_mode(false), ReplayMode::ReadWrite);
}

#[test]
fn exit_codes() {
    assert_eq!(classify_error("Config must specify"), 2);
    assert_eq!(classify_error("Capture error: no"), 3);
    assert_eq!(classify_error("Docker is not running"), 4);
    assert_eq!(classify_error("connection refused"), 5);
    assert_eq!(threshold_exit_code(&None), 0);
    assert_eq!(threshold_exit_code(&Some(vec![true, true])), 0);
    assert_eq!(threshold_exit_code(&Some(vec![true, false])), 1);
}

#[test]
fn arguments() {
    assert_eq!(parse_duration(" 90s "), Some(90));
    assert_eq!(parse_duration("5m"), Some(300));
    assert_eq!(parse_duration("7"), Some(7));
    assert_eq!(parse_duration("x"), None);
    assert_eq!(parse_duration("18446744073709551615m"), None);
    assert_eq!(parse_size_string("2kb"), 2048);
    assert_eq!(parse_size_string("1 GB"), 1_073_741_824);
    assert_eq!(parse_size_string("99999999999999999999"), 0);
    assert_eq!(parse_size_string("18446744073709551615MB"), u64::MAX);
    assert_eq!(parse_variant("a=b=c"), Ok(("a".to_string(), "b=c".to_string())));
    assert!(parse_variant("ab").unwrap_err().starts_with("Invalid variant format: ab."));
    assert_eq!(proxy_output(&None, false), Some("workload.wkl".to_string()));
    assert_eq!(proxy_output(&None, true), None);
    assert_eq!(client_tls(true, true), Ok(true));
    assert!(client_tls(true, false).is_err() && client_tls(false, true).is_err());
    assert!(restores_sequences(false, "proxy+compiled") && !restores_sequences(false, "proxy"));
    assert!(check_correlation(true, "proxy").is_ok());
    assert!(check_correlation(true, "csv_log").unwrap_err().contains("csv_log"));
    assert!(check_correlation(false, "csv_log").is_ok());
}

#[test]
fn capture_sources() {
    let log = Some("x.log".to_string());
    match choose_capture_source("mysql-slow", &log, &None) {
        Ok(CaptureSource::MysqlSlow(path)) => assert_eq!(path, "x.log"),
        _ => panic!("a MySQL log is given"),
    }
    assert!(matches!(choose_capture_source("pg-csv", &log, &None), Ok(CaptureSource::PgCsv(_))));
    assert!(matches!(choose_capture_source("rds", &None, &log), Ok(CaptureSource::Rds(_))));
    assert_eq!(
        choose_capture_source("pg-csv", &None, &None).unwrap_err(),
        "--source-log is required for pg-csv capture"
    );
    assert_eq!(
        choose_capture_source("mysql-slow", &None, &None).unwrap_err(),
        "--source-log is required for mysql-slow capture"
    );
    assert_eq!(
        choose_capture_source("rds", &log, &None).unwrap_err(),
        "--rds-instance is required for --source-type rds"
    );
    assert_eq!(
        choose_capture_source("x", &log, &log).unwrap_err(),
        "Unknown source type: x. Supported: pg-csv, mysql-slow, rds"
    );
}

#[test]
fn proxies_are_planned() {
    let plan = plan_proxy(IdMode::Full, true, &Some("host=a".into()), true, 6544);
    assert_eq!(plan.snapshot_sequences, SourceStep::Take);
    assert_eq!(plan.discover_keys, SourceStep::Take);
    assert!(plan.restore_point && plan.enable_correlation);
    assert_eq!(plan.control_port, Some(6544));
    let plan = plan_proxy(IdMode::Sequence, true, &None, false, 6544);
    assert_eq!(plan.snapshot_sequences, SourceStep::NoSource);
    assert_eq!(plan.discover_keys, SourceStep::NoSource);
    assert!(!plan.restore_point && plan.enable_correlation);
    assert_eq!(plan.control_port, None);
    let plan = plan_proxy(IdMode::Off, false, &Some(String::new()), false, 0);
    assert_eq!(plan.snapshot_sequences, SourceStep::NotAsked);
    assert_eq!(plan.discover_keys, SourceStep::NotAsked);
    assert!(plan.restore_point && !plan.enable_correlation);
}

#[test]
fn test_parse_tls_mode() {
    assert_eq!(parse_tls_mode("disable").unwrap(), TlsMode::Disable);
    assert_eq!(parse_tls_mode("prefer").unwrap(), TlsMode::Prefer);
    assert_eq!(parse_tls_mode("require").unwrap(), TlsMode::Require);
    assert_eq!(parse_tls_mode("off").unwrap(), TlsMode::Disable);
    assert!(parse_tls_mode("invalid").is_err());
    assert_eq!(parse_tls_mode("PREFER").unwrap(), TlsMode::Prefer);
    assert!(uses_tls(TlsMode::Require) && !uses_tls(TlsMode::Disable));
}
