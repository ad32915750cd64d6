//! Pipeline configuration and its validation.
//!
//! Fractions (replay speed, thresholds) are not part of these types.

use crate::text::{copy_string, str_eq};
use vstd::prelude::*;

verus! {

/// Top-level pipeline configuration.
#[derive(Debug, Clone)]
pub struct PipelineConfig {
    pub capture: Option<CaptureConfig>,
    pub provision: Option<ProvisionConfig>,
    pub replay: ReplayConfig,
    pub output: Option<OutputConfig>,
    pub variants: Option<Vec<VariantConfig>>,
}

#[derive(Debug, Clone)]
pub struct CaptureConfig {
    /// Path to existing .wkl file (skip capture, use this directly)
    pub workload: Option<String>,
    /// Path to log file (run capture from this)
    pub source_log: Option<String>,
    pub source_host: Option<String>,
    pub pg_version: Option<String>,
    /// Source type: "pg-csv" (default), "mysql-slow", "rds"
    pub source_type: String,
    pub mask_values: bool,
    /// RDS instance identifier (for source_type = "rds")
    pub rds_instance: Option<String>,
    /// AWS region for RDS instance
    pub rds_region: String,
    /// Specific RDS log file to download (omit to use latest)
    pub rds_log_file: Option<String>,
}

#[derive(Debug, Clone)]
pub struct ProvisionConfig {
    pub backend: String,
    pub image: Option<String>,
    pub restore_from: Option<String>,
    /// Pre-existing connection string (skip provisioning)
    pub connection_string: Option<String>,
    /// Port to expose the container on (default: random)
    pub port: Option<u16>,
}

#[derive(Debug, Clone)]
pub struct ReplayConfig {
    pub read_only: bool,
    pub scale: u32,
    pub stagger_ms: u64,
    pub scale_analytical: Option<u32>,
    pub scale_transactional: Option<u32>,
    pub scale_mixed: Option<u32>,
    pub scale_bulk: Option<u32>,
    /// Target connection string (required if no [provision] section)
    pub target: Option<String>,
}

#[derive(Debug, Clone)]
pub struct OutputConfig {
    pub json_report: Option<String>,
    pub junit_xml: Option<String>,
}

#[derive(Debug, Clone)]
pub struct VariantConfig {
    pub label: String,
    pub target: String,
}

/// The source type where none is given.
pub fn default_source_type() -> (r: String)
    ensures
        r@ == "pg-csv"@,
{
    copy_string("pg-csv")
}

/// The AWS region where none is given.
pub fn default_rds_region() -> (r: String)
    ensures
        r@ == "us-east-1"@,
{
    copy_string("us-east-1")
}

/// The scale where none is given.
pub fn default_scale() -> (r: u32)
    ensures
        r == 1,
{
    1
}

/// What a configuration lacks.
#[derive(Debug, Clone, Copy, PartialEq, Eq, Structural)]
pub enum ConfigError {
    NoWorkload,
    NoTarget,
}

impl ConfigError {
    pub fn message(&self) -> (r: &'static str)
        ensures
            r@ == (match *self {
                ConfigError::NoWorkload => "Config must specify either [capture].workload, [capture].source_log, or [capture].rds_instance (with source_type = \"rds\")"@,
                ConfigError::NoTarget => "Config must specify [replay].target, [provision].connection_string, or [provision].backend = \"docker\""@,
            }),
    {
        match self {
            ConfigError::NoWorkload => "Config must specify either [capture].workload, [capture].source_log, or [capture].rds_instance (with source_type = \"rds\")",
            ConfigError::NoTarget => "Config must specify [replay].target, [provision].connection_string, or [provision].backend = \"docker\"",
        }
    }
}

/// Whether there is a way to get a workload.
pub open spec fn has_workload(c: PipelineConfig) -> bool {
    match c.capture {
        Some(k) => k.workload is Some || k.source_log is Some || (k.source_type@ == "rds"@ && k.rds_instance is Some),
        None => false,
    }
}

/// Whether there is a way to connect to a target.
pub open spec fn has_target(c: PipelineConfig) -> bool {
    c.replay.target is Some || match c.provision {
        Some(p) => p.connection_string is Some || p.backend@ == "docker"@,
        None => false,
    }
}

/// Validate config: ensure we have either a workload file or a source_log to
/// capture from, and either a provision section or a target connection string.
pub fn validate_config(config: &PipelineConfig) -> (r: Result<(), ConfigError>)
    ensures
        r == (if !has_workload(*config) {
            Err(ConfigError::NoWorkload)
        } else if !has_target(*config) {
            Err(ConfigError::NoTarget)
        } else {
            Ok(())
        }),
{
    let workload = match &config.capture {
        Some(c) => c.workload.is_some() || c.source_log.is_some() || (str_eq(c.source_type.as_str(), "rds")
            && c.rds_instance.is_some()),
        None => false,
    };
    if !workload {
        return Err(ConfigError::NoWorkload);
    }
    let target = config.replay.target.is_some() || match &config.provision {
        Some(p) => p.connection_string.is_some() || str_eq(p.backend.as_str(), "docker"),
        None => false,
    };
    if !target {
        return Err(ConfigError::NoTarget);
    }
    Ok(())
}

} // verus!
