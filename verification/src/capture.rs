//! Workload capture from logs.

pub mod csv_log;
pub mod entries;
pub mod error;
pub mod fraction;
pub mod masking;
pub mod mssql_querystore;
pub mod mssql_trace;
pub mod mssql_xevents;
pub mod mysql_slow;
pub mod oracle_awr;
pub mod oracle_trace;
pub mod rds;
pub mod summary;
pub mod table;
pub mod time;
pub mod xml;
