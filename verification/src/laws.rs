//! What the operations are for, stated of their inputs and results.

pub mod comparison;
pub mod compiling;
pub mod csv_log;
pub mod entries;
pub mod injection;
pub mod kinds;
pub mod literals;
pub mod messages;
pub mod numbers;
pub mod operation;
pub mod options;
pub mod relaying;
pub mod replaying;
pub mod reports;
pub mod scaled;
pub mod slow_log;
pub mod splicing;
pub mod sql_text;
pub mod staged;
pub mod substitution;
pub mod texts;
pub mod traces;
pub mod vectors;
pub mod with_lists;
pub mod workloads;
