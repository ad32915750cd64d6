//! Capture, replay and comparison of PostgreSQL workloads.

pub mod capture;
pub mod classify;
pub mod cli;
pub mod compare;
pub mod config;
pub mod correlate;
pub mod laws;
pub mod number;
pub mod pipeline;
pub mod profile;
pub mod proxy;
pub mod replay;
pub mod sql;
pub mod text;
pub mod tls;
