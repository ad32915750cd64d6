//! The capturing proxy: wire protocol, relay decisions, capture and control.

pub mod calendar;
pub mod capture;
pub mod connection;
pub mod control;
pub mod health;
pub mod limits;
pub mod listener;
pub mod metrics;
mod ordered;
pub mod pg_binary;
pub mod pool;
pub mod protocol;
pub mod staging;
pub mod wire;
