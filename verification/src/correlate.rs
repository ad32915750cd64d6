//! Correlation of generated IDs between capture and replay.

pub mod capture;
pub mod compile;
pub mod map;
pub mod sequence;
pub mod substitute;

use vstd::prelude::*;

verus! {

/// ID handling mode for capture and replay.
#[derive(Debug, Clone, Copy, PartialEq, Eq, Structural)]
pub enum IdMode {
    /// No ID handling (default)
    Off,
    /// Snapshot sequences at capture, reset on target before replay
    Sequence,
    /// Capture RETURNING values via proxy, substitute during replay
    Correlate,
    /// Sequence reset + correlation combined
    Full,
}

impl Default for IdMode {
    fn default() -> (r: Self)
        ensures
            r == IdMode::Off,
    {
        IdMode::Off
    }
}

impl IdMode {
    /// Whether this mode requires sequence snapshot/restore.
    pub fn needs_sequences(&self) -> (r: bool)
        ensures
            r == (*self == IdMode::Sequence || *self == IdMode::Full),
    {
        *self == IdMode::Sequence || *self == IdMode::Full
    }

    /// Whether this mode requires correlation (proxy RETURNING capture).
    pub fn needs_correlation(&self) -> (r: bool)
        ensures
            r == (*self == IdMode::Correlate || *self == IdMode::Full),
    {
        *self == IdMode::Correlate || *self == IdMode::Full
    }
}

} // verus!
