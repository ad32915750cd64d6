//! Limits on connections: how long they live, how large their messages are, and
//! how long a transaction stays open without a message.

use vstd::prelude::*;

verus! {

/// Whether a time in seconds is past a limit. Zero is no limit.
pub open spec fn past_limit(secs: u64, limit: u64) -> bool {
    limit > 0 && secs > limit
}

/// Whether a connection is older than it may become, or idle for longer than it
/// may be.
pub fn is_past_limit(secs: u64, limit: u64) -> (r: bool)
    ensures
        r == past_limit(secs, limit),
{
    limit > 0 && secs > limit
}

/// Whether a message with a body of `body` bytes, with the four bytes of its
/// length, is larger than it may be. Zero is no limit.
pub open spec fn too_large(body: nat, max: u32) -> bool {
    max > 0 && body + 4 > max
}

pub fn is_too_large(body: usize, max: u32) -> (r: bool)
    ensures
        r == too_large(body as nat, max),
{
    max > 0 && (max < 4 || body > (max - 4) as usize)
}

/// Whether a status of the server says that a transaction is open: in a
/// transaction, or in one that has failed.
pub open spec fn in_transaction(status: u8) -> bool {
    status == 84 || status == 69
}

/// A session's transaction while the client is silent.
#[derive(Debug, Clone, Copy, PartialEq, Eq, Structural)]
pub struct TransactionWatch {
    /// Since when the server waits for the client inside a transaction, in
    /// nanoseconds.
    pub since: Option<u64>,
    /// Whether the client's silence has been reported.
    pub reported: bool,
}

/// How many seconds the client has been silent in a transaction.
pub open spec fn silent_secs(w: TransactionWatch, now: u64) -> Option<u64> {
    match w.since {
        Some(t) => Some(if now >= t { ((now - t) / 1_000_000_000) as u64 } else { 0 }),
        None => None,
    }
}

/// Whether the client's silence is to be reported: it is past the limit, and was
/// not reported yet.
pub open spec fn to_report(w: TransactionWatch, now: u64, limit: Option<u64>) -> bool {
    match (silent_secs(w, now), limit) {
        (Some(secs), Some(limit)) => !w.reported && past_limit(secs, limit),
        _ => false,
    }
}

impl TransactionWatch {
    pub fn new() -> (r: Self)
        ensures
            r == (TransactionWatch { since: None, reported: false }),
    {
        TransactionWatch { since: None, reported: false }
    }

    /// The server waits for the client, with this status.
    pub fn on_ready(&mut self, status: u8, now: u64)
        ensures
            *final(self) == (TransactionWatch {
                since: if in_transaction(status) { Some(now) } else { None },
                reported: false,
            }),
    {
        self.since = if status == 84 || status == 69 { Some(now) } else { None };
        self.reported = false;
    }

    /// The client sent a message.
    pub fn on_client_message(&mut self)
        ensures
            *final(self) == (TransactionWatch { since: None, reported: false }),
    {
        self.since = None;
        self.reported = false;
    }

    /// How long the client has been silent, if that is to be reported.
    pub fn check(&mut self, now: u64, limit: Option<u64>) -> (r: Option<u64>)
        ensures
            r == (if to_report(*old(self), now, limit) { silent_secs(*old(self), now) } else { None }),
            *final(self) == (TransactionWatch {
                since: old(self).since,
                reported: old(self).reported || to_report(*old(self), now, limit),
            }),
    {
        match (self.since, limit) {
            (Some(t), Some(limit)) => {
                let secs: u64 = if now >= t { (now - t) / 1_000_000_000 } else { 0 };
                if !self.reported && is_past_limit(secs, limit) {
                    self.reported = true;
                    Some(secs)
                } else {
                    None
                }
            },
            _ => None,
        }
    }
}

/// A silence is reported once, however often it is looked at.
pub proof fn law_silence_reported_once(w: TransactionWatch, now: u64, later: u64, limit: Option<u64>)
    requires
        to_report(w, now, limit),
    ensures
        !to_report(TransactionWatch { since: w.since, reported: true }, later, limit),
{
}

} // verus!
