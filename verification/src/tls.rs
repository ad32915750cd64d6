//! TLS modes.

use crate::text::{lower, lower_string, str_eq};
use vstd::prelude::*;

verus! {

/// TLS mode for PostgreSQL connections.
#[derive(Debug, Clone, Copy, PartialEq, Eq, Structural)]
pub enum TlsMode {
    /// No TLS (plaintext).
    Disable,
    /// Use TLS if server supports it, fall back to plaintext.
    Prefer,
    /// Require TLS, but don't verify server certificate.
    Require,
}

/// The mode that a word in lower case names.
pub open spec fn mode_of(s: Seq<char>) -> Option<TlsMode> {
    if s == "disable"@ || s == "off"@ || s == "no"@ {
        Some(TlsMode::Disable)
    } else if s == "prefer"@ {
        Some(TlsMode::Prefer)
    } else if s == "require"@ {
        Some(TlsMode::Require)
    } else {
        None
    }
}

/// A word that names no mode.
pub open spec fn unknown_mode(s: Seq<char>) -> Seq<char> {
    "Unknown TLS mode '"@ + s + "'. Use: disable, prefer, require"@
}

/// The mode that a word in lower case names, or what is wrong with it.
pub fn tls_mode_from_lower(s: &str) -> (r: Result<TlsMode, String>)
    ensures
        match mode_of(s@) {
            Some(m) => r == Ok::<TlsMode, String>(m),
            None => r is Err && r->Err_0@ == unknown_mode(s@),
        },
{
    if str_eq(s, "disable") || str_eq(s, "off") || str_eq(s, "no") {
        return Ok(TlsMode::Disable);
    }
    if str_eq(s, "prefer") {
        return Ok(TlsMode::Prefer);
    }
    if str_eq(s, "require") {
        return Ok(TlsMode::Require);
    }
    let mut out = String::new();
    out.push_str("Unknown TLS mode '");
    out.push_str(s);
    out.push_str("'. Use: disable, prefer, require");
    proof {
        assert(out@ =~= unknown_mode(s@));
    }
    Err(out)
}

/// Parse a TLS mode string, in any case.
pub fn parse_tls_mode(s: &str) -> (r: Result<TlsMode, String>)
    ensures
        match mode_of(lower(s@)) {
            Some(m) => r == Ok::<TlsMode, String>(m),
            None => r is Err && r->Err_0@ == unknown_mode(lower(s@)),
        },
{
    let l = lower_string(s);
    tls_mode_from_lower(l.as_str())
}

/// Whether a connection in this mode uses a TLS connector.
pub fn uses_tls(mode: TlsMode) -> (r: bool)
    ensures
        r == (mode != TlsMode::Disable),
{
    mode != TlsMode::Disable
}

} // verus!
