//! The limit on connections from one address.

use dashmap::DashMap;
use vstd::prelude::*;

verus! {

/// The counts of a `DashMap` from address to number of connections.
pub uninterp spec fn address_counts(m: DashMap<String, u32>) -> Map<Seq<char>, u32>;

/// No address has a connection.
pub open spec fn no_connections() -> Map<Seq<char>, u32> {
    Map::empty()
}

/// `DashMap::new`: a map without entries.
#[verifier::external_body]
fn counts_new() -> (r: DashMap<String, u32>)
    ensures
        address_counts(r) == no_connections(),
{
    DashMap::new()
}

/// `DashMap::get`: the value of the key, if the map has one. The entries are
/// those at the time of the call.
#[verifier::external_body]
fn counts_get(m: &DashMap<String, u32>, key: &str) -> (r: Option<u32>)
    ensures
        r is Some <==> address_counts(*m).dom().contains(key@),
        r is Some ==> r->0 == address_counts(*m)[key@],
{
    m.get(key).map(|v| *v.value())
}

/// `DashMap::insert`: the key has the value afterwards, every other entry stays.
/// The map is borrowed mutably so that nobody else writes to it meanwhile.
#[verifier::external_body]
fn counts_insert(m: &mut DashMap<String, u32>, key: &str, value: u32)
    ensures
        address_counts(*final(m)) == address_counts(*old(m)).insert(key@, value),
{
    m.insert(key.to_owned(), value);
}

/// `DashMap::remove`: the key has no entry afterwards, every other entry stays.
/// The map is borrowed mutably so that nobody else writes to it meanwhile.
#[verifier::external_body]
fn counts_remove(m: &mut DashMap<String, u32>, key: &str)
    ensures
        address_counts(*final(m)) == address_counts(*old(m)).remove(key@),
{
    m.remove(key);
}

/// Concurrent connections per address. An address without connections has no
/// entry.
pub struct IpConnections {
    counts: DashMap<String, u32>,
}

/// What a listener does with a new connection.
#[derive(Debug, Clone, Copy, PartialEq, Eq, Structural)]
pub enum Admission {
    /// The connection is served and counted.
    Accepted,
    /// The connection is refused: it would have been the given one.
    Rejected(u64),
}

/// The number of connections of an address.
pub open spec fn connections_of(m: Map<Seq<char>, u32>, ip: Seq<char>) -> nat {
    if m.dom().contains(ip) {
        m[ip] as nat
    } else {
        0
    }
}

/// Whether a new connection is served. No limit is set with zero.
pub open spec fn admission(m: Map<Seq<char>, u32>, ip: Seq<char>, max: u32) -> Admission {
    if max > 0 && connections_of(m, ip) + 1 > max {
        Admission::Rejected((connections_of(m, ip) + 1) as u64)
    } else {
        Admission::Accepted
    }
}

/// The counts with one more connection of an address, if there is a limit at
/// all and the connection is served.
pub open spec fn admitted(m: Map<Seq<char>, u32>, ip: Seq<char>, max: u32) -> Map<Seq<char>, u32> {
    if max > 0 && admission(m, ip, max) is Accepted {
        m.insert(ip, (connections_of(m, ip) + 1) as u32)
    } else {
        m
    }
}

/// The counts with one connection of an address fewer; the last one takes the
/// entry away.
pub open spec fn departed(m: Map<Seq<char>, u32>, ip: Seq<char>) -> Map<Seq<char>, u32> {
    if !m.dom().contains(ip) {
        m
    } else if m[ip] <= 1 {
        m.remove(ip)
    } else {
        m.insert(ip, (m[ip] - 1) as u32)
    }
}

impl View for IpConnections {
    type V = Map<Seq<char>, u32>;

    closed spec fn view(&self) -> Map<Seq<char>, u32> {
        address_counts(self.counts)
    }
}

impl IpConnections {
    pub fn new() -> (r: Self)
        ensures
            r@ == no_connections(),
    {
        IpConnections { counts: counts_new() }
    }

    /// The number of connections of an address.
    pub fn count(&self, ip: &str) -> (r: u32)
        ensures
            r == connections_of(self@, ip@),
    {
        match counts_get(&self.counts, ip) {
            Some(n) => n,
            None => 0,
        }
    }

    /// Whether the address has an entry.
    pub fn tracks(&self, ip: &str) -> (r: bool)
        ensures
            r == self@.dom().contains(ip@),
    {
        counts_get(&self.counts, ip).is_some()
    }

    /// Decides on a new connection and counts it if it is served.
    pub fn accept(&mut self, ip: &str, max_connections_per_ip: u32) -> (r: Admission)
        ensures
            r == admission(old(self)@, ip@, max_connections_per_ip),
            final(self)@ == admitted(old(self)@, ip@, max_connections_per_ip),
    {
        if max_connections_per_ip == 0 {
            return Admission::Accepted;
        }
        let n = self.count(ip);
        if n >= max_connections_per_ip {
            return Admission::Rejected((n as u64) + 1);
        }
        counts_insert(&mut self.counts, ip, n + 1);
        Admission::Accepted
    }

    /// A counted connection has ended.
    pub fn release(&mut self, ip: &str)
        ensures
            final(self)@ == departed(old(self)@, ip@),
    {
        match counts_get(&self.counts, ip) {
            Some(n) => if n <= 1 {
                counts_remove(&mut self.counts, ip);
            } else {
                counts_insert(&mut self.counts, ip, n - 1);
            },
            None => {},
        }
    }
}

/// No address has more connections than the limit, and every entry counts at
/// least one.
pub open spec fn limit_kept(m: Map<Seq<char>, u32>, max: u32) -> bool {
    forall|ip: Seq<char>| #[trigger] m.dom().contains(ip) ==> 1 <= m[ip] <= max
}

/// Serving and ending connections keep the limit.
pub proof fn law_limit_is_kept(m: Map<Seq<char>, u32>, ip: Seq<char>, max: u32)
    requires
        limit_kept(m, max),
    ensures
        limit_kept(admitted(m, ip, max), max),
        limit_kept(departed(m, ip), max),
{
}

/// The end of a served connection undoes its count.
pub proof fn law_release_undoes_accept(m: Map<Seq<char>, u32>, ip: Seq<char>, max: u32)
    requires
        limit_kept(m, max),
        max > 0,
        admission(m, ip, max) is Accepted,
    ensures
        departed(admitted(m, ip, max), ip) == m,
{
    assert(departed(admitted(m, ip, max), ip) =~= m);
}

} // verus!
