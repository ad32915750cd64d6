//! The map from captured IDs to the IDs that replay generated.

use crate::correlate::substitute::{substitute_ids, substituted, substitution_count};
use dashmap::DashMap;
use std::borrow::Cow;
use vstd::prelude::*;

verus! {

/// `dashmap::DashMap`, the hash map that holds the correlated IDs.
#[verifier::external_type_specification]
#[verifier::external_body]
#[verifier::reject_recursive_types(K)]
#[verifier::reject_recursive_types(V)]
#[verifier::reject_recursive_types(S)]
pub struct ExDashMap<K, V, S>(DashMap<K, V, S>);

/// The entries of a `DashMap` from text to text.
pub uninterp spec fn id_entries(m: DashMap<String, String>) -> Map<Seq<char>, Seq<char>>;

/// The map without entries.
pub open spec fn no_ids() -> Map<Seq<char>, Seq<char>> {
    Map::empty()
}

/// `DashMap::new`: a map without entries.
#[verifier::external_body]
fn map_new() -> (r: DashMap<String, String>)
    ensures
        id_entries(r) == no_ids(),
{
    DashMap::new()
}

/// `DashMap::insert`: the key has the value afterwards, every other entry stays.
/// The map is borrowed mutably so that nobody else writes to it meanwhile.
#[verifier::external_body]
fn map_insert(m: &mut DashMap<String, String>, key: String, value: String)
    ensures
        id_entries(*final(m)) == id_entries(*old(m)).insert(key@, value@),
{
    m.insert(key, value);
}

/// `DashMap::get`: the value of the key, if the map has one. The entries are
/// those at the time of the call.
#[verifier::external_body]
pub(crate) fn map_get(m: &DashMap<String, String>, key: &str) -> (r: Option<String>)
    ensures
        r is Some <==> id_entries(*m).dom().contains(key@),
        r is Some ==> r->0@ == id_entries(*m)[key@],
{
    m.get(key).map(|v| v.value().clone())
}

/// `DashMap::len`: the number of entries.
#[verifier::external_body]
fn map_len(m: &DashMap<String, String>) -> (r: usize)
    ensures
        r == id_entries(*m).dom().len(),
{
    m.len()
}

/// `DashMap::is_empty`: whether the map has no entry.
#[verifier::external_body]
pub(crate) fn map_is_empty(m: &DashMap<String, String>) -> (r: bool)
    ensures
        r == (id_entries(*m) == no_ids()),
{
    m.is_empty()
}

/// The IDs that were captured, each with the ID that replay generated for it.
pub struct IdMap {
    inner: DashMap<String, String>,
}

impl View for IdMap {
    type V = Map<Seq<char>, Seq<char>>;

    closed spec fn view(&self) -> Map<Seq<char>, Seq<char>> {
        id_entries(self.inner)
    }
}

impl IdMap {
    /// A map without entries.
    pub fn new() -> (r: Self)
        ensures
            r@ == no_ids(),
    {
        IdMap { inner: map_new() }
    }

    /// Records that `captured` became `replayed`. A later record replaces an
    /// earlier one.
    pub fn register(&mut self, captured: String, replayed: String)
        ensures
            final(self)@ == old(self)@.insert(captured@, replayed@),
    {
        map_insert(&mut self.inner, captured, replayed);
    }

    /// The ID that stands for `captured`.
    pub fn get(&self, captured: &str) -> (r: Option<String>)
        ensures
            r is Some <==> self@.dom().contains(captured@),
            r is Some ==> r->0@ == self@[captured@],
    {
        map_get(&self.inner, captured)
    }

    /// The number of recorded IDs.
    pub fn len(&self) -> (r: usize)
        ensures
            r == self@.dom().len(),
    {
        map_len(&self.inner)
    }

    /// Whether nothing was recorded.
    pub fn is_empty(&self) -> (r: bool)
        ensures
            r == (self@ == no_ids()),
    {
        map_is_empty(&self.inner)
    }

    /// Replaces captured IDs in SQL, with the count of replacements.
    pub fn substitute<'a>(&self, sql: &'a str) -> (r: (Cow<'a, str>, usize))
        ensures
            r.0@ == substituted(sql@, self@),
            r.1 == substitution_count(sql@, self@),
            r.0 is Borrowed <==> r.1 == 0,
    {
        substitute_ids(sql, &self.inner)
    }
}

/// A lookup gives back what was registered last under the ID, and registering
/// one ID changes no other.
pub proof fn law_register_then_get(before: IdMap, after: IdMap, captured: Seq<char>, replayed: Seq<char>, other: Seq<char>)
    requires
        after@ == before@.insert(captured, replayed),
    ensures
        after@.dom().contains(captured),
        after@[captured] == replayed,
        other != captured ==> (after@.dom().contains(other) <==> before@.dom().contains(other)),
        other != captured && before@.dom().contains(other) ==> after@[other] == before@[other],
{
}

} // verus!
