//! Laws of compiling a workload: what counts as a reference to a captured ID.

use crate::correlate::compile::{
    all_queries, compiled_method, reference_at, reference_count, references, referencing_queries,
    response_count, total_references,
};
use crate::profile::{QueryView, SessionView};
use crate::text::{contains, match_at};
use vstd::prelude::*;

verus! {

/// A character that goes on with a word: a letter or a digit of ASCII, or `_`.
pub open spec fn goes_on(c: char) -> bool {
    'a' <= c <= 'z' || 'A' <= c <= 'Z' || '0' <= c <= '9' || c == '_'
}

/// An ID in a text is a reference to it just where it is a whole word: where
/// neither the character before it nor the one behind it goes on with a word.
pub proof fn law_reference_is_a_whole_word(a: Seq<char>, id: Seq<char>, b: Seq<char>)
    ensures
        reference_at(a + id + b, id, a.len() as int) <==> (a.len() == 0 || !goes_on(a.last())) && (b.len() == 0
            || !goes_on(b[0])),
{
    let c = a + id + b;
    let n = a.len() as int;
    let e = n + id.len();
    assert(c.subrange(n, e) =~= id);
    if n > 0 {
        assert(c[n - 1] == a.last());
    }
    if b.len() > 0 {
        assert(c[e] == b[0]);
    }
}

/// The places before `n` at which a text refers to an ID.
pub open spec fn places(sql: Seq<char>, id: Seq<char>, n: int) -> Set<int> {
    Set::new(|i: int| 0 <= i < n && reference_at(sql, id, i))
}

/// The references to an ID are counted at the places where they stand, each
/// once.
pub proof fn law_every_place_counts(sql: Seq<char>, id: Seq<char>, n: int)
    ensures
        places(sql, id, n).finite(),
        places(sql, id, n).len() == reference_count(sql, id, n),
    decreases n,
{
    if n <= 0 {
        assert(places(sql, id, n) =~= Set::empty());
    } else {
        law_every_place_counts(sql, id, n - 1);
        let before = places(sql, id, n - 1);
        if reference_at(sql, id, n - 1) {
            assert(places(sql, id, n) =~= before.insert(n - 1));
        } else {
            assert(places(sql, id, n) =~= before);
        }
    }
}

/// References to several IDs are counted one by one: those of two lists of IDs
/// add up, and those of one ID are its places in the text.
pub proof fn law_references_add_up(sql: Seq<char>, a: Seq<Seq<char>>, b: Seq<Seq<char>>, id: Seq<char>)
    ensures
        references(sql, seq![id], 1) == places(sql, id, sql.len() as int).len(),
        references(sql, a + b, (a + b).len() as int) == references(sql, a, a.len() as int) + references(
            sql,
            b,
            b.len() as int,
        ),
        references(sql, Seq::empty(), 0) == 0,
{
    law_every_place_counts(sql, id, sql.len() as int);
    reveal_with_fuel(references, 2);
    lemma_references_prefix(sql, a, b, a.len() as int);
    lemma_references_behind(sql, a, b, b.len() as int);
}

proof fn lemma_references_prefix(sql: Seq<char>, a: Seq<Seq<char>>, b: Seq<Seq<char>>, n: int)
    requires
        n <= a.len(),
    ensures
        references(sql, a + b, n) == references(sql, a, n),
    decreases n,
{
    if n > 0 {
        lemma_references_prefix(sql, a, b, n - 1);
        assert((a + b)[n - 1] == a[n - 1]);
    }
}

proof fn lemma_references_behind(sql: Seq<char>, a: Seq<Seq<char>>, b: Seq<Seq<char>>, n: int)
    requires
        0 <= n <= b.len(),
    ensures
        references(sql, a + b, a.len() + n) == references(sql, a, a.len() as int) + references(sql, b, n),
    decreases n,
{
    if n > 0 {
        lemma_references_behind(sql, a, b, n - 1);
        assert((a + b)[a.len() + n - 1] == b[n - 1]);
    } else {
        lemma_references_prefix(sql, a, b, a.len() as int);
    }
}

/// A text refers to one of the IDs just where one of them stands in it as a
/// whole word.
pub proof fn law_references_are_seen(sql: Seq<char>, ids: Seq<Seq<char>>, n: int)
    requires
        0 <= n <= ids.len(),
    ensures
        references(sql, ids, n) > 0 <==> exists|k: int, i: int|
            0 <= k < n && 0 <= i < sql.len() && #[trigger] reference_at(sql, ids[k], i),
    decreases n,
{
    if n > 0 {
        law_references_are_seen(sql, ids, n - 1);
        let len = sql.len() as int;
        let last = ids[n - 1];
        law_every_place_counts(sql, last, len);
        let here = places(sql, last, len);
        if reference_count(sql, last, len) > 0 {
            let i = here.choose();
            assert(here.contains(i));
            assert(reference_at(sql, ids[n - 1], i));
        }
        if exists|k: int, i: int| 0 <= k < n && 0 <= i < len && #[trigger] reference_at(sql, ids[k], i) {
            let (k, i) = choose|k: int, i: int|
                0 <= k < n && 0 <= i < len && #[trigger] reference_at(sql, ids[k], i);
            if k == n - 1 {
                assert(here.contains(i));
                assert(here.len() > 0) by {
                    if here.len() == 0 {
                        assert(here =~= Set::empty());
                    }
                }
            } else {
                assert(references(sql, ids, n - 1) > 0);
            }
        }
    }
}

/// The queries that refer to an ID.
pub open spec fn refers(ids: Seq<Seq<char>>) -> spec_fn(QueryView) -> bool {
    |q: QueryView|
        exists|k: int, i: int| 0 <= k < ids.len() && 0 <= i < q.sql.len() && #[trigger] reference_at(q.sql, ids[k], i)
}

/// The queries with captured responses.
pub open spec fn responds() -> spec_fn(QueryView) -> bool {
    |q: QueryView| q.response_values is Some
}

/// The queries with responses, and those that refer to an ID, are counted one by
/// one, and so are the references of all queries.
pub proof fn law_queries_are_counted(qs: Seq<QueryView>, ids: Seq<Seq<char>>)
    ensures
        response_count(qs) == qs.filter(responds()).len(),
        referencing_queries(qs, ids) == qs.filter(refers(ids)).len(),
        referencing_queries(qs, ids) <= total_references(qs, ids),
        total_references(qs, ids) > 0 ==> referencing_queries(qs, ids) > 0,
    decreases qs.len(),
{
    reveal(Seq::filter);
    if qs.len() > 0 {
        law_queries_are_counted(qs.drop_last(), ids);
        law_references_are_seen(qs.last().sql, ids, ids.len() as int);
    }
}

/// The references of queries add up, and those of one query are those of its
/// text.
pub proof fn law_queries_add_up(a: Seq<QueryView>, b: Seq<QueryView>, q: QueryView, ids: Seq<Seq<char>>)
    ensures
        total_references(a + b, ids) == total_references(a, ids) + total_references(b, ids),
        total_references(seq![q], ids) == references(q.sql, ids, ids.len() as int),
    decreases b.len(),
{
    reveal_with_fuel(total_references, 2);
    assert(seq![q].drop_last() =~= Seq::<QueryView>::empty());
    if b.len() > 0 {
        let c = b.drop_last();
        law_queries_add_up(a, c, q, ids);
        assert((a + b).drop_last() =~= a + c);
        assert((a + b).last() == b.last());
    } else {
        assert(a + b =~= a);
    }
}

/// The queries of a workload are those of its sessions, one session behind the
/// other.
pub proof fn law_sessions_stand_in_order(a: Seq<SessionView>, b: Seq<SessionView>, s: SessionView)
    ensures
        all_queries(a + b) == all_queries(a) + all_queries(b),
        all_queries(seq![s]) == s.queries,
    decreases b.len(),
{
    reveal_with_fuel(all_queries, 2);
    assert(seq![s].drop_last() =~= Seq::<SessionView>::empty());
    assert(Seq::<QueryView>::empty() + s.queries =~= s.queries);
    if b.len() > 0 {
        let c = b.drop_last();
        law_sessions_stand_in_order(a, c, s);
        assert((a + b).drop_last() =~= a + c);
        assert((a + b).last() == b.last());
        assert(all_queries(a) + all_queries(c) + b.last().queries =~= all_queries(a) + (all_queries(c)
            + b.last().queries));
    } else {
        assert(a + b =~= a);
        assert(all_queries(a) + Seq::<QueryView>::empty() =~= all_queries(a));
    }
}

/// The method of a compiled workload begins with that of the captured one and
/// says that it was compiled.
pub proof fn law_method_is_marked(m: Seq<char>)
    ensures
        m.is_prefix_of(compiled_method(m)),
        contains(compiled_method(m), "+compiled"@),
        !contains(m, "+compiled"@) ==> compiled_method(m) == m + "+compiled"@,
{
    let c = m + "+compiled"@;
    let n = m.len() as int;
    reveal_strlit("+compiled");
    assert(c.subrange(n, n + 9) =~= "+compiled"@);
    assert(match_at(c, "+compiled"@, n));
    assert(contains(c, "+compiled"@));
    assert(c.subrange(0, n) =~= m);
    assert(m.subrange(0, n) =~= m);
}

} // verus!
