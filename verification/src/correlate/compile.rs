//! Compilation of a workload: captured responses are checked and removed, so
//! that it replays without ID handling.

use crate::correlate::capture::{row_views, ResponseRow, RowView};
use crate::profile::{
    query_count, query_views, session_views, ProfileView, Query, QueryView, Session, SessionView,
    WorkloadProfile,
};
use crate::text::{
    char_is_ascii_letter, char_is_digit, contains, copy_string, is_ascii_letter, is_digit, is_match_at,
    match_at, str_contains, str_eq, to_chars,
};
use vstd::prelude::*;

verus! {

#[derive(Debug, Clone, Copy, PartialEq, Eq, Structural)]
pub struct CompileStats {
    pub queries_with_responses: usize,
    pub unique_captured_ids: usize,
    pub queries_referencing_ids: usize,
    pub total_id_references: usize,
}

/// The workload holds no captured responses.
#[derive(Debug, Clone, Copy, PartialEq, Eq, Structural)]
pub struct NoResponses;

impl NoResponses {
    pub fn message(&self) -> (r: &'static str)
        ensures
            r@ == "No response_values found in workload. Capture with --id-mode=correlate or --id-mode=full to enable compilation."@,
    {
        "No response_values found in workload. Capture with --id-mode=correlate or --id-mode=full to enable compilation."
    }
}

// ── Captured IDs ────────────────────────────────────────────────────

/// The texts with one more, unless they hold it already.
pub open spec fn with_id(ids: Seq<Seq<char>>, id: Seq<char>) -> Seq<Seq<char>> {
    if ids.contains(id) {
        ids
    } else {
        ids.push(id)
    }
}

/// The texts with the values of the first `n` columns of a row.
pub open spec fn ids_of_row(ids: Seq<Seq<char>>, row: RowView, n: int) -> Seq<Seq<char>>
    decreases n,
{
    if n <= 0 {
        ids
    } else {
        with_id(ids_of_row(ids, row, n - 1), row[n - 1].1)
    }
}

/// The texts with the values of the first `n` rows.
pub open spec fn ids_of_rows(ids: Seq<Seq<char>>, rows: Seq<RowView>, n: int) -> Seq<Seq<char>>
    decreases n,
{
    if n <= 0 {
        ids
    } else {
        ids_of_row(ids_of_rows(ids, rows, n - 1), rows[n - 1], rows[n - 1].len() as int)
    }
}

/// The texts with the values that a query's responses hold.
pub open spec fn ids_of_query(ids: Seq<Seq<char>>, q: QueryView) -> Seq<Seq<char>> {
    match q.response_values {
        Some(rows) => ids_of_rows(ids, rows, rows.len() as int),
        None => ids,
    }
}

/// All queries of a workload, one session behind the other.
pub open spec fn all_queries(s: Seq<SessionView>) -> Seq<QueryView>
    decreases s.len(),
{
    if s.len() == 0 {
        Seq::empty()
    } else {
        all_queries(s.drop_last()) + s.last().queries
    }
}

/// The captured IDs of the queries, each once, in order of appearance.
pub open spec fn known_ids(qs: Seq<QueryView>) -> Seq<Seq<char>>
    decreases qs.len(),
{
    if qs.len() == 0 {
        Seq::empty()
    } else {
        ids_of_query(known_ids(qs.drop_last()), qs.last())
    }
}

/// The number of queries with captured responses.
pub open spec fn response_count(qs: Seq<QueryView>) -> nat
    decreases qs.len(),
{
    if qs.len() == 0 {
        0
    } else {
        response_count(qs.drop_last()) + (if qs.last().response_values is Some { 1nat } else { 0nat })
    }
}

// ── References ──────────────────────────────────────────────────────

/// A character of a word.
pub open spec fn is_word_char(c: char) -> bool {
    is_ascii_letter(c) || is_digit(c) || c == '_'
}

/// Whether the ID stands at `i` as a word of its own.
pub open spec fn reference_at(sql: Seq<char>, id: Seq<char>, i: int) -> bool {
    &&& match_at(sql, id, i)
    &&& i == 0 || !is_word_char(sql[i - 1])
    &&& i + id.len() >= sql.len() || !is_word_char(sql[i + id.len()])
}

/// The number of references to the ID that begin before `n`.
pub open spec fn reference_count(sql: Seq<char>, id: Seq<char>, n: int) -> nat
    decreases n,
{
    if n <= 0 {
        0
    } else {
        reference_count(sql, id, n - 1) + (if reference_at(sql, id, n - 1) { 1nat } else { 0nat })
    }
}

/// The number of references to the first `n` IDs.
pub open spec fn references(sql: Seq<char>, ids: Seq<Seq<char>>, n: int) -> nat
    decreases n,
{
    if n <= 0 {
        0
    } else {
        references(sql, ids, n - 1) + reference_count(sql, ids[n - 1], sql.len() as int)
    }
}

/// The references of all queries.
pub open spec fn total_references(qs: Seq<QueryView>, ids: Seq<Seq<char>>) -> nat
    decreases qs.len(),
{
    if qs.len() == 0 {
        0
    } else {
        total_references(qs.drop_last(), ids) + references(qs.last().sql, ids, ids.len() as int)
    }
}

/// The number of queries that refer to an ID.
pub open spec fn referencing_queries(qs: Seq<QueryView>, ids: Seq<Seq<char>>) -> nat
    decreases qs.len(),
{
    if qs.len() == 0 {
        0
    } else {
        referencing_queries(qs.drop_last(), ids) + (if references(qs.last().sql, ids, ids.len() as int) > 0 {
            1nat
        } else {
            0nat
        })
    }
}

// ── Compilation ─────────────────────────────────────────────────────

/// A query without its responses.
pub open spec fn stripped_query(q: QueryView) -> QueryView {
    QueryView { response_values: None, ..q }
}

/// A session whose queries have no responses.
pub open spec fn stripped_session(s: SessionView) -> SessionView {
    SessionView { queries: Seq::new(s.queries.len(), |i: int| stripped_query(s.queries[i])), ..s }
}

/// The mark of a compiled workload.
pub open spec fn compiled_mark() -> Seq<char> {
    "+compiled"@
}

/// The capture method of the compiled workload: marked once.
pub open spec fn compiled_method(m: Seq<char>) -> Seq<char> {
    if contains(m, compiled_mark()) {
        m
    } else {
        m + compiled_mark()
    }
}

/// The compiled workload.
pub open spec fn compiled(p: ProfileView) -> ProfileView {
    ProfileView {
        sessions: Seq::new(p.sessions.len(), |i: int| stripped_session(p.sessions[i])),
        capture_method: compiled_method(p.capture_method),
        ..p
    }
}

/// Whether the counts are those of a workload: of its queries with responses,
/// of the distinct captured IDs, of the queries that refer to one, and of the
/// references.
pub open spec fn counts_match(stats: CompileStats, p: ProfileView) -> bool {
    let qs = all_queries(p.sessions);
    let ids = known_ids(qs);
    &&& stats.queries_with_responses as nat == response_count(qs)
    &&& stats.unique_captured_ids as nat == ids.len()
    &&& stats.queries_referencing_ids as nat == referencing_queries(qs, ids)
    &&& stats.total_id_references as nat == total_references(qs, ids)
}

/// Whether a list of texts holds one.
fn has_text(ids: &Vec<String>, id: &str) -> (r: bool)
    ensures
        r == crate::text::views(ids@).contains(id@),
{
    let ghost v = crate::text::views(ids@);
    for i in 0..ids.len()
        invariant
            v == crate::text::views(ids@),
            forall|k: int| 0 <= k < i ==> v[k] != id@,
    {
        if str_eq(ids[i].as_str(), id) {
            proof {
                assert(v[i as int] == id@);
            }
            return true;
        }
    }
    proof {
        assert(!v.contains(id@));
    }
    false
}

fn collect_row(ids: &mut Vec<String>, row: &ResponseRow)
    ensures
        crate::text::views(final(ids)@) == ids_of_row(crate::text::views(old(ids)@), row@, row@.len() as int),
{
    let ghost start = crate::text::views(ids@);
    for i in 0..row.columns.len()
        invariant
            start == crate::text::views(old(ids)@),
            crate::text::views(ids@) == ids_of_row(start, row@, i as int),
    {
        let ghost before = crate::text::views(ids@);
        proof {
            assert(row@[i as int].1 == row.columns@[i as int].1@);
        }
        if !has_text(ids, row.columns[i].1.as_str()) {
            ids.push(copy_string(row.columns[i].1.as_str()));
            proof {
                assert(crate::text::views(ids@) =~= before.push(row@[i as int].1));
            }
        }
    }
}

fn collect_query(ids: &mut Vec<String>, q: &Query)
    ensures
        crate::text::views(final(ids)@) == ids_of_query(crate::text::views(old(ids)@), q@),
{
    if let Some(rows) = &q.response_values {
        let ghost start = crate::text::views(ids@);
        for i in 0..rows.len()
            invariant
                start == crate::text::views(old(ids)@),
                crate::text::views(ids@) == ids_of_rows(start, row_views(rows@), i as int),
        {
            collect_row(ids, &rows[i]);
        }
    }
}

fn is_word(c: char) -> (r: bool)
    ensures
        r == is_word_char(c),
{
    char_is_ascii_letter(c) || char_is_digit(c) || c == '_'
}

fn count_references(sql: &[char], id: &[char]) -> (r: usize)
    ensures
        r == reference_count(sql@, id@, sql@.len() as int),
        r <= sql@.len(),
{
    let n: usize = sql.len();
    let mut count: usize = 0;
    for i in 0..n
        invariant
            n == sql@.len(),
            count == reference_count(sql@, id@, i as int),
            count <= i,
    {
        if is_match_at(sql, id, i) && (i == 0 || !is_word(sql[i - 1])) && (id.len() >= n - i || !is_word(
            sql[i + id.len()],
        )) {
            count = count + 1;
        }
    }
    count
}

/// The references of a query to all IDs, at most the greatest `usize`.
fn count_query_references(sql: &str, ids: &Vec<String>) -> (r: Option<usize>)
    ensures
        r is Some <==> references(sql@, crate::text::views(ids@), ids@.len() as int) <= usize::MAX,
        r is Some ==> r->0 == references(sql@, crate::text::views(ids@), ids@.len() as int),
{
    let c = to_chars(sql);
    let ghost v = crate::text::views(ids@);
    let mut total: usize = 0;
    for i in 0..ids.len()
        invariant
            c@ == sql@,
            v == crate::text::views(ids@),
            total == references(sql@, v, i as int),
    {
        let id = to_chars(ids[i].as_str());
        let n = count_references(&c, &id);
        proof {
            lemma_references_grow(sql@, v, i + 1, v.len() as int);
        }
        match total.checked_add(n) {
            Some(t) => {
                total = t;
            },
            None => {
                return None;
            },
        }
    }
    Some(total)
}

proof fn lemma_references_grow(sql: Seq<char>, ids: Seq<Seq<char>>, m: int, n: int)
    requires
        m <= n,
    ensures
        references(sql, ids, m) <= references(sql, ids, n),
    decreases n - m,
{
    if m < n {
        lemma_references_grow(sql, ids, m, n - 1);
    }
}

proof fn lemma_totals_take(qs: Seq<QueryView>, ids: Seq<Seq<char>>, n: int)
    requires
        0 <= n <= qs.len(),
    ensures
        total_references(qs.take(n), ids) <= total_references(qs, ids),
    decreases qs.len() - n,
{
    if n == qs.len() {
        assert(qs.take(n) =~= qs);
    } else {
        lemma_totals_take(qs, ids, n + 1);
        assert(qs.take(n + 1).drop_last() =~= qs.take(n));
    }
}

proof fn lemma_counts_bounded(qs: Seq<QueryView>, ids: Seq<Seq<char>>)
    ensures
        response_count(qs) <= qs.len(),
        referencing_queries(qs, ids) <= qs.len(),
    decreases qs.len(),
{
    if qs.len() > 0 {
        lemma_counts_bounded(qs.drop_last(), ids);
    }
}

pub proof fn lemma_all_queries_len(s: Seq<SessionView>)
    ensures
        all_queries(s).len() == query_count(s),
    decreases s.len(),
{
    if s.len() > 0 {
        lemma_all_queries_len(s.drop_last());
    }
}

/// The queries of the sessions before `i` and the first `j` of session `i`.
spec fn queries_before(s: Seq<SessionView>, i: int, j: int) -> Seq<QueryView> {
    all_queries(s.take(i)) + s[i].queries.take(j)
}

proof fn lemma_queries_before(s: Seq<SessionView>, i: int, j: int)
    requires
        0 <= i < s.len(),
        0 <= j < s[i].queries.len(),
    ensures
        queries_before(s, i, j + 1).drop_last() == queries_before(s, i, j),
        queries_before(s, i, j + 1).last() == s[i].queries[j],
        queries_before(s, i, j + 1).len() > 0,
        queries_before(s, i, j).len() < query_count(s),
{
    assert(queries_before(s, i, j + 1).drop_last() =~= queries_before(s, i, j));
    lemma_all_queries_len(s.take(i));
    crate::profile::lemma_query_count_take(s, i + 1);
    assert(s.take(i + 1).drop_last() =~= s.take(i));
}

proof fn lemma_session_done(s: Seq<SessionView>, i: int)
    requires
        0 <= i < s.len(),
    ensures
        queries_before(s, i, s[i].queries.len() as int) == all_queries(s.take(i + 1)),
        queries_before(s, i, 0) == all_queries(s.take(i)),
{
    assert(s.take(i + 1).drop_last() =~= s.take(i));
    assert(s[i].queries.take(s[i].queries.len() as int) =~= s[i].queries);
    assert(queries_before(s, i, 0) =~= all_queries(s.take(i)));
}

proof fn lemma_prefix_totals(s: Seq<SessionView>, i: int, j: int, ids: Seq<Seq<char>>)
    requires
        0 <= i < s.len(),
        0 <= j <= s[i].queries.len(),
    ensures
        total_references(queries_before(s, i, j), ids) <= total_references(all_queries(s), ids),
{
    let all = all_queries(s);
    let pre = queries_before(s, i, j);
    lemma_prefix(s, i, j);
    assert(all.take(pre.len() as int) =~= pre);
    lemma_totals_take(all, ids, pre.len() as int);
}

proof fn lemma_prefix(s: Seq<SessionView>, i: int, j: int)
    requires
        0 <= i < s.len(),
        0 <= j <= s[i].queries.len(),
    ensures
        queries_before(s, i, j).len() <= all_queries(s).len(),
        all_queries(s).take(queries_before(s, i, j).len() as int) == queries_before(s, i, j),
    decreases s.len() - i,
{
    let pre = queries_before(s, i, j);
    if i + 1 == s.len() {
        assert(s.take(i) =~= s.drop_last());
        assert(all_queries(s).take(pre.len() as int) =~= pre);
    } else {
        lemma_prefix(s, i + 1, 0);
        lemma_session_done(s, i);
        lemma_session_done(s, i + 1);
        let next = all_queries(s.take(i + 1));
        assert(next == all_queries(s.take(i)) + s[i].queries) by {
            assert(s.take(i + 1).drop_last() =~= s.take(i));
        }
        assert(next.take(pre.len() as int) =~= pre);
        assert(all_queries(s).take(pre.len() as int) =~= all_queries(s).take(next.len() as int).take(
            pre.len() as int,
        ));
    }
}

/// The captured IDs of a workload and the number of queries with responses.
fn collect_ids(sessions: &Vec<Session>) -> (r: (Vec<String>, usize))
    requires
        query_count(session_views(sessions@)) <= usize::MAX,
    ensures
        crate::text::views(r.0@) == known_ids(all_queries(session_views(sessions@))),
        r.1 == response_count(all_queries(session_views(sessions@))),
{
    let ghost s = session_views(sessions@);
    let mut ids: Vec<String> = Vec::new();
    let mut with: usize = 0;
    proof {
        assert(crate::text::views(ids@) =~= known_ids(all_queries(s.take(0))));
    }
    for i in 0..sessions.len()
        invariant
            s == session_views(sessions@),
            query_count(s) <= usize::MAX,
            crate::text::views(ids@) == known_ids(all_queries(s.take(i as int))),
            with == response_count(all_queries(s.take(i as int))),
    {
        let n = sessions[i].queries.len();
        proof {
            lemma_session_done(s, i as int);
        }
        for j in 0..n
            invariant
                i < s.len(),
                s == session_views(sessions@),
                query_count(s) <= usize::MAX,
                n == s[i as int].queries.len(),
                crate::text::views(ids@) == known_ids(queries_before(s, i as int, j as int)),
                with == response_count(queries_before(s, i as int, j as int)),
        {
            let q = &sessions[i].queries[j];
            proof {
                assert(q@ == s[i as int].queries[j as int]);
                lemma_queries_before(s, i as int, j as int);
                lemma_counts_bounded(queries_before(s, i as int, j as int), Seq::empty());
            }
            collect_query(&mut ids, q);
            if q.response_values.is_some() {
                with = with + 1;
            }
        }
    }
    proof {
        assert(s.take(s.len() as int) =~= s);
    }
    (ids, with)
}

/// The number of queries with references, and the number of references.
fn count_all_references(sessions: &Vec<Session>, ids: &Vec<String>) -> (r: (usize, usize))
    requires
        query_count(session_views(sessions@)) <= usize::MAX,
        total_references(all_queries(session_views(sessions@)), crate::text::views(ids@)) <= usize::MAX,
    ensures
        r.0 == referencing_queries(all_queries(session_views(sessions@)), crate::text::views(ids@)),
        r.1 == total_references(all_queries(session_views(sessions@)), crate::text::views(ids@)),
{
    let ghost s = session_views(sessions@);
    let ghost v = crate::text::views(ids@);
    let mut queries: usize = 0;
    let mut total: usize = 0;
    for i in 0..sessions.len()
        invariant
            s == session_views(sessions@),
            v == crate::text::views(ids@),
            query_count(s) <= usize::MAX,
            total_references(all_queries(s), v) <= usize::MAX,
            queries == referencing_queries(all_queries(s.take(i as int)), v),
            total == total_references(all_queries(s.take(i as int)), v),
    {
        let n = sessions[i].queries.len();
        proof {
            lemma_session_done(s, i as int);
        }
        for j in 0..n
            invariant
                i < s.len(),
                s == session_views(sessions@),
                v == crate::text::views(ids@),
                query_count(s) <= usize::MAX,
                total_references(all_queries(s), v) <= usize::MAX,
                n == s[i as int].queries.len(),
                queries == referencing_queries(queries_before(s, i as int, j as int), v),
                total == total_references(queries_before(s, i as int, j as int), v),
        {
            let q = &sessions[i].queries[j];
            proof {
                assert(q@ == s[i as int].queries[j as int]);
                lemma_queries_before(s, i as int, j as int);
                lemma_prefix_totals(s, i as int, j + 1, v);
                lemma_counts_bounded(queries_before(s, i as int, j as int), v);
            }
            if let Some(refs) = count_query_references(q.sql.as_str(), ids) {
                if refs > 0 {
                    queries = queries + 1;
                    total = total + refs;
                }
            }
        }
    }
    proof {
        assert(s.take(s.len() as int) =~= s);
    }
    (queries, total)
}

fn strip_session(session: Session) -> (r: Session)
    ensures
        r@ == stripped_session(session@),
{
    let ghost want = stripped_session(session@).queries;
    let mut queries = session.queries;
    let ghost old_queries = query_views(queries@);
    let n = queries.len();
    let mut i: usize = 0;
    while i < n
        invariant
            i <= n,
            n == queries@.len(),
            n == old_queries.len(),
            want == Seq::new(old_queries.len(), |k: int| stripped_query(old_queries[k])),
            forall|k: int| 0 <= k < i ==> (#[trigger] queries@[k])@ == want[k],
            forall|k: int| i <= k < n ==> (#[trigger] queries@[k])@ == old_queries[k],
        decreases n - i,
    {
        let ghost before = queries@;
        queries[i].response_values = None;
        proof {
            assert(queries@[i as int]@ == want[i as int]);
            assert forall|k: int| 0 <= k < i + 1 implies (#[trigger] queries@[k])@ == want[k] by {
                if k < i {
                    assert(queries@[k] == before[k]);
                }
            }
            assert forall|k: int| i + 1 <= k < n implies (#[trigger] queries@[k])@ == old_queries[k] by {
                assert(queries@[k] == before[k]);
            }
        }
        i = i + 1;
    }
    proof {
        assert(query_views(queries@) =~= want);
    }
    Session { id: session.id, user: session.user, database: session.database, queries }
}

/// Compile a workload by stripping response_values and counting references to
/// captured IDs. The compiled workload replays without ID handling.
pub fn compile_workload(profile: WorkloadProfile) -> (r: Result<(WorkloadProfile, CompileStats), NoResponses>)
    requires
        query_count(profile@.sessions) <= usize::MAX,
        total_references(all_queries(profile@.sessions), known_ids(all_queries(profile@.sessions))) <= usize::MAX,
    ensures
        r is Ok <==> response_count(all_queries(profile@.sessions)) > 0,
        r matches Ok((p, stats)) ==> p@ == compiled(profile@) && counts_match(stats, profile@),
{
    let ghost pv = profile@;
    let (ids, with) = collect_ids(&profile.sessions);
    if with == 0 {
        return Err(NoResponses);
    }
    let (referencing, total) = count_all_references(&profile.sessions, &ids);
    let stats = CompileStats {
        queries_with_responses: with,
        unique_captured_ids: ids.len(),
        queries_referencing_ids: referencing,
        total_id_references: total,
    };
    let mut sessions: Vec<Session> = Vec::new();
    for s in it: profile.sessions
        invariant
            pv.sessions == session_views(it.seq()),
            sessions@.len() == it.index(),
            forall|k: int|
                0 <= k < it.index() ==> (#[trigger] sessions@[k])@ == stripped_session(pv.sessions[k]),
    {
        proof {
            assert(s@ == pv.sessions[it.index() as int]);
        }
        sessions.push(strip_session(s));
    }
    let mut method = profile.capture_method;
    if !str_contains(method.as_str(), "+compiled") {
        method.push_str("+compiled");
    }
    let compiled_profile = WorkloadProfile {
        version: profile.version,
        captured_at: profile.captured_at,
        source_host: profile.source_host,
        pg_version: profile.pg_version,
        capture_method: method,
        source_dialect: profile.source_dialect,
        sessions,
        metadata: profile.metadata,
    };
    proof {
        assert(compiled_profile@.sessions =~= compiled(pv).sessions);
    }
    Ok((compiled_profile, stats))
}

// ── Laws ────────────────────────────────────────────────────────────

proof fn lemma_stripped_has_no_responses(s: Seq<SessionView>)
    requires
        forall|i: int, j: int|
            0 <= i < s.len() && 0 <= j < s[i].queries.len() ==> (#[trigger] s[i].queries[j]).response_values is None,
    ensures
        response_count(all_queries(s)) == 0,
    decreases s.len(),
{
    if s.len() > 0 {
        let p = s.drop_last();
        assert forall|i: int, j: int| 0 <= i < p.len() && 0 <= j < p[i].queries.len() implies (
        #[trigger] p[i].queries[j]).response_values is None by {
            assert(s[i].queries[j].response_values is None);
        }
        lemma_stripped_has_no_responses(p);
        let last = s.len() - 1;
        assert forall|j: int| 0 <= j < s[last].queries.len() implies (#[trigger] s[last].queries[j]).response_values is None by {}
        lemma_no_more_responses(all_queries(p), s.last().queries);
    }
}

proof fn lemma_no_more_responses(a: Seq<QueryView>, b: Seq<QueryView>)
    requires
        forall|j: int| 0 <= j < b.len() ==> (#[trigger] b[j]).response_values is None,
    ensures
        response_count(a + b) == response_count(a),
    decreases b.len(),
{
    if b.len() == 0 {
        assert(a + b =~= a);
    } else {
        assert((a + b).drop_last() =~= a + b.drop_last());
        assert((a + b).last() == b[b.len() - 1]);
        assert forall|j: int| 0 <= j < b.drop_last().len() implies (#[trigger] b.drop_last()[j]).response_values is None by {
            assert(b.drop_last()[j] == b[j]);
        }
        lemma_no_more_responses(a, b.drop_last());
    }
}

/// Whether a workload holds captured responses.
pub open spec fn has_responses(s: Seq<SessionView>) -> bool {
    exists|i: int, j: int|
        0 <= i < s.len() && 0 <= j < s[i].queries.len() && (#[trigger] s[i].queries[j]).response_values is Some
}

proof fn lemma_counted_response(qs: Seq<QueryView>, k: int)
    requires
        0 <= k < qs.len(),
        qs[k].response_values is Some,
    ensures
        response_count(qs) > 0,
    decreases qs.len(),
{
    if k < qs.len() - 1 {
        lemma_counted_response(qs.drop_last(), k);
    }
}

proof fn lemma_query_listed(s: Seq<SessionView>, i: int, j: int) -> (k: int)
    requires
        0 <= i < s.len(),
        0 <= j < s[i].queries.len(),
    ensures
        0 <= k < all_queries(s).len(),
        all_queries(s)[k] == s[i].queries[j],
    decreases s.len(),
{
    let p = s.drop_last();
    if i < p.len() {
        lemma_query_listed(p, i, j)
    } else {
        all_queries(p).len() + j
    }
}

/// A workload is refused just where no query has captured responses.
pub proof fn law_refused_without_responses(s: Seq<SessionView>)
    ensures
        response_count(all_queries(s)) > 0 <==> has_responses(s),
{
    if has_responses(s) {
        let (i, j) = choose|i: int, j: int|
            0 <= i < s.len() && 0 <= j < s[i].queries.len() && (#[trigger] s[i].queries[j]).response_values is Some;
        let k = lemma_query_listed(s, i, j);
        lemma_counted_response(all_queries(s), k);
    } else {
        lemma_stripped_has_no_responses(s);
    }
}

proof fn lemma_nothing_known(qs: Seq<QueryView>)
    requires
        response_count(qs) == 0,
    ensures
        known_ids(qs) == Seq::<Seq<char>>::empty(),
    decreases qs.len(),
{
    if qs.len() > 0 {
        lemma_nothing_known(qs.drop_last());
    }
}

proof fn lemma_no_references(qs: Seq<QueryView>)
    ensures
        total_references(qs, Seq::<Seq<char>>::empty()) == 0,
    decreases qs.len(),
{
    if qs.len() > 0 {
        lemma_no_references(qs.drop_last());
    }
}

proof fn lemma_stripped_count(s: Seq<SessionView>, t: Seq<SessionView>)
    requires
        s.len() == t.len(),
        forall|i: int| 0 <= i < s.len() ==> (#[trigger] t[i]).queries.len() == s[i].queries.len(),
    ensures
        query_count(t) == query_count(s),
    decreases s.len(),
{
    if s.len() > 0 {
        assert forall|i: int| 0 <= i < s.len() - 1 implies (#[trigger] t.drop_last()[i]).queries.len()
            == s.drop_last()[i].queries.len() by {
            assert(t[i].queries.len() == s[i].queries.len());
        }
        lemma_stripped_count(s.drop_last(), t.drop_last());
        assert(t[t.len() - 1].queries.len() == s[s.len() - 1].queries.len());
    }
}

/// Compiling a compiled workload is possible, and refused.
pub proof fn law_compiled_is_refused(p: ProfileView)
    ensures
        query_count(compiled(p).sessions) == query_count(p.sessions),
        ({
            let qs = all_queries(compiled(p).sessions);
            total_references(qs, known_ids(qs)) == 0 && response_count(qs) == 0
        }),
        !has_responses(compiled(p).sessions),
{
    let qs = all_queries(compiled(p).sessions);
    law_compiled_has_no_responses(p);
    law_refused_without_responses(compiled(p).sessions);
    lemma_nothing_known(qs);
    lemma_no_references(qs);
    lemma_stripped_count(p.sessions, compiled(p).sessions);
}

/// A compiled workload holds no responses, so compiling it again is refused.
pub proof fn law_compiled_has_no_responses(p: ProfileView)
    ensures
        response_count(all_queries(compiled(p).sessions)) == 0,
{
    let s = compiled(p).sessions;
    assert forall|i: int, j: int| 0 <= i < s.len() && 0 <= j < s[i].queries.len() implies (
    #[trigger] s[i].queries[j]).response_values is None by {
        assert(s[i] == stripped_session(p.sessions[i]));
    }
    lemma_stripped_has_no_responses(s);
}

/// Compilation keeps every query but its responses: text, times, kind and
/// transaction.
pub proof fn law_compiled_keeps_queries(p: ProfileView, i: int, j: int)
    requires
        0 <= i < p.sessions.len(),
        0 <= j < p.sessions[i].queries.len(),
    ensures
        compiled(p).sessions.len() == p.sessions.len(),
        compiled(p).sessions[i].queries.len() == p.sessions[i].queries.len(),
        compiled(p).sessions[i].queries[j] == (QueryView {
            response_values: None,
            ..p.sessions[i].queries[j]
        }),
{
}

/// The mark is put on once: compiling a marked method does not change it.
pub proof fn law_marked_once(m: Seq<char>)
    ensures
        compiled_method(compiled_method(m)) == compiled_method(m),
{
    if !contains(m, compiled_mark()) {
        let c = m + compiled_mark();
        assert(c.subrange(m.len() as int, (m.len() + compiled_mark().len()) as int) =~= compiled_mark());
        assert(match_at(c, compiled_mark(), m.len() as int));
    }
}

/// Whether a text is a value that the responses of queries hold.
pub open spec fn is_captured(qs: Seq<QueryView>, id: Seq<char>) -> bool {
    exists|k: int, r: int, c: int|
        0 <= k < qs.len() && qs[k].response_values is Some && 0 <= r < qs[k].response_values->0.len() && 0 <= c
            < qs[k].response_values->0[r].len() && (#[trigger] qs[k].response_values->0[r][c]).1 == id
}

proof fn lemma_row_members(ids: Seq<Seq<char>>, row: RowView, n: int, id: Seq<char>)
    requires
        n <= row.len(),
    ensures
        ids_of_row(ids, row, n).contains(id) <==> ids.contains(id) || exists|c: int|
            0 <= c < n && (#[trigger] row[c]).1 == id,
    decreases n,
{
    if n > 0 {
        lemma_row_members(ids, row, n - 1, id);
        let before = ids_of_row(ids, row, n - 1);
        let v = row[n - 1].1;
        if !before.contains(v) {
            let after = before.push(v);
            if before.contains(id) {
                let i = before.index_of(id);
                assert(after[i] == id);
            }
            if v == id {
                assert(after[before.len() as int] == id);
            }
            if after.contains(id) {
                let i = after.index_of(id);
                if i < before.len() {
                    assert(before[i] == id);
                }
            }
        }
    }
}

proof fn lemma_rows_members(ids: Seq<Seq<char>>, rows: Seq<RowView>, n: int, id: Seq<char>)
    requires
        n <= rows.len(),
    ensures
        ids_of_rows(ids, rows, n).contains(id) <==> ids.contains(id) || exists|r: int, c: int|
            0 <= r < n && 0 <= c < rows[r].len() && (#[trigger] rows[r][c]).1 == id,
    decreases n,
{
    if n > 0 {
        lemma_rows_members(ids, rows, n - 1, id);
        let row = rows[n - 1];
        lemma_row_members(ids_of_rows(ids, rows, n - 1), row, row.len() as int, id);
        if exists|c: int| 0 <= c < row.len() && (#[trigger] row[c]).1 == id {
            let c = choose|c: int| 0 <= c < row.len() && (#[trigger] row[c]).1 == id;
            assert(rows[n - 1][c].1 == id);
        }
    }
}

/// The captured IDs are just the values that responses hold.
pub proof fn law_known_ids_are_captured(qs: Seq<QueryView>, id: Seq<char>)
    ensures
        known_ids(qs).contains(id) <==> is_captured(qs, id),
    decreases qs.len(),
{
    if qs.len() > 0 {
        let p = qs.drop_last();
        let last = qs.len() - 1;
        law_known_ids_are_captured(p, id);
        if is_captured(p, id) {
            let (k, r, c) = choose|k: int, r: int, c: int|
                0 <= k < p.len() && p[k].response_values is Some && 0 <= r < p[k].response_values->0.len() && 0 <= c
                    < p[k].response_values->0[r].len() && (#[trigger] p[k].response_values->0[r][c]).1 == id;
            assert(qs[k].response_values->0[r][c].1 == id);
        }
        if let Some(rows) = qs.last().response_values {
            lemma_rows_members(known_ids(p), rows, rows.len() as int, id);
            if exists|r: int, c: int| 0 <= r < rows.len() && 0 <= c < rows[r].len() && (#[trigger] rows[r][c]).1 == id {
                let (r, c) = choose|r: int, c: int|
                    0 <= r < rows.len() && 0 <= c < rows[r].len() && (#[trigger] rows[r][c]).1 == id;
                assert(qs[last].response_values->0[r][c].1 == id);
            }
        }
        if is_captured(qs, id) {
            let (k, r, c) = choose|k: int, r: int, c: int|
                0 <= k < qs.len() && qs[k].response_values is Some && 0 <= r < qs[k].response_values->0.len() && 0 <= c
                    < qs[k].response_values->0[r].len() && (#[trigger] qs[k].response_values->0[r][c]).1 == id;
            if k < last {
                assert(p[k].response_values->0[r][c].1 == id);
            } else {
                let rows = qs.last().response_values->0;
                assert(rows[r][c].1 == id);
            }
        }
    }
}

/// The captured IDs are distinct.
pub proof fn law_known_ids_distinct(qs: Seq<QueryView>)
    ensures
        known_ids(qs).no_duplicates(),
    decreases qs.len(),
{
    if qs.len() > 0 {
        law_known_ids_distinct(qs.drop_last());
        if let Some(rows) = qs.last().response_values {
            lemma_rows_distinct(known_ids(qs.drop_last()), rows, rows.len() as int);
        }
    }
}

proof fn lemma_rows_distinct(ids: Seq<Seq<char>>, rows: Seq<RowView>, n: int)
    requires
        ids.no_duplicates(),
    ensures
        ids_of_rows(ids, rows, n).no_duplicates(),
    decreases n,
{
    if n > 0 {
        lemma_rows_distinct(ids, rows, n - 1);
        lemma_row_distinct(ids_of_rows(ids, rows, n - 1), rows[n - 1], rows[n - 1].len() as int);
    }
}

proof fn lemma_row_distinct(ids: Seq<Seq<char>>, row: RowView, n: int)
    requires
        ids.no_duplicates(),
    ensures
        ids_of_row(ids, row, n).no_duplicates(),
    decreases n,
{
    if n > 0 {
        lemma_row_distinct(ids, row, n - 1);
    }
}

} // verus!
