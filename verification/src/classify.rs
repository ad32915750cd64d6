//! Classification of sessions and workloads.

use crate::profile::{QueryKind, QueryView, Session, SessionView, WorkloadProfile};
use vstd::prelude::*;

verus! {

#[derive(Debug, Clone, Copy, PartialEq, Eq, Structural)]
pub enum WorkloadClass {
    Analytical,
    Transactional,
    Mixed,
    Bulk,
}

/// The name of a class.
pub open spec fn class_name(c: WorkloadClass) -> Seq<char> {
    match c {
        WorkloadClass::Analytical => "Analytical"@,
        WorkloadClass::Transactional => "Transactional"@,
        WorkloadClass::Mixed => "Mixed"@,
        WorkloadClass::Bulk => "Bulk"@,
    }
}

impl WorkloadClass {
    pub fn name(&self) -> (r: &'static str)
        ensures
            r@ == class_name(*self),
    {
        match self {
            WorkloadClass::Analytical => "Analytical",
            WorkloadClass::Transactional => "Transactional",
            WorkloadClass::Mixed => "Mixed",
            WorkloadClass::Bulk => "Bulk",
        }
    }
}

/// What a session consists of, and its class. The shares of reads and writes
/// are those in `reads` and `writes` of their sum.
#[derive(Debug, Clone, Copy, PartialEq, Eq, Structural)]
pub struct SessionClassification {
    pub session_id: u64,
    pub class: WorkloadClass,
    pub reads: u64,
    pub writes: u64,
    pub avg_latency_us: u64,
    pub transaction_count: u64,
    pub query_count: u64,
}

#[derive(Debug, Clone)]
pub struct WorkloadClassification {
    pub overall_class: WorkloadClass,
    pub sessions: Vec<SessionClassification>,
    pub class_counts: ClassCounts,
}

#[derive(Debug, Clone, Copy, PartialEq, Eq, Structural)]
pub struct ClassCounts {
    pub analytical: u64,
    pub transactional: u64,
    pub mixed: u64,
    pub bulk: u64,
}

/// Whether a query changes data or its structure.
pub open spec fn is_write(k: QueryKind) -> bool {
    k == QueryKind::Insert || k == QueryKind::Update || k == QueryKind::Delete || k == QueryKind::Ddl
}

/// The number of queries whose kind satisfies `p`.
pub open spec fn count_kind(qs: Seq<QueryView>, p: spec_fn(QueryKind) -> bool) -> nat
    decreases qs.len(),
{
    if qs.len() == 0 {
        0
    } else {
        count_kind(qs.drop_last(), p) + (if p(qs.last().kind) { 1nat } else { 0nat })
    }
}

/// The time that the queries took together.
pub open spec fn total_duration(qs: Seq<QueryView>) -> nat
    decreases qs.len(),
{
    if qs.len() == 0 {
        0
    } else {
        total_duration(qs.drop_last()) + qs.last().duration_us as nat
    }
}

pub open spec fn read_count(qs: Seq<QueryView>) -> nat {
    count_kind(qs, |k: QueryKind| k == QueryKind::Select)
}

pub open spec fn write_count(qs: Seq<QueryView>) -> nat {
    count_kind(qs, |k: QueryKind| is_write(k))
}

pub open spec fn begin_count(qs: Seq<QueryView>) -> nat {
    count_kind(qs, |k: QueryKind| k == QueryKind::Begin)
}

/// The average duration of the queries, rounded down.
pub open spec fn average_duration(qs: Seq<QueryView>) -> nat {
    if qs.len() == 0 {
        0
    } else {
        total_duration(qs) / qs.len()
    }
}

/// The class for given counts: more than 80% writes in at most two
/// transactions are bulk; more than 80% reads of over 10 ms are analytical;
/// more than 20% writes of under 5 ms in more than two transactions are
/// transactional; anything else is mixed.
pub open spec fn class_for(reads: int, writes: int, avg_us: int, txns: int) -> WorkloadClass {
    let data = reads + writes;
    if 100 * writes > 80 * data && txns <= 2 {
        WorkloadClass::Bulk
    } else if 100 * reads > 80 * data && avg_us > 10_000 {
        WorkloadClass::Analytical
    } else if 100 * writes > 20 * data && avg_us < 5_000 && txns > 2 {
        WorkloadClass::Transactional
    } else {
        WorkloadClass::Mixed
    }
}

/// The class of a session.
pub open spec fn class_of(s: SessionView) -> WorkloadClass {
    class_for(
        read_count(s.queries) as int,
        write_count(s.queries) as int,
        average_duration(s.queries) as int,
        begin_count(s.queries) as int,
    )
}

/// The classification of a session.
pub open spec fn classification_of(s: SessionView) -> SessionClassification {
    SessionClassification {
        session_id: s.id,
        class: class_of(s),
        reads: read_count(s.queries) as u64,
        writes: write_count(s.queries) as u64,
        avg_latency_us: average_duration(s.queries) as u64,
        transaction_count: begin_count(s.queries) as u64,
        query_count: s.queries.len() as u64,
    }
}

/// Whether the total duration of every session can be counted.
pub open spec fn durations_fit(s: Seq<SessionView>) -> bool {
    forall|i: int| 0 <= i < s.len() ==> total_duration((#[trigger] s[i]).queries) <= u64::MAX
}

proof fn lemma_counts(qs: Seq<QueryView>, p: spec_fn(QueryKind) -> bool)
    ensures
        count_kind(qs, p) <= qs.len(),
    decreases qs.len(),
{
    if qs.len() > 0 {
        lemma_counts(qs.drop_last(), p);
    }
}

proof fn lemma_duration_take(qs: Seq<QueryView>, n: int)
    requires
        0 <= n <= qs.len(),
    ensures
        total_duration(qs.take(n)) <= total_duration(qs),
    decreases qs.len() - n,
{
    if n == qs.len() {
        assert(qs.take(n) =~= qs);
    } else {
        lemma_duration_take(qs, n + 1);
        assert(qs.take(n + 1).drop_last() =~= qs.take(n));
    }
}

/// The class for given counts.
pub fn class_from_counts(reads: u64, writes: u64, avg_us: u64, txns: u64) -> (r: WorkloadClass)
    ensures
        r == class_for(reads as int, writes as int, avg_us as int, txns as int),
{
    let data: u128 = reads as u128 + writes as u128;
    if 100 * (writes as u128) > 80 * data && txns <= 2 {
        WorkloadClass::Bulk
    } else if 100 * (reads as u128) > 80 * data && avg_us > 10_000 {
        WorkloadClass::Analytical
    } else if 100 * (writes as u128) > 20 * data && avg_us < 5_000 && txns > 2 {
        WorkloadClass::Transactional
    } else {
        WorkloadClass::Mixed
    }
}

pub fn classify_session(session: &Session) -> (r: SessionClassification)
    requires
        total_duration(session@.queries) <= u64::MAX,
    ensures
        r == classification_of(session@),
{
    let ghost qs = session@.queries;
    let mut reads: u64 = 0;
    let mut writes: u64 = 0;
    let mut total: u64 = 0;
    let mut txns: u64 = 0;
    for i in 0..session.queries.len()
        invariant
            qs == session@.queries,
            total_duration(qs) <= u64::MAX,
            reads == read_count(qs.take(i as int)),
            writes == write_count(qs.take(i as int)),
            txns == begin_count(qs.take(i as int)),
            total == total_duration(qs.take(i as int)),
            reads <= i,
            writes <= i,
            txns <= i,
    {
        let q = &session.queries[i];
        proof {
            assert(qs.take(i + 1).drop_last() =~= qs.take(i as int));
            assert(qs.take(i + 1).last() == q@);
            lemma_duration_take(qs, i + 1);
        }
        total = total + q.duration_us;
        match q.kind {
            QueryKind::Select => {
                reads = reads + 1;
            },
            QueryKind::Insert | QueryKind::Update | QueryKind::Delete | QueryKind::Ddl => {
                writes = writes + 1;
            },
            QueryKind::Begin => {
                txns = txns + 1;
            },
            QueryKind::Commit | QueryKind::Rollback | QueryKind::Other => {},
        }
    }
    proof {
        assert(qs.take(qs.len() as int) =~= qs);
    }
    let n = session.queries.len() as u64;
    let avg: u64 = if n == 0 { 0 } else { total / n };
    SessionClassification {
        session_id: session.id,
        class: class_from_counts(reads, writes, avg, txns),
        reads,
        writes,
        avg_latency_us: avg,
        transaction_count: txns,
        query_count: n,
    }
}

/// The class of a session.
pub fn session_class(session: &Session) -> (r: WorkloadClass)
    requires
        total_duration(session@.queries) <= u64::MAX,
    ensures
        r == class_of(session@),
{
    classify_session(session).class
}

/// A session without queries is mixed.
pub proof fn law_empty_session_is_mixed(s: SessionView)
    requires
        s.queries.len() == 0,
    ensures
        class_of(s) == WorkloadClass::Mixed,
{
}

/// The number of sessions of a class.
pub open spec fn class_count(s: Seq<SessionView>, c: WorkloadClass) -> nat
    decreases s.len(),
{
    if s.len() == 0 {
        0
    } else {
        class_count(s.drop_last(), c) + (if class_of(s.last()) == c { 1nat } else { 0nat })
    }
}

/// The sessions of each class.
pub open spec fn counts_of(s: Seq<SessionView>) -> ClassCounts {
    ClassCounts {
        analytical: class_count(s, WorkloadClass::Analytical) as u64,
        transactional: class_count(s, WorkloadClass::Transactional) as u64,
        mixed: class_count(s, WorkloadClass::Mixed) as u64,
        bulk: class_count(s, WorkloadClass::Bulk) as u64,
    }
}

/// The class that most sessions have; of several, the last in the order
/// analytical, transactional, mixed, bulk.
pub open spec fn majority(c: ClassCounts) -> WorkloadClass {
    if c.bulk >= c.mixed && c.bulk >= c.transactional && c.bulk >= c.analytical {
        WorkloadClass::Bulk
    } else if c.mixed >= c.transactional && c.mixed >= c.analytical {
        WorkloadClass::Mixed
    } else if c.transactional >= c.analytical {
        WorkloadClass::Transactional
    } else {
        WorkloadClass::Analytical
    }
}

/// The number of sessions that the counts give a class.
pub open spec fn count_for(c: ClassCounts, class: WorkloadClass) -> u64 {
    match class {
        WorkloadClass::Analytical => c.analytical,
        WorkloadClass::Transactional => c.transactional,
        WorkloadClass::Mixed => c.mixed,
        WorkloadClass::Bulk => c.bulk,
    }
}

/// No class has more sessions than the overall class.
pub proof fn law_majority_is_largest(c: ClassCounts, class: WorkloadClass)
    ensures
        count_for(c, class) <= count_for(c, majority(c)),
{
}

/// The class that the counts vote for.
pub fn vote(c: &ClassCounts) -> (r: WorkloadClass)
    ensures
        r == majority(*c),
{
    if c.bulk >= c.mixed && c.bulk >= c.transactional && c.bulk >= c.analytical {
        WorkloadClass::Bulk
    } else if c.mixed >= c.transactional && c.mixed >= c.analytical {
        WorkloadClass::Mixed
    } else if c.transactional >= c.analytical {
        WorkloadClass::Transactional
    } else {
        WorkloadClass::Analytical
    }
}

pub fn classify_workload(profile: &WorkloadProfile) -> (r: WorkloadClassification)
    requires
        durations_fit(profile@.sessions),
    ensures
        r.sessions@.len() == profile@.sessions.len(),
        forall|i: int|
            0 <= i < r.sessions@.len() ==> #[trigger] r.sessions@[i] == classification_of(profile@.sessions[i]),
        r.class_counts == counts_of(profile@.sessions),
        r.overall_class == majority(r.class_counts),
{
    let ghost s = profile@.sessions;
    let mut sessions: Vec<SessionClassification> = Vec::new();
    let mut counts = ClassCounts { analytical: 0, transactional: 0, mixed: 0, bulk: 0 };
    for i in 0..profile.sessions.len()
        invariant
            s == profile@.sessions,
            durations_fit(s),
            sessions@.len() == i,
            forall|k: int| 0 <= k < i ==> #[trigger] sessions@[k] == classification_of(s[k]),
            counts.analytical == class_count(s.take(i as int), WorkloadClass::Analytical),
            counts.transactional == class_count(s.take(i as int), WorkloadClass::Transactional),
            counts.mixed == class_count(s.take(i as int), WorkloadClass::Mixed),
            counts.bulk == class_count(s.take(i as int), WorkloadClass::Bulk),
            counts.analytical <= i,
            counts.transactional <= i,
            counts.mixed <= i,
            counts.bulk <= i,
    {
        proof {
            assert(profile.sessions@[i as int]@ == s[i as int]);
            assert(total_duration(s[i as int].queries) <= u64::MAX);
            assert(s.take(i + 1).drop_last() =~= s.take(i as int));
            assert(s.take(i + 1).last() == s[i as int]);
        }
        let c = classify_session(&profile.sessions[i]);
        match c.class {
            WorkloadClass::Analytical => {
                counts.analytical = counts.analytical + 1;
            },
            WorkloadClass::Transactional => {
                counts.transactional = counts.transactional + 1;
            },
            WorkloadClass::Mixed => {
                counts.mixed = counts.mixed + 1;
            },
            WorkloadClass::Bulk => {
                counts.bulk = counts.bulk + 1;
            },
        }
        sessions.push(c);
    }
    proof {
        assert(s.take(s.len() as int) =~= s);
    }
    WorkloadClassification { overall_class: vote(&counts), sessions, class_counts: counts }
}

} // verus!
