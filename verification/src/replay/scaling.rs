//! Scaling of a workload: sessions duplicated with staggered offsets.

use crate::classify::{class_of, durations_fit, session_class, total_duration, write_count, WorkloadClass};
use crate::number::{decimal, push_decimal};
use crate::profile::{
    lemma_query_count_take, query_count, query_views, session_views, MetadataView, ProfileView, Query, QueryKind,
    QueryView, Session, SessionView, WorkloadProfile,
};
use crate::text::copy_string;
use vstd::prelude::*;

verus! {

/// A query that starts later.
pub open spec fn delayed_query(q: QueryView, offset: int) -> QueryView {
    QueryView { start_offset_us: (q.start_offset_us + offset) as u64, ..q }
}

/// The smallest number of a session.
pub open spec fn min_id(s: Seq<SessionView>) -> int
    decreases s.len(),
{
    if s.len() <= 1 {
        s[0].id as int
    } else {
        let m = min_id(s.drop_last());
        if s.last().id < m {
            s.last().id as int
        } else {
            m
        }
    }
}

/// The greatest number of a session.
pub open spec fn max_id(s: Seq<SessionView>) -> int
    decreases s.len(),
{
    if s.len() <= 1 {
        s[0].id as int
    } else {
        let m = max_id(s.drop_last());
        if s.last().id > m {
            s.last().id as int
        } else {
            m
        }
    }
}

/// Whether a number is another one moved on by fewer than `n` steps.
pub open spec fn is_moved_on(a: u64, b: u64, n: int, step: int) -> bool {
    a > b && (a - b) % step == 0 && (a - b) / step < n
}

/// Whether a copy of a session gets the number of another's: `n` copies, each
/// `step` behind the one before.
pub open spec fn copies_clash(s: Seq<SessionView>, n: int, step: int) -> bool {
    exists|i: int, j: int|
        0 <= i < s.len() && 0 <= j < s.len() && is_moved_on((#[trigger] s[i]).id, (#[trigger] s[j]).id, n, step)
}

/// How far the numbers of one of `n` copies lie from those of the next: as many
/// numbers as there are sessions, and where copies would clash, as many as the
/// sessions' own numbers lie within.
pub open spec fn id_step(s: Seq<SessionView>, n: int) -> int {
    if s.len() == 0 {
        0
    } else if copies_clash(s, n, s.len() as int) {
        max_id(s) - min_id(s) + 1
    } else {
        s.len() as int
    }
}

/// Copy number `k` of a session: its number moved on by `step` for each copy,
/// its queries delayed by the stagger for each copy.
pub open spec fn session_copy(s: SessionView, k: int, step: int, stagger_us: int) -> SessionView {
    SessionView {
        id: (s.id + k * step) as u64,
        queries: Seq::new(s.queries.len(), |i: int| delayed_query(s.queries[i], k * stagger_us)),
        ..s
    }
}

/// One copy of every session.
pub open spec fn copied_once(s: Seq<SessionView>, k: int, step: int, stagger_us: int) -> Seq<SessionView> {
    Seq::new(s.len(), |i: int| session_copy(s[i], k, step, stagger_us))
}

/// The first `n` copies of every session, copy by copy.
pub open spec fn copied(s: Seq<SessionView>, n: int, step: int, stagger_us: int) -> Seq<SessionView>
    decreases n,
{
    if n <= 0 {
        Seq::empty()
    } else {
        copied(s, n - 1, step, stagger_us) + copied_once(s, n - 1, step, stagger_us)
    }
}

/// Whether numbers and offsets fit their types up to copy number `last`.
pub open spec fn copies_fit(s: Seq<SessionView>, last: int, stagger_us: int) -> bool {
    &&& stagger_us <= u64::MAX
    &&& last * stagger_us <= u64::MAX
    &&& forall|i: int| 0 <= i < s.len() ==> (#[trigger] s[i]).id + last * id_step(s, last + 1) <= u64::MAX
    &&& forall|i: int, j: int|
        0 <= i < s.len() && 0 <= j < s[i].queries.len() ==> (#[trigger] s[i].queries[j]).start_offset_us + last
            * stagger_us <= u64::MAX
}

proof fn lemma_product_bound(k: int, n: int, m: int)
    requires
        0 <= k <= n,
        0 <= m,
    ensures
        0 <= k * m <= n * m,
{
    assert(0 <= k * m <= n * m) by (nonlinear_arith)
        requires
            0 <= k <= n,
            0 <= m,
    ;
}

fn copy_session(s: &Session, k: u64, step: u128, stagger_us: u64, Ghost(last): Ghost<int>) -> (r: Session)
    requires
        k <= last,
        last * stagger_us <= u64::MAX,
        s.id + last * step <= u64::MAX,
        forall|j: int|
            0 <= j < s@.queries.len() ==> (#[trigger] s@.queries[j]).start_offset_us + last * stagger_us
                <= u64::MAX,
    ensures
        r@ == session_copy(s@, k as int, step as int, stagger_us as int),
{
    proof {
        lemma_product_bound(k as int, last, step as int);
        lemma_product_bound(k as int, last, stagger_us as int);
    }
    let offset: u64 = k * stagger_us;
    let mut queries: Vec<Query> = Vec::new();
    let ghost want = session_copy(s@, k as int, step as int, stagger_us as int).queries;
    for i in 0..s.queries.len()
        invariant
            offset == k * stagger_us,
            offset <= last * stagger_us,
            want == session_copy(s@, k as int, step as int, stagger_us as int).queries,
            forall|j: int|
                0 <= j < s@.queries.len() ==> (#[trigger] s@.queries[j]).start_offset_us + last * stagger_us
                    <= u64::MAX,
            queries@.len() == i,
            forall|j: int| 0 <= j < i ==> (#[trigger] queries@[j])@ == want[j],
    {
        proof {
            assert(s@.queries[i as int].start_offset_us + last * stagger_us <= u64::MAX);
        }
        let mut q = s.queries[i].duplicate();
        q.start_offset_us = q.start_offset_us + offset;
        proof {
            assert(q@ == want[i as int]);
        }
        queries.push(q);
    }
    proof {
        assert(query_views(queries@) =~= want);
    }
    Session {
        id: s.id + ((k as u128) * step) as u64,
        user: copy_string(s.user.as_str()),
        database: copy_string(s.database.as_str()),
        queries,
    }
}

/// A copy of sessions.
pub fn copy_sessions(v: &Vec<Session>) -> (r: Vec<Session>)
    ensures
        session_views(r@) == session_views(v@),
{
    let mut out: Vec<Session> = Vec::new();
    for i in 0..v.len()
        invariant
            out@.len() == i,
            forall|k: int| 0 <= k < i ==> (#[trigger] out@[k])@ == v@[k]@,
    {
        out.push(v[i].duplicate());
    }
    proof {
        assert(session_views(out@) =~= session_views(v@));
    }
    out
}

fn has_clash(v: &Vec<Session>, n: u32) -> (r: bool)
    requires
        v@.len() > 0,
    ensures
        r == copies_clash(session_views(v@), n as int, v@.len() as int),
{
    let ghost s = session_views(v@);
    let step: u64 = v.len() as u64;
    for i in 0..v.len()
        invariant
            s == session_views(v@),
            step == s.len(),
            step > 0,
            forall|a: int, b: int|
                0 <= a < i && 0 <= b < s.len() ==> !is_moved_on(
                    (#[trigger] s[a]).id,
                    (#[trigger] s[b]).id,
                    n as int,
                    step as int,
                ),
    {
        for j in 0..v.len()
            invariant
                i < s.len(),
                s == session_views(v@),
                step == s.len(),
                step > 0,
                forall|a: int, b: int|
                    0 <= a < i && 0 <= b < s.len() ==> !is_moved_on(
                        (#[trigger] s[a]).id,
                        (#[trigger] s[b]).id,
                        n as int,
                        step as int,
                    ),
                forall|b: int| 0 <= b < j ==> !is_moved_on(s[i as int].id, (#[trigger] s[b]).id, n as int, step as int),
        {
            let a: u64 = v[i].id;
            let b: u64 = v[j].id;
            proof {
                assert(s[i as int].id == a);
                assert(s[j as int].id == b);
            }
            if a > b && (a - b) % step == 0 && (a - b) / step < n as u64 {
                proof {
                    assert(is_moved_on(s[i as int].id, s[j as int].id, n as int, step as int));
                }
                return true;
            }
        }
    }
    false
}

fn find_step(v: &Vec<Session>, copies: u32) -> (r: u128)
    ensures
        r == id_step(session_views(v@), copies as int),
        r <= 18446744073709551616,
{
    let ghost s = session_views(v@);
    let n: usize = v.len();
    if n == 0 {
        return 0;
    }
    let mut low: u64 = v[0].id;
    let mut high: u64 = v[0].id;
    let mut i: usize = 1;
    proof {
        assert(s.take(1)[0] == v@[0]@);
    }
    while i < n
        invariant
            1 <= i <= n,
            n == s.len(),
            s == session_views(v@),
            low == min_id(s.take(i as int)),
            high == max_id(s.take(i as int)),
            low <= high,
        decreases n - i,
    {
        proof {
            assert(s.take(i + 1).drop_last() =~= s.take(i as int));
            assert(s.take(i + 1).last() == v@[i as int]@);
        }
        if v[i].id < low {
            low = v[i].id;
        }
        if v[i].id > high {
            high = v[i].id;
        }
        i = i + 1;
    }
    proof {
        assert(s.take(n as int) =~= s);
        if high - low < n {
            lemma_close_ids_do_not_clash(s, copies as int);
        }
    }
    if high - low < n as u64 || !has_clash(v, copies) {
        n as u128
    } else {
        (high - low) as u128 + 1
    }
}

proof fn lemma_close_ids_do_not_clash(s: Seq<SessionView>, n: int)
    requires
        s.len() > 0,
        max_id(s) - min_id(s) < s.len(),
    ensures
        !copies_clash(s, n, s.len() as int),
{
    assert forall|i: int, j: int| 0 <= i < s.len() && 0 <= j < s.len() implies !is_moved_on(
        (#[trigger] s[i]).id,
        (#[trigger] s[j]).id,
        n,
        s.len() as int,
    ) by {
        lemma_ids_within(s, i);
        lemma_ids_within(s, j);
        if s[i].id > s[j].id {
            vstd::arithmetic::div_mod::lemma_small_mod((s[i].id - s[j].id) as nat, s.len());
        }
    }
}

/// Duplicate sessions N times with unique IDs and staggered start offsets.
pub fn scale_sessions(profile: &WorkloadProfile, scale: u32, stagger_ms: u64) -> (r: Vec<Session>)
    requires
        scale > 1 ==> copies_fit(profile@.sessions, scale - 1, stagger_ms * 1000),
    ensures
        scale <= 1 ==> session_views(r@) == profile@.sessions,
        scale > 1 ==> session_views(r@) == copied(
            profile@.sessions,
            scale as int,
            id_step(profile@.sessions, scale as int),
            stagger_ms * 1000,
        ),
{
    if scale <= 1 {
        return copy_sessions(&profile.sessions);
    }
    let ghost s = profile@.sessions;
    let ghost last = scale - 1;
    let step: u128 = find_step(&profile.sessions, scale);
    let stagger_us: u64 = stagger_ms * 1000;
    let mut out: Vec<Session> = Vec::new();
    proof {
        assert(session_views(out@) =~= copied(s, 0, step as int, stagger_us as int));
    }
    let mut k: u32 = 0;
    while k < scale
        invariant
            k <= scale,
            last == scale - 1,
            s == profile@.sessions,
            step == id_step(s, last + 1),
            copies_fit(s, last, stagger_us as int),
            session_views(out@) == copied(s, k as int, step as int, stagger_us as int),
        decreases scale - k,
    {
        let ghost done = session_views(out@);
        let ghost once = copied_once(s, k as int, step as int, stagger_us as int);
        proof {
            assert(done + once.take(0) =~= done);
        }
        for i in 0..profile.sessions.len()
            invariant
                k <= last,
                s == profile@.sessions,
                step == id_step(s, last + 1),
                copies_fit(s, last, stagger_us as int),
                once == copied_once(s, k as int, step as int, stagger_us as int),
                session_views(out@) == done + once.take(i as int),
        {
            proof {
                assert(profile.sessions@[i as int]@ == s[i as int]);
                assert(s[i as int].id + last * step <= u64::MAX);
            }
            let copy = copy_session(&profile.sessions[i], k as u64, step, stagger_us, Ghost(last));
            let ghost cv = copy@;
            let ghost before = session_views(out@);
            out.push(copy);
            proof {
                assert(session_views(out@) =~= before.push(cv));
                assert(done + once.take(i + 1) =~= (done + once.take(i as int)).push(once[i as int]));
            }
        }
        proof {
            assert(once.take(once.len() as int) =~= once);
        }
        k = k + 1;
    }
    out
}

// ── Scaling by class ────────────────────────────────────────────────

/// How often the sessions of each class run.
#[derive(Debug, Clone, Copy, PartialEq, Eq, Structural)]
pub struct ClassScales {
    pub analytical: u32,
    pub transactional: u32,
    pub mixed: u32,
    pub bulk: u32,
}

/// The scale of a class.
pub open spec fn scale_of(c: ClassScales, class: WorkloadClass) -> u32 {
    match class {
        WorkloadClass::Analytical => c.analytical,
        WorkloadClass::Transactional => c.transactional,
        WorkloadClass::Mixed => c.mixed,
        WorkloadClass::Bulk => c.bulk,
    }
}

/// The copies numbered `k` of the first `n` sessions, of those whose class has
/// that many.
pub open spec fn class_copies_once(
    s: Seq<SessionView>,
    c: ClassScales,
    k: int,
    n: int,
    step: int,
    stagger_us: int,
) -> Seq<SessionView>
    decreases n,
{
    if n <= 0 {
        Seq::empty()
    } else {
        let rest = class_copies_once(s, c, k, n - 1, step, stagger_us);
        if k < scale_of(c, class_of(s[n - 1])) {
            rest.push(session_copy(s[n - 1], k, step, stagger_us))
        } else {
            rest
        }
    }
}

/// The copies numbered below `n` of all sessions, copy by copy.
pub open spec fn class_copies(s: Seq<SessionView>, c: ClassScales, n: int, step: int, stagger_us: int) -> Seq<
    SessionView,
>
    decreases n,
{
    if n <= 0 {
        Seq::empty()
    } else {
        class_copies(s, c, n - 1, step, stagger_us) + class_copies_once(s, c, n - 1, s.len() as int, step, stagger_us)
    }
}

/// The greatest scale of a class.
pub open spec fn max_scale(c: ClassScales) -> u32 {
    let a = if c.analytical > c.transactional { c.analytical } else { c.transactional };
    let b = if c.mixed > c.bulk { c.mixed } else { c.bulk };
    if a > b {
        a
    } else {
        b
    }
}

fn class_scale(c: &ClassScales, class: WorkloadClass) -> (r: u32)
    ensures
        r == scale_of(*c, class),
{
    match class {
        WorkloadClass::Analytical => c.analytical,
        WorkloadClass::Transactional => c.transactional,
        WorkloadClass::Mixed => c.mixed,
        WorkloadClass::Bulk => c.bulk,
    }
}

/// Duplicate sessions as often as the scale of their class says, zero leaving
/// them out, with the numbers and offsets of uniform scaling.
pub fn scale_sessions_by_class(profile: &WorkloadProfile, scales: &ClassScales, stagger_ms: u64) -> (r: Vec<
    Session,
>)
    requires
        durations_fit(profile@.sessions),
        max_scale(*scales) > 0 ==> copies_fit(profile@.sessions, max_scale(*scales) - 1, stagger_ms * 1000),
    ensures
        session_views(r@) == class_copies(
            profile@.sessions,
            *scales,
            max_scale(*scales) as int,
            id_step(profile@.sessions, max_scale(*scales) as int),
            stagger_ms * 1000,
        ),
{
    let ghost s = profile@.sessions;
    let a: u32 = if scales.analytical > scales.transactional { scales.analytical } else { scales.transactional };
    let b: u32 = if scales.mixed > scales.bulk { scales.mixed } else { scales.bulk };
    let top: u32 = if a > b { a } else { b };
    let mut out: Vec<Session> = Vec::new();
    if top == 0 {
        proof {
            assert(session_views(out@) =~= Seq::<SessionView>::empty());
        }
        return out;
    }
    let ghost last = top - 1;
    let step: u128 = find_step(&profile.sessions, top);
    let stagger_us: u64 = stagger_ms * 1000;
    proof {
        assert(session_views(out@) =~= class_copies(s, *scales, 0, step as int, stagger_us as int));
    }
    let mut k: u32 = 0;
    while k < top
        invariant
            k <= top,
            last == top - 1,
            s == profile@.sessions,
            step == id_step(s, last + 1),
            durations_fit(s),
            copies_fit(s, last, stagger_us as int),
            session_views(out@) == class_copies(s, *scales, k as int, step as int, stagger_us as int),
        decreases top - k,
    {
        let ghost done = session_views(out@);
        proof {
            assert(done + class_copies_once(s, *scales, k as int, 0, step as int, stagger_us as int) =~= done);
        }
        for i in 0..profile.sessions.len()
            invariant
                k <= last,
                s == profile@.sessions,
                step == id_step(s, last + 1),
                durations_fit(s),
                copies_fit(s, last, stagger_us as int),
                session_views(out@) == done + class_copies_once(
                    s,
                    *scales,
                    k as int,
                    i as int,
                    step as int,
                    stagger_us as int,
                ),
        {
            proof {
                assert(profile.sessions@[i as int]@ == s[i as int]);
                assert(s[i as int].id + last * step <= u64::MAX);
                assert(total_duration(s[i as int].queries) <= u64::MAX);
            }
            let class = session_class(&profile.sessions[i]);
            if k < class_scale(scales, class) {
                let copy = copy_session(&profile.sessions[i], k as u64, step, stagger_us, Ghost(last));
                let ghost cv = copy@;
                let ghost before = session_views(out@);
                out.push(copy);
                proof {
                    assert(session_views(out@) =~= before.push(cv));
                    assert(session_views(out@) =~= done + class_copies_once(
                        s,
                        *scales,
                        k as int,
                        i + 1,
                        step as int,
                        stagger_us as int,
                    ));
                }
            }
        }
        k = k + 1;
    }
    out
}

// ── Laws ────────────────────────────────────────────────────────────

/// Scaling by N gives N times as many sessions.
pub proof fn law_scaled_session_count(s: Seq<SessionView>, n: int, step: int, stagger_us: int)
    requires
        n >= 0,
    ensures
        copied(s, n, step, stagger_us).len() == n * s.len(),
    decreases n,
{
    if n > 0 {
        law_scaled_session_count(s, n - 1, step, stagger_us);
        assert((n - 1) * s.len() + s.len() == n * s.len()) by (nonlinear_arith);
    } else {
        assert(n * s.len() == 0) by (nonlinear_arith)
            requires
                n == 0,
        ;
    }
}

/// Where copy `k` of session `i` stands.
pub proof fn law_scaled_session_place(s: Seq<SessionView>, n: int, step: int, stagger_us: int, k: int, i: int)
    requires
        0 <= k < n,
        0 <= i < s.len(),
    ensures
        0 <= k * s.len() + i < n * s.len(),
        copied(s, n, step, stagger_us).len() == n * s.len(),
        copied(s, n, step, stagger_us)[k * s.len() + i] == session_copy(s[i], k, step, stagger_us),
    decreases n,
{
    law_scaled_session_count(s, n, step, stagger_us);
    law_scaled_session_count(s, n - 1, step, stagger_us);
    let m = s.len() as int;
    assert(0 <= k * m) by (nonlinear_arith)
        requires
            0 <= k,
            0 <= m,
    ;
    if k < n - 1 {
        law_scaled_session_place(s, n - 1, step, stagger_us, k, i);
        assert((n - 1) * m <= n * m) by (nonlinear_arith)
            requires
                0 <= m,
        ;
    } else {
        assert(k * m + i < n * m) by (nonlinear_arith)
            requires
                k == n - 1,
                i < m,
        ;
        assert(copied(s, n, step, stagger_us)[k * m + i] == copied_once(s, n - 1, step, stagger_us)[i]);
    }
}

proof fn lemma_ids_within(s: Seq<SessionView>, i: int)
    requires
        0 <= i < s.len(),
    ensures
        min_id(s) <= s[i].id <= max_id(s),
    decreases s.len(),
{
    if s.len() > 1 {
        let p = s.drop_last();
        if i < p.len() {
            lemma_ids_within(p, i);
        } else {
            lemma_ids_within(p, 0);
        }
    }
}

/// Whether the sessions have distinct numbers.
pub open spec fn ids_distinct(s: Seq<SessionView>) -> bool {
    forall|a: int, b: int| 0 <= a < b < s.len() ==> s[a].id != s[b].id
}

proof fn lemma_copy_ids_apart(s: Seq<SessionView>, n: int, k: int, i: int, l: int, j: int)
    requires
        0 <= k < l < n,
        0 <= i < s.len(),
        0 <= j < s.len(),
    ensures
        s[i].id + k * id_step(s, n) != s[j].id + l * id_step(s, n),
{
    let m = id_step(s, n);
    lemma_ids_within(s, i);
    lemma_ids_within(s, j);
    if copies_clash(s, n, s.len() as int) {
        assert(k * m + m <= l * m) by (nonlinear_arith)
            requires
                k + 1 <= l,
                0 <= m,
        ;
    } else if s[i].id + k * m == s[j].id + l * m {
        let d = l - k;
        assert(l * m - k * m == d * m) by (nonlinear_arith)
            requires
                d == l - k,
        ;
        assert(d * m > 0) by (nonlinear_arith)
            requires
                d > 0,
                m > 0,
        ;
        vstd::arithmetic::div_mod::lemma_mod_multiples_basic(d, m);
        vstd::arithmetic::div_mod::lemma_div_multiples_vanish(d, m);
        assert(is_moved_on(s[i].id, s[j].id, n, m));
    }
}

proof fn lemma_copy_ids_differ(s: Seq<SessionView>, last: int, stagger_us: int, k: int, i: int, l: int, j: int)
    requires
        copies_fit(s, last, stagger_us),
        ids_distinct(s),
        0 <= k <= last,
        0 <= l <= last,
        0 <= i < s.len(),
        0 <= j < s.len(),
        k != l || i != j,
    ensures
        ({
            let step = id_step(s, last + 1);
            session_copy(s[i], k, step, stagger_us).id != session_copy(s[j], l, step, stagger_us).id
        }),
{
    let m = id_step(s, last + 1);
    lemma_ids_within(s, i);
    lemma_product_bound(k, last, m);
    lemma_product_bound(l, last, m);
    assert(s[i].id + last * m <= u64::MAX);
    assert(s[j].id + last * m <= u64::MAX);
    if k < l {
        lemma_copy_ids_apart(s, last + 1, k, i, l, j);
    } else if l < k {
        lemma_copy_ids_apart(s, last + 1, l, j, k, i);
    } else if i < j {
        assert(s[i].id != s[j].id);
    } else {
        assert(s[j].id != s[i].id);
    }
}

/// Scaling a workload whose sessions have distinct numbers gives sessions with
/// distinct numbers.
pub proof fn law_scaled_ids_unique(s: Seq<SessionView>, n: int, stagger_us: int)
    requires
        n >= 0,
        n > 0 ==> copies_fit(s, n - 1, stagger_us),
        ids_distinct(s),
    ensures
        ids_distinct(copied(s, n, id_step(s, n), stagger_us)),
{
    let step = id_step(s, n);
    let t = copied(s, n, step, stagger_us);
    let m = s.len() as int;
    law_scaled_session_count(s, n, step, stagger_us);
    assert forall|a: int, b: int| 0 <= a < b < t.len() implies t[a].id != t[b].id by {
        lemma_place(a, n, m);
        lemma_place(b, n, m);
        let (k, i) = (a / m, a % m);
        let (l, j) = (b / m, b % m);
        law_scaled_session_place(s, n, step, stagger_us, k, i);
        law_scaled_session_place(s, n, step, stagger_us, l, j);
        lemma_copy_ids_differ(s, n - 1, stagger_us, k, i, l, j);
    }
}

proof fn lemma_place(a: int, n: int, m: int)
    requires
        0 <= a < n * m,
        0 <= m,
    ensures
        m > 0,
        0 <= a / m < n,
        0 <= a % m < m,
        a == (a / m) * m + a % m,
{
    assert(m > 0) by (nonlinear_arith)
        requires
            0 <= a < n * m,
            0 <= m,
    ;
    assert(a == (a / m) * m + a % m && 0 <= a % m < m) by (nonlinear_arith)
        requires
            m > 0,
    ;
    assert(0 <= a / m < n) by (nonlinear_arith)
        requires
            0 <= a < n * m,
            m > 0,
            a == (a / m) * m + a % m,
            0 <= a % m < m,
    ;
}

proof fn lemma_class_copies_from(
    s: Seq<SessionView>,
    c: ClassScales,
    k: int,
    n: int,
    step: int,
    stagger_us: int,
    at: int,
)
    requires
        0 <= n <= s.len(),
        0 <= at < class_copies_once(s, c, k, n, step, stagger_us).len(),
    ensures
        exists|i: int|
            0 <= i < n && class_copies_once(s, c, k, n, step, stagger_us)[at] == #[trigger] session_copy(
                s[i],
                k,
                step,
                stagger_us,
            ),
    decreases n,
{
    let t = class_copies_once(s, c, k, n, step, stagger_us);
    let rest = class_copies_once(s, c, k, n - 1, step, stagger_us);
    if at < rest.len() {
        lemma_class_copies_from(s, c, k, n - 1, step, stagger_us, at);
        let i = choose|i: int| 0 <= i < n - 1 && rest[at] == #[trigger] session_copy(s[i], k, step, stagger_us);
        assert(t[at] == session_copy(s[i], k, step, stagger_us));
    } else {
        assert(t[at] == session_copy(s[n - 1], k, step, stagger_us));
    }
}

proof fn lemma_class_once_distinct(s: Seq<SessionView>, c: ClassScales, k: int, last: int, n: int, stagger_us: int)
    requires
        0 <= k <= last,
        copies_fit(s, last, stagger_us),
        ids_distinct(s),
        0 <= n <= s.len(),
    ensures
        ids_distinct(class_copies_once(s, c, k, n, id_step(s, last + 1), stagger_us)),
    decreases n,
{
    let step = id_step(s, last + 1);
    if n > 0 {
        lemma_class_once_distinct(s, c, k, last, n - 1, stagger_us);
        let rest = class_copies_once(s, c, k, n - 1, step, stagger_us);
        let t = class_copies_once(s, c, k, n, step, stagger_us);
        assert forall|a: int, b: int| 0 <= a < b < t.len() implies t[a].id != t[b].id by {
            if b >= rest.len() {
                lemma_class_copies_from(s, c, k, n - 1, step, stagger_us, a);
                let i = choose|i: int|
                    0 <= i < n - 1 && rest[a] == #[trigger] session_copy(s[i], k, step, stagger_us);
                lemma_copy_ids_differ(s, last, stagger_us, k, i, k, n - 1);
            }
        }
    }
}

proof fn lemma_class_copy(s: Seq<SessionView>, c: ClassScales, n: int, step: int, stagger_us: int, at: int)
    requires
        0 <= at < class_copies(s, c, n, step, stagger_us).len(),
    ensures
        exists|k: int, i: int|
            0 <= k < n && 0 <= i < s.len() && class_copies(s, c, n, step, stagger_us)[at] == #[trigger] session_copy(
                s[i],
                k,
                step,
                stagger_us,
            ),
    decreases n,
{
    let before = class_copies(s, c, n - 1, step, stagger_us);
    let once = class_copies_once(s, c, n - 1, s.len() as int, step, stagger_us);
    let t = class_copies(s, c, n, step, stagger_us);
    if at < before.len() {
        lemma_class_copy(s, c, n - 1, step, stagger_us, at);
        let (k, i) = choose|k: int, i: int|
            0 <= k < n - 1 && 0 <= i < s.len() && before[at] == #[trigger] session_copy(
                s[i],
                k,
                step,
                stagger_us,
            );
        assert(t[at] == session_copy(s[i], k, step, stagger_us));
    } else {
        lemma_class_copies_from(s, c, n - 1, s.len() as int, step, stagger_us, at - before.len());
        let i = choose|i: int|
            0 <= i < s.len() && once[at - before.len()] == #[trigger] session_copy(
                s[i],
                n - 1,
                step,
                stagger_us,
            );
        assert(t[at] == session_copy(s[i], n - 1, step, stagger_us));
    }
}

/// Scaling by class, too, gives sessions with distinct numbers.
pub proof fn law_class_scaled_ids_unique(s: Seq<SessionView>, c: ClassScales, n: int, stagger_us: int)
    requires
        n > 0 ==> copies_fit(s, n - 1, stagger_us),
        ids_distinct(s),
    ensures
        ids_distinct(class_copies(s, c, n, id_step(s, n), stagger_us)),
    decreases n,
{
    lemma_class_distinct(s, c, n, n - 1, stagger_us);
}

proof fn lemma_class_distinct(s: Seq<SessionView>, c: ClassScales, n: int, last: int, stagger_us: int)
    requires
        n <= last + 1,
        n > 0 ==> copies_fit(s, last, stagger_us),
        ids_distinct(s),
    ensures
        ids_distinct(class_copies(s, c, n, id_step(s, last + 1), stagger_us)),
    decreases n,
{
    let step = id_step(s, last + 1);
    if n > 0 {
        lemma_class_distinct(s, c, n - 1, last, stagger_us);
        lemma_class_once_distinct(s, c, n - 1, last, s.len() as int, stagger_us);
        let before = class_copies(s, c, n - 1, step, stagger_us);
        let once = class_copies_once(s, c, n - 1, s.len() as int, step, stagger_us);
        let t = class_copies(s, c, n, step, stagger_us);
        assert forall|a: int, b: int| 0 <= a < b < t.len() implies t[a].id != t[b].id by {
            if b < before.len() {
                assert(before[a].id != before[b].id);
            } else if a >= before.len() {
                assert(once[a - before.len()].id != once[b - before.len()].id);
            } else {
                lemma_class_copy(s, c, n - 1, step, stagger_us, a);
                lemma_class_copies_from(s, c, n - 1, s.len() as int, step, stagger_us, b - before.len());
                let (k, i) = choose|k: int, i: int|
                    0 <= k < n - 1 && 0 <= i < s.len() && before[a] == #[trigger] session_copy(
                        s[i],
                        k,
                        step,
                        stagger_us,
                    );
                let j = choose|j: int|
                    0 <= j < s.len() && once[b - before.len()] == #[trigger] session_copy(
                        s[j],
                        n - 1,
                        step,
                        stagger_us,
                    );
                lemma_copy_ids_differ(s, last, stagger_us, k, i, n - 1, j);
            }
        }
    }
}

// ── Write safety ────────────────────────────────────────────────────

/// The number of queries of all sessions that write.
pub open spec fn workload_writes(s: Seq<SessionView>) -> nat
    decreases s.len(),
{
    if s.len() == 0 {
        0
    } else {
        workload_writes(s.drop_last()) + write_count(s.last().queries)
    }
}

/// The warning for a workload with writes.
pub open spec fn write_warning(writes: nat, total: nat) -> Seq<char> {
    "Warning: scaling a workload with "@ + decimal(writes) + " write queries (out of "@ + decimal(total)
        + " total). Scaled writes will execute multiple times, which changes data state and may produce different results than the original workload."@
}

/// Check if scaling a workload with write queries is potentially unsafe.
/// Returns a warning message if writes are detected.
pub fn check_write_safety(profile: &WorkloadProfile) -> (r: Option<String>)
    requires
        query_count(profile@.sessions) <= u64::MAX,
    ensures
        r is Some <==> workload_writes(profile@.sessions) > 0,
        r is Some ==> r->0@ == write_warning(workload_writes(profile@.sessions), query_count(profile@.sessions)),
{
    let total = crate::profile::count_queries(&profile.sessions);
    let mut writes: u64 = 0;
    let ghost s = profile@.sessions;
    for i in 0..profile.sessions.len()
        invariant
            s == profile@.sessions,
            query_count(s) <= u64::MAX,
            writes == workload_writes(s.take(i as int)),
            writes <= query_count(s.take(i as int)),
    {
        let ghost qs = s[i as int].queries;
        let ghost base = writes as int;
        proof {
            assert(profile.sessions@[i as int]@ == s[i as int]);
            assert(s.take(i + 1).drop_last() =~= s.take(i as int));
            assert(s.take(i + 1).last() == s[i as int]);
            lemma_query_count_take(s, i + 1);
        }
        let n = profile.sessions[i].queries.len();
        for j in 0..n
            invariant
                i < s.len(),
                n == qs.len(),
                s == profile@.sessions,
                qs == s[i as int].queries,
                qs == profile.sessions@[i as int]@.queries,
                base <= query_count(s.take(i as int)),
                query_count(s.take(i as int)) + qs.len() <= u64::MAX,
                writes == base + write_count(qs.take(j as int)),
                write_count(qs.take(j as int)) <= j,
        {
            let q = &profile.sessions[i].queries[j];
            proof {
                assert(qs.take(j + 1).drop_last() =~= qs.take(j as int));
                assert(qs.take(j + 1).last() == q@);
            }
            match q.kind {
                QueryKind::Insert | QueryKind::Update | QueryKind::Delete | QueryKind::Ddl => {
                    writes = writes + 1;
                },
                _ => {},
            }
        }
        proof {
            assert(qs.take(qs.len() as int) =~= qs);
        }
    }
    proof {
        assert(s.take(s.len() as int) =~= s);
    }
    if writes == 0 {
        return None;
    }
    let mut out = String::new();
    out.push_str("Warning: scaling a workload with ");
    push_decimal(&mut out, writes);
    out.push_str(" write queries (out of ");
    push_decimal(&mut out, total);
    out.push_str(
        " total). Scaled writes will execute multiple times, which changes data state and may produce different results than the original workload.",
    );
    proof {
        assert(out@ =~= write_warning(writes as nat, total as nat));
    }
    Some(out)
}

// ── Preparing a replay ──────────────────────────────────────────────

/// Whether a workload is scaled: by class, or more than once.
pub open spec fn is_scaled(scales: Option<ClassScales>, scale: u32) -> bool {
    scales is Some || scale > 1
}

/// The sessions to replay. Scales by class take priority over a uniform one.
pub open spec fn replay_sessions(
    s: Seq<SessionView>,
    scales: Option<ClassScales>,
    scale: u32,
    stagger_ms: u64,
) -> Seq<SessionView> {
    match scales {
        Some(c) => class_copies(s, c, max_scale(c) as int, id_step(s, max_scale(c) as int), stagger_ms * 1000),
        None => if scale > 1 {
            copied(s, scale as int, id_step(s, scale as int), stagger_ms * 1000)
        } else {
            s
        },
    }
}

/// Whether the numbers, offsets and counts of a scaled workload fit their types.
pub open spec fn scaling_fits(s: Seq<SessionView>, scales: Option<ClassScales>, scale: u32, stagger_ms: u64) -> bool {
    is_scaled(scales, scale) ==> {
        &&& query_count(s) <= u64::MAX
        &&& query_count(replay_sessions(s, scales, scale, stagger_ms)) <= u64::MAX
        &&& match scales {
            Some(c) => durations_fit(s) && (max_scale(c) > 0 ==> copies_fit(
                s,
                max_scale(c) - 1,
                stagger_ms * 1000,
            )),
            None => copies_fit(s, scale - 1, stagger_ms * 1000),
        }
    }
}

/// The workload to replay: that of the profile, or its sessions scaled and
/// counted anew.
pub open spec fn replay_profile(p: ProfileView, scales: Option<ClassScales>, scale: u32, stagger_ms: u64) -> ProfileView {
    let t = replay_sessions(p.sessions, scales, scale, stagger_ms);
    if is_scaled(scales, scale) {
        ProfileView {
            sessions: t,
            metadata: MetadataView {
                total_sessions: t.len() as u64,
                total_queries: query_count(t) as u64,
                ..p.metadata
            },
            ..p
        }
    } else {
        p
    }
}

fn sessions_fit(sessions: &Vec<Session>, last: u32, stagger_ms: u64) -> (r: bool)
    requires
        last < u32::MAX,
    ensures
        r == copies_fit(session_views(sessions@), last as int, stagger_ms * 1000),
{
    let ghost s = session_views(sessions@);
    let stagger: u128 = (stagger_ms as u128) * 1000;
    if stagger > 18446744073709551615 {
        return false;
    }
    proof {
        assert(0 <= last * stagger <= 4294967295 * 18446744073709551615) by (nonlinear_arith)
            requires
                0 <= last <= 4294967295,
                0 <= stagger <= 18446744073709551615,
        ;
    }
    let delay: u128 = (last as u128) * stagger;
    if delay > 18446744073709551615 {
        return false;
    }
    let one: u128 = find_step(sessions, last + 1);
    proof {
        assert(0 <= last * one <= 4294967295 * 18446744073709551616) by (nonlinear_arith)
            requires
                0 <= last <= 4294967295,
                0 <= one <= 18446744073709551616,
        ;
    }
    let step: u128 = (last as u128) * one;
    for i in 0..sessions.len()
        invariant
            s == session_views(sessions@),
            delay == last * (stagger_ms * 1000),
            delay <= u64::MAX,
            step == last * id_step(s, last + 1),
            step <= 4294967295 * 18446744073709551616,
            forall|k: int| 0 <= k < i ==> (#[trigger] s[k]).id + last * id_step(s, last + 1) <= u64::MAX,
            forall|k: int, j: int|
                0 <= k < i && 0 <= j < s[k].queries.len() ==> (#[trigger] s[k].queries[j]).start_offset_us + last * (
                stagger_ms * 1000) <= u64::MAX,
    {
        let session = &sessions[i];
        proof {
            assert(s[i as int] == sessions@[i as int]@);
        }
        if (session.id as u128) + step > 18446744073709551615 {
            return false;
        }
        let n = session.queries.len();
        for j in 0..n
            invariant
                i < sessions@.len(),
                s == session_views(sessions@),
                s[i as int] == session@,
                n == session.queries@.len(),
                delay == last * (stagger_ms * 1000),
                delay <= u64::MAX,
                forall|m: int|
                    0 <= m < j ==> (#[trigger] s[i as int].queries[m]).start_offset_us + last * (stagger_ms * 1000)
                        <= u64::MAX,
        {
            proof {
                assert(s[i as int].queries[j as int] == session.queries@[j as int]@);
            }
            if (session.queries[j].start_offset_us as u128) + delay > 18446744073709551615 {
                proof {
                    assert(!(s[i as int].queries[j as int].start_offset_us + last * (stagger_ms * 1000)
                        <= u64::MAX));
                }
                return false;
            }
        }
        proof {
            assert(n == s[i as int].queries.len());
        }
    }
    true
}

fn totals_fit(sessions: &Vec<Session>) -> (r: bool)
    ensures
        r == durations_fit(session_views(sessions@)),
{
    let ghost s = session_views(sessions@);
    for i in 0..sessions.len()
        invariant
            s == session_views(sessions@),
            forall|k: int| 0 <= k < i ==> total_duration((#[trigger] s[k]).queries) <= u64::MAX,
    {
        let session = &sessions[i];
        let ghost qs = s[i as int].queries;
        let mut total: u128 = 0;
        let n = session.queries.len();
        proof {
            assert(s[i as int] == sessions@[i as int]@);
            assert(total_duration(qs.take(0)) == 0);
        }
        for j in 0..n
            invariant
                qs == query_views(session.queries@),
                n == session.queries@.len(),
                total == total_duration(qs.take(j as int)),
                total <= j * 18446744073709551615,
        {
            proof {
                assert(qs.take(j + 1).drop_last() =~= qs.take(j as int));
                assert(qs.take(j + 1).last() == session.queries@[j as int]@);
            }
            total = total + session.queries[j].duration_us as u128;
        }
        proof {
            assert(qs.take(n as int) =~= qs);
        }
        if total > 18446744073709551615 {
            proof {
                assert(!(total_duration(s[i as int].queries) <= u64::MAX));
            }
            return false;
        }
    }
    true
}

fn count_checked(sessions: &Vec<Session>) -> (r: Option<u64>)
    ensures
        r is Some <==> query_count(session_views(sessions@)) <= u64::MAX,
        r matches Some(n) ==> n == query_count(session_views(sessions@)),
{
    let ghost s = session_views(sessions@);
    let mut total: u64 = 0;
    proof {
        assert(query_count(s.take(0)) == 0);
    }
    for i in 0..sessions.len()
        invariant
            s == session_views(sessions@),
            total == query_count(s.take(i as int)),
    {
        let n: u64 = sessions[i].queries.len() as u64;
        proof {
            assert(s.take(i + 1).drop_last() =~= s.take(i as int));
            assert(s.take(i + 1).last() == sessions@[i as int]@);
        }
        if total > u64::MAX - n {
            proof {
                lemma_count_grows(s, i + 1);
            }
            return None;
        }
        total = total + n;
    }
    proof {
        assert(s.take(s.len() as int) =~= s);
    }
    Some(total)
}

proof fn lemma_count_grows(s: Seq<SessionView>, n: int)
    requires
        0 <= n <= s.len(),
    ensures
        query_count(s.take(n)) <= query_count(s),
    decreases s.len() - n,
{
    if n == s.len() {
        assert(s.take(n) =~= s);
    } else {
        lemma_count_grows(s, n + 1);
        assert(s.take(n + 1).drop_last() =~= s.take(n));
    }
}

/// The workload to replay, and a warning if writes are repeated. Nothing if its
/// numbers do not fit.
pub fn prepare_replay(
    profile: WorkloadProfile,
    scales: Option<ClassScales>,
    scale: u32,
    stagger_ms: u64,
) -> (r: Option<(WorkloadProfile, Option<String>)>)
    ensures
        r is Some <==> scaling_fits(profile@.sessions, scales, scale, stagger_ms),
        r matches Some(p) ==> p.0@ == replay_profile(profile@, scales, scale, stagger_ms),
        r matches Some(p) ==> (p.1 is Some <==> is_scaled(scales, scale) && workload_writes(profile@.sessions) > 0),
        r matches Some(p) ==> (p.1 matches Some(w) ==> w@ == write_warning(
            workload_writes(profile@.sessions),
            query_count(profile@.sessions),
        )),
{
    let sessions = match scales {
        Some(c) => {
            let a: u32 = if c.analytical > c.transactional { c.analytical } else { c.transactional };
            let b: u32 = if c.mixed > c.bulk { c.mixed } else { c.bulk };
            let top: u32 = if a > b { a } else { b };
            if count_checked(&profile.sessions).is_none() || !totals_fit(&profile.sessions) || (top > 0
                && !sessions_fit(&profile.sessions, top - 1, stagger_ms)) {
                return None;
            }
            scale_sessions_by_class(&profile, &c, stagger_ms)
        },
        None => {
            if scale <= 1 {
                return Some((profile, None));
            }
            if count_checked(&profile.sessions).is_none() || !sessions_fit(&profile.sessions, scale - 1, stagger_ms) {
                return None;
            }
            scale_sessions(&profile, scale, stagger_ms)
        },
    };
    let total_queries: u64 = match count_checked(&sessions) {
        Some(n) => n,
        None => return None,
    };
    let warning = check_write_safety(&profile);
    let mut out = profile;
    out.metadata.total_sessions = sessions.len() as u64;
    out.metadata.total_queries = total_queries;
    out.sessions = sessions;
    Some((out, warning))
}

} // verus!
