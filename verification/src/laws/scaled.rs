//! Laws of scaling a workload.

use crate::classify::{class_of, WorkloadClass};
use crate::profile::{query_count, ProfileView, SessionView};
use crate::replay::scaling::{
    class_copies, class_copies_once, copied, copies_clash, id_step, is_scaled, law_scaled_session_count,
    law_scaled_session_place, max_id, max_scale, min_id, replay_profile, replay_sessions, scale_of,
    session_copy, ClassScales,
};
use vstd::prelude::*;

verus! {

/// A copy of a session does what the session does, later by the stagger for each
/// copy before it, and under a number of its own.
pub proof fn law_copy_does_the_same(s: SessionView, k: int, step: int, stagger_us: int, j: int)
    requires
        0 <= k,
        0 <= s.id + k * step <= u64::MAX,
    ensures
        ({
            let c = session_copy(s, k, step, stagger_us);
            &&& c.id == s.id + k * step
            &&& c.user == s.user
            &&& c.database == s.database
            &&& c.queries.len() == s.queries.len()
            &&& 0 <= j < s.queries.len() && 0 <= s.queries[j].start_offset_us + k * stagger_us <= u64::MAX ==> {
                &&& c.queries[j].sql == s.queries[j].sql
                &&& c.queries[j].start_offset_us == s.queries[j].start_offset_us + k * stagger_us
                &&& c.queries[j].duration_us == s.queries[j].duration_us
                &&& c.queries[j].kind == s.queries[j].kind
                &&& c.queries[j].transaction_id == s.queries[j].transaction_id
                &&& c.queries[j].response_values == s.queries[j].response_values
                &&& c.queries[j].original_sql == s.queries[j].original_sql
            }
        }),
{
}

/// The first copy of a session is the session itself.
pub proof fn law_first_copy_is_the_session(s: SessionView, step: int, stagger_us: int)
    ensures
        session_copy(s, 0, step, stagger_us) == s,
{
    assert(0 * step == 0 && 0 * stagger_us == 0) by (nonlinear_arith);
    assert(session_copy(s, 0, step, stagger_us).queries =~= s.queries);
}

/// Scaling N times gives N copies of every session, copy by copy, the sessions
/// themselves first.
pub proof fn law_scaled_workload_begins_with_itself(s: Seq<SessionView>, n: int, step: int, stagger_us: int)
    requires
        n >= 1,
    ensures
        copied(s, n, step, stagger_us).len() == n * s.len(),
        copied(s, n, step, stagger_us).take(s.len() as int) == s,
{
    law_scaled_session_count(s, n, step, stagger_us);
    let t = copied(s, n, step, stagger_us);
    assert(s.len() <= t.len()) by (nonlinear_arith)
        requires
            t.len() == n * s.len(),
            n >= 1,
    ;
    assert forall|i: int| 0 <= i < s.len() implies t[i] == s[i] by {
        law_scaled_session_place(s, n, step, stagger_us, 0, i);
        law_first_copy_is_the_session(s[i], step, stagger_us);
        assert(0 * s.len() == 0);
    }
    assert(t.take(s.len() as int) =~= s);
}

/// Numbers are moved on by the number of sessions where no two copies meet then.
pub proof fn law_step_is_the_number_of_sessions(s: Seq<SessionView>, n: int)
    requires
        s.len() > 0,
        forall|i: int, j: int, k: int|
            0 <= i < s.len() && 0 <= j < s.len() && 0 < k < n ==> #[trigger] (k * s.len()) + (#[trigger] s[j]).id != (
            #[trigger] s[i]).id,
    ensures
        id_step(s, n) == s.len(),
{
    if copies_clash(s, n, s.len() as int) {
        let (i, j) = choose|i: int, j: int|
            0 <= i < s.len() && 0 <= j < s.len() && crate::replay::scaling::is_moved_on(
                (#[trigger] s[i]).id,
                (#[trigger] s[j]).id,
                n,
                s.len() as int,
            );
        let d = s[i].id - s[j].id;
        let m = s.len() as int;
        let k = d / m;
        assert(d == k * m && k > 0) by (nonlinear_arith)
            requires
                d % m == 0,
                d > 0,
                m > 0,
                k == d / m,
        ;
        assert((k * s.len()) + s[j].id == s[i].id);
    }
}

/// Each class has the scale that is given for it, and the greatest of them says
/// how many copies there are at most.
pub proof fn law_scales_of_classes(c: ClassScales)
    ensures
        scale_of(c, WorkloadClass::Analytical) == c.analytical,
        scale_of(c, WorkloadClass::Transactional) == c.transactional,
        scale_of(c, WorkloadClass::Mixed) == c.mixed,
        scale_of(c, WorkloadClass::Bulk) == c.bulk,
        max_scale(c) >= c.analytical,
        max_scale(c) >= c.transactional,
        max_scale(c) >= c.mixed,
        max_scale(c) >= c.bulk,
        max_scale(c) == c.analytical || max_scale(c) == c.transactional || max_scale(c) == c.mixed || max_scale(c)
            == c.bulk,
{
}

proof fn lemma_once(s: Seq<SessionView>, c: ClassScales, k: int, n: int, step: int, stagger_us: int, i: int)
    requires
        0 <= i < n <= s.len(),
        k < scale_of(c, class_of(s[i])),
    ensures
        class_copies_once(s, c, k, n, step, stagger_us).contains(session_copy(s[i], k, step, stagger_us)),
    decreases n,
{
    let rest = class_copies_once(s, c, k, n - 1, step, stagger_us);
    let t = class_copies_once(s, c, k, n, step, stagger_us);
    let x = session_copy(s[i], k, step, stagger_us);
    if i < n - 1 {
        lemma_once(s, c, k, n - 1, step, stagger_us, i);
        let at = rest.index_of(x);
        assert(t[at] == x);
    } else {
        assert(t[rest.len() as int] == x);
    }
}

/// A session runs as often as the scale of its class says: for each copy below
/// that there is one, and a class with scale zero is left out.
pub proof fn law_class_copies_are_made(
    s: Seq<SessionView>,
    c: ClassScales,
    n: int,
    step: int,
    stagger_us: int,
    k: int,
    i: int,
)
    requires
        0 <= k < n,
        0 <= i < s.len(),
        k < scale_of(c, class_of(s[i])),
    ensures
        class_copies(s, c, n, step, stagger_us).contains(session_copy(s[i], k, step, stagger_us)),
    decreases n,
{
    let before = class_copies(s, c, n - 1, step, stagger_us);
    let once = class_copies_once(s, c, n - 1, s.len() as int, step, stagger_us);
    let t = class_copies(s, c, n, step, stagger_us);
    let x = session_copy(s[i], k, step, stagger_us);
    if k < n - 1 {
        law_class_copies_are_made(s, c, n - 1, step, stagger_us, k, i);
        let at = before.index_of(x);
        assert(t[at] == x);
    } else {
        lemma_once(s, c, k, s.len() as int, step, stagger_us, i);
        let at = once.index_of(x);
        assert(t[before.len() + at] == x);
    }
}

/// The sessions of which copy `k` runs.
pub open spec fn runs_copy(c: ClassScales, k: int) -> spec_fn(SessionView) -> bool {
    |x: SessionView| k < scale_of(c, class_of(x))
}

/// Copy `k` runs of just those sessions whose class has that many.
pub proof fn law_class_copies_are_no_more(
    s: Seq<SessionView>,
    c: ClassScales,
    k: int,
    n: int,
    step: int,
    stagger_us: int,
)
    requires
        0 <= n <= s.len(),
    ensures
        class_copies_once(s, c, k, n, step, stagger_us).len() == s.take(n).filter(runs_copy(c, k)).len(),
    decreases n,
{
    reveal(Seq::filter);
    if n > 0 {
        law_class_copies_are_no_more(s, c, k, n - 1, step, stagger_us);
        assert(s.take(n).drop_last() =~= s.take(n - 1));
        assert(s.take(n).last() == s[n - 1]);
    }
}

/// Scales by class come before a uniform one; without scales, and with a uniform
/// one up to one, the sessions run as they are.
pub proof fn law_sessions_to_replay(s: Seq<SessionView>, c: ClassScales, scale: u32, stagger_ms: u64)
    ensures
        replay_sessions(s, Some(c), scale, stagger_ms) == class_copies(
            s,
            c,
            max_scale(c) as int,
            id_step(s, max_scale(c) as int),
            stagger_ms * 1000,
        ),
        scale > 1 ==> replay_sessions(s, None, scale, stagger_ms) == copied(
            s,
            scale as int,
            id_step(s, scale as int),
            stagger_ms * 1000,
        ),
        scale <= 1 ==> replay_sessions(s, None, scale, stagger_ms) == s,
        is_scaled(Some(c), scale),
        is_scaled(None, scale) <==> scale > 1,
{
}

/// A scaled workload counts its sessions and queries anew and keeps the rest.
pub proof fn law_scaled_workload_is_counted(p: ProfileView, scales: Option<ClassScales>, scale: u32, stagger_ms: u64)
    ensures
        ({
            let r = replay_profile(p, scales, scale, stagger_ms);
            &&& r.sessions == replay_sessions(p.sessions, scales, scale, stagger_ms)
            &&& scales is Some || scale > 1 ==> r.metadata.total_sessions == r.sessions.len() as u64
                && r.metadata.total_queries == query_count(r.sessions) as u64
            &&& scales is None && scale <= 1 ==> r == p
            &&& r.metadata.capture_duration_us == p.metadata.capture_duration_us
            &&& r.source_host == p.source_host
            &&& r.capture_method == p.capture_method
            &&& r.version == p.version
            &&& r.captured_at == p.captured_at
        }),
{
}

/// Queries are counted session by session.
pub proof fn law_queries_are_counted(s: Seq<SessionView>, x: SessionView)
    ensures
        query_count(s.push(x)) == query_count(s) + x.queries.len(),
        query_count(Seq::<SessionView>::empty()) == 0,
{
    assert(s.push(x).drop_last() =~= s);
}

proof fn lemma_ids_lie_between(s: Seq<SessionView>, i: int) -> (r: (int, int))
    requires
        0 <= i < s.len(),
    ensures
        min_id(s) <= s[i].id <= max_id(s),
        ({
            let (low, high) = r;
            &&& 0 <= low < s.len() && s[low].id == min_id(s)
            &&& 0 <= high < s.len() && s[high].id == max_id(s)
        }),
    decreases s.len(),
{
    let last = s.len() - 1;
    if s.len() > 1 {
        let t = s.drop_last();
        let (low, high) = lemma_ids_lie_between(t, if i < last { i } else { 0 });
        assert(t[low] == s[low] && t[high] == s[high]);
        (
            if s.last().id < min_id(t) {
                last
            } else {
                low
            },
            if s.last().id > max_id(t) {
                last
            } else {
                high
            },
        )
    } else {
        (0, 0)
    }
}

/// Where copies would meet, numbers are moved on by the whole range of numbers,
/// from the lowest to the highest: no difference between two is as great.
pub proof fn law_step_is_the_range_of_numbers(s: Seq<SessionView>, n: int, i: int, j: int) -> (r: (int, int))
    requires
        copies_clash(s, n, s.len() as int),
        0 <= i < s.len(),
        0 <= j < s.len(),
    ensures
        s[i].id - s[j].id < id_step(s, n),
        ({
            let (low, high) = r;
            0 <= low < s.len() && 0 <= high < s.len() && s[high].id - s[low].id + 1 == id_step(s, n)
        }),
{
    let a = lemma_ids_lie_between(s, i);
    let b = lemma_ids_lie_between(s, j);
    a
}

} // verus!
