//! The accounts of the server connection pool.
//!
//! Each client gets a dedicated server connection for its whole session. The
//! pool knows connections by number; the streams themselves are kept beside.

use crate::proxy::limits::{is_past_limit, past_limit};
use std::collections::VecDeque;
use vstd::prelude::*;

verus! {

/// What a client that asks for a connection gets.
#[derive(Debug, Clone, Copy, PartialEq, Eq, Structural)]
pub enum Checkout {
    /// The idle connection with this number.
    Reuse(u64),
    /// A new connection, to be opened under this number.
    Open(u64),
    /// Nothing for now: the pool is at capacity.
    Wait,
}

/// Session-mode connection pool.
#[derive(Debug)]
pub struct SessionPool {
    max_size: usize,
    idle: VecDeque<u64>,
    active_count: usize,
    next_id: u64,
}

/// The model of the pool.
pub struct PoolView {
    pub max_size: nat,
    pub idle: Seq<u64>,
    pub active: nat,
    pub next_id: nat,
}

impl View for SessionPool {
    type V = PoolView;

    closed spec fn view(&self) -> PoolView {
        PoolView {
            max_size: self.max_size as nat,
            idle: self.idle@,
            active: self.active_count as nat,
            next_id: self.next_id as nat,
        }
    }
}

/// Whether a connection is another than the one with this number.
pub open spec fn other_than(id: u64) -> spec_fn(u64) -> bool {
    |x: u64| x != id
}

impl PoolView {
    /// Not more connections than the pool may hold.
    pub open spec fn within_limit(self) -> bool {
        self.active + self.idle.len() <= self.max_size
    }

    /// What a checkout gives.
    pub open spec fn offered(self) -> Checkout {
        if self.idle.len() > 0 {
            Checkout::Reuse(self.idle[0])
        } else if self.active < self.max_size {
            Checkout::Open(self.next_id as u64)
        } else {
            Checkout::Wait
        }
    }

    /// The pool behind a checkout.
    pub open spec fn checked_out(self) -> PoolView {
        if self.idle.len() > 0 {
            PoolView { idle: self.idle.skip(1), active: self.active + 1, ..self }
        } else if self.active < self.max_size {
            PoolView { active: self.active + 1, next_id: self.next_id + 1, ..self }
        } else {
            self
        }
    }

    /// The pool with one connection fewer in use.
    pub open spec fn discarded(self) -> PoolView {
        PoolView { active: if self.active == 0 { 0 } else { (self.active - 1) as nat }, ..self }
    }

    /// The pool behind the return of a connection.
    pub open spec fn checked_in(self, id: u64) -> PoolView {
        PoolView { idle: self.idle.push(id), ..self.discarded() }
    }

    /// The pool without an idle connection.
    pub open spec fn reaped(self, id: u64) -> PoolView {
        PoolView { idle: self.idle.filter(other_than(id)), ..self }
    }
}

impl SessionPool {
    /// A pool without connections.
    pub fn new(max_size: usize) -> (r: Self)
        ensures
            r@ == (PoolView { max_size: max_size as nat, idle: Seq::empty(), active: 0, next_id: 1 }),
    {
        SessionPool { max_size, idle: VecDeque::new(), active_count: 0, next_id: 1 }
    }

    /// Checkout a server connection: an idle one, or a new one if under the
    /// limit.
    pub fn checkout(&mut self) -> (r: Checkout)
        requires
            old(self)@.active < usize::MAX,
            old(self)@.next_id < u64::MAX,
        ensures
            r == old(self)@.offered(),
            final(self)@ == old(self)@.checked_out(),
    {
        let ghost before = self@;
        match self.idle.pop_front() {
            Some(id) => {
                self.active_count = self.active_count + 1;
                proof {
                    assert(self@.idle =~= before.idle.skip(1));
                }
                Checkout::Reuse(id)
            },
            None => {
                proof {
                    assert(self@.idle =~= before.idle);
                }
                if self.active_count < self.max_size {
                    let id: u64 = self.next_id;
                    self.next_id = id + 1;
                    self.active_count = self.active_count + 1;
                    Checkout::Open(id)
                } else {
                    Checkout::Wait
                }
            },
        }
    }

    /// Return a server connection to the pool.
    pub fn checkin(&mut self, id: u64)
        ensures
            final(self)@ == old(self)@.checked_in(id),
    {
        self.active_count = self.active_count.saturating_sub(1);
        self.idle.push_back(id);
    }

    /// Return a server connection of a given age to the pool, unless it is older
    /// than it may become. Tells whether it was kept.
    pub fn checkin_aged(&mut self, id: u64, age_secs: u64, lifetime_secs: u64) -> (r: bool)
        ensures
            r == !past_limit(age_secs, lifetime_secs),
            final(self)@ == (if past_limit(age_secs, lifetime_secs) {
                old(self)@.discarded()
            } else {
                old(self)@.checked_in(id)
            }),
    {
        if is_past_limit(age_secs, lifetime_secs) {
            self.discard();
            false
        } else {
            self.checkin(id);
            true
        }
    }

    /// Drop an idle connection that has been idle for too long. Tells whether it
    /// is to be closed.
    pub fn reap(&mut self, id: u64, idle_secs: u64, limit_secs: u64) -> (r: bool)
        ensures
            r == past_limit(idle_secs, limit_secs),
            final(self)@ == (if past_limit(idle_secs, limit_secs) {
                old(self)@.reaped(id)
            } else {
                old(self)@
            }),
    {
        if !is_past_limit(idle_secs, limit_secs) {
            return false;
        }
        let ghost before = self@;
        let ghost keep = other_than(id);
        let mut left: VecDeque<u64> = VecDeque::new();
        let n: usize = self.idle.len();
        proof {
            assert(before.idle.take(0).filter(keep) =~= Seq::<u64>::empty());
            assert(before.idle.skip(0) =~= before.idle);
        }
        for i in 0..n
            invariant
                n == before.idle.len(),
                before == old(self)@,
                self@ == (PoolView { idle: before.idle.skip(i as int), ..before }),
                left@ == before.idle.take(i as int).filter(keep),
                keep == other_than(id),
        {
            if let Some(x) = self.idle.pop_front() {
                proof {
                    let t = before.idle.take(i + 1);
                    assert(t.drop_last() =~= before.idle.take(i as int));
                    assert(t.last() == x);
                    reveal(Seq::filter);
                    assert(self@.idle =~= before.idle.skip(i + 1));
                }
                if x != id {
                    left.push_back(x);
                }
            }
        }
        self.idle = left;
        proof {
            assert(before.idle.take(n as int) =~= before.idle);
        }
        true
    }

    /// Discard a server connection (don't return to pool).
    pub fn discard(&mut self)
        ensures
            final(self)@ == old(self)@.discarded(),
    {
        self.active_count = self.active_count.saturating_sub(1);
    }

    /// Current pool stats (active_count, idle_count).
    pub fn stats(&self) -> (r: (usize, usize))
        ensures
            r.0 == self@.active,
            r.1 == self@.idle.len(),
    {
        (self.active_count, self.idle.len())
    }

    /// The number of the next connection that is opened.
    pub fn next_number(&self) -> (r: u64)
        ensures
            r == self@.next_id,
    {
        self.next_id
    }

    /// The most connections that the pool may hold.
    pub fn capacity(&self) -> (r: usize)
        ensures
            r == self@.max_size,
    {
        self.max_size
    }
}

/// No operation makes the pool exceed its size: not a checkout, not a discard,
/// not the loss of an idle connection, and not the return of a connection that
/// is in use.
pub proof fn law_pool_stays_within_limit(p: PoolView, id: u64)
    requires
        p.within_limit(),
    ensures
        p.checked_out().within_limit(),
        p.discarded().within_limit(),
        p.active > 0 ==> p.checked_in(id).within_limit(),
        p.reaped(id).within_limit(),
{
    p.idle.lemma_filter_len(other_than(id));
}

/// A connection that is returned to an otherwise idle pool is the next one
/// given out.
pub proof fn law_checkin_then_checkout(p: PoolView, id: u64)
    requires
        p.idle.len() == 0,
    ensures
        p.checked_in(id).offered() == Checkout::Reuse(id),
        p.active > 0 ==> p.checked_in(id).checked_out() == p,
{
    assert(p.checked_in(id).idle.skip(1) =~= p.idle);
}

/// A connection that was reaped is not given out again.
pub proof fn law_reaped_is_gone(p: PoolView, id: u64)
    ensures
        !p.reaped(id).idle.contains(id),
{
    let keep = other_than(id);
    if p.reaped(id).idle.contains(id) {
        p.idle.lemma_filter_pred(keep, p.reaped(id).idle.index_of(id));
    }
}

/// A client waits only if every connection is in use.
pub proof fn law_wait_only_at_capacity(p: PoolView)
    requires
        p.within_limit(),
    ensures
        p.offered() is Wait <==> p.active == p.max_size,
{
}

/// What to do while active connections drain at shutdown.
#[derive(Debug, Clone, Copy, PartialEq, Eq, Structural)]
pub enum DrainStep {
    /// All connections have ended.
    Drained,
    /// Time is up: the given number of connections is closed by force.
    GiveUp(usize),
    /// Look again after a pause.
    Wait(usize),
}

/// Decides on draining, given the connections in use and whether the deadline
/// has passed.
pub fn drain_step(active: usize, deadline_passed: bool) -> (r: DrainStep)
    ensures
        r == (if active == 0 {
            DrainStep::Drained
        } else if deadline_passed {
            DrainStep::GiveUp(active)
        } else {
            DrainStep::Wait(active)
        }),
{
    if active == 0 {
        DrainStep::Drained
    } else if deadline_passed {
        DrainStep::GiveUp(active)
    } else {
        DrainStep::Wait(active)
    }
}

} // verus!
