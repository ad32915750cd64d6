//! Replay of a workload: which queries run, and what came of them.

pub mod scaling;
pub mod session;

use crate::profile::{Query, QueryKind};
use crate::proxy::protocol::opt_view;
use vstd::prelude::*;

verus! {

#[derive(Debug, Clone, Copy, PartialEq, Eq, Structural)]
pub enum ReplayMode {
    ReadWrite,
    ReadOnly,
}

/// Whether a query of the kind is replayed.
pub open spec fn replays(mode: ReplayMode, kind: QueryKind) -> bool {
    match mode {
        ReplayMode::ReadWrite => true,
        ReplayMode::ReadOnly => kind == QueryKind::Select,
    }
}

impl ReplayMode {
    pub fn should_replay(&self, query: &Query) -> (r: bool)
        ensures
            r == replays(*self, query.kind),
    {
        match self {
            ReplayMode::ReadWrite => true,
            ReplayMode::ReadOnly => query.kind.is_read_only(),
        }
    }
}

#[derive(Debug, Clone)]
pub struct ReplayResults {
    pub session_id: u64,
    pub query_results: Vec<QueryResult>,
}

#[derive(Debug, Clone)]
pub struct QueryResult {
    pub sql: String,
    pub original_duration_us: u64,
    pub replay_duration_us: u64,
    pub success: bool,
    pub error: Option<String>,
    pub id_substitution_count: usize,
}

/// The model of a query's result.
pub struct ResultView {
    pub sql: Seq<char>,
    pub original_duration_us: u64,
    pub replay_duration_us: u64,
    pub success: bool,
    pub error: Option<Seq<char>>,
    pub id_substitution_count: usize,
}

impl View for QueryResult {
    type V = ResultView;

    open spec fn view(&self) -> ResultView {
        ResultView {
            sql: self.sql@,
            original_duration_us: self.original_duration_us,
            replay_duration_us: self.replay_duration_us,
            success: self.success,
            error: opt_view(self.error),
            id_substitution_count: self.id_substitution_count,
        }
    }
}

/// The models of results.
pub open spec fn result_views(v: Seq<QueryResult>) -> Seq<ResultView> {
    Seq::new(v.len(), |i: int| v[i]@)
}

/// The results of all sessions, one session behind the other.
pub open spec fn all_results(v: Seq<ReplayResults>) -> Seq<ResultView>
    decreases v.len(),
{
    if v.len() == 0 {
        Seq::empty()
    } else {
        all_results(v.drop_last()) + result_views(v.last().query_results@)
    }
}

} // verus!
