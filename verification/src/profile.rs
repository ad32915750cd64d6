//! Workload profiles: sessions, queries and their kinds.

use crate::correlate::capture::{copy_rows, pk_views, row_views, PkView, ResponseRow, RowView, TablePk};
use crate::correlate::sequence::{SequenceState, SequenceView};
use crate::sql::lex::{lexemes, token_is, tokenize, Token, TokenKind};
use crate::sql::words::{
    find_opening, find_previous, has_ident_behind, ident_at, ident_behind, is_ident_at, is_punct_at, next_token,
    opening_of, previous_token, punct_at, skip_separators, tokens_of,
};
use crate::text::{
    copy_string, from_chars, starts_with, str_starts_with, to_chars, trim_start, trim_start_slice, upper,
    upper_string,
};
use vstd::prelude::*;

verus! {

/// A point in time: seconds since 1970-01-01 00:00:00 UTC, and nanoseconds.
#[derive(Debug, Clone, Copy, PartialEq, Eq, Structural)]
pub struct Timestamp {
    pub secs: i64,
    pub nanos: u32,
}

/// The database that a workload was captured from.
#[derive(Debug, Clone, Copy, PartialEq, Eq, Structural)]
pub enum SourceDialect {
    Postgres,
    MySql,
    SqlServer,
    Oracle,
}

#[derive(Debug, Clone)]
pub struct WorkloadProfile {
    pub version: u8,
    pub captured_at: Timestamp,
    pub source_host: String,
    pub pg_version: String,
    pub capture_method: String,
    pub source_dialect: SourceDialect,
    pub sessions: Vec<Session>,
    pub metadata: Metadata,
}

#[derive(Debug, Clone)]
pub struct Session {
    pub id: u64,
    pub user: String,
    pub database: String,
    pub queries: Vec<Query>,
}

#[derive(Debug, Clone)]
pub struct Query {
    pub sql: String,
    pub start_offset_us: u64,
    pub duration_us: u64,
    pub kind: QueryKind,
    pub transaction_id: Option<u64>,
    pub response_values: Option<Vec<ResponseRow>>,
    /// The SQL in the source's own dialect, where it was changed.
    pub original_sql: Option<String>,
}

#[derive(Debug, Clone, Copy, PartialEq, Eq, Structural)]
pub enum QueryKind {
    Select,
    Insert,
    Update,
    Delete,
    Ddl,
    Begin,
    Commit,
    Rollback,
    Other,
}

#[derive(Debug, Clone)]
pub struct Metadata {
    pub total_queries: u64,
    pub total_sessions: u64,
    pub capture_duration_us: u64,
    pub sequence_snapshot: Option<Vec<SequenceState>>,
    pub pk_map: Option<Vec<TablePk>>,
}

// ── Models ──────────────────────────────────────────────────────────

/// The model of a query.
pub struct QueryView {
    pub sql: Seq<char>,
    pub start_offset_us: u64,
    pub duration_us: u64,
    pub kind: QueryKind,
    pub transaction_id: Option<u64>,
    pub response_values: Option<Seq<RowView>>,
    pub original_sql: Option<Seq<char>>,
}

impl View for Query {
    type V = QueryView;

    open spec fn view(&self) -> QueryView {
        QueryView {
            sql: self.sql@,
            start_offset_us: self.start_offset_us,
            duration_us: self.duration_us,
            kind: self.kind,
            transaction_id: self.transaction_id,
            response_values: match self.response_values {
                Some(v) => Some(row_views(v@)),
                None => None,
            },
            original_sql: match self.original_sql {
                Some(s) => Some(s@),
                None => None,
            },
        }
    }
}

/// The models of queries.
pub open spec fn query_views(v: Seq<Query>) -> Seq<QueryView> {
    Seq::new(v.len(), |i: int| v[i]@)
}

/// The model of a session.
pub struct SessionView {
    pub id: u64,
    pub user: Seq<char>,
    pub database: Seq<char>,
    pub queries: Seq<QueryView>,
}

impl View for Session {
    type V = SessionView;

    open spec fn view(&self) -> SessionView {
        SessionView {
            id: self.id,
            user: self.user@,
            database: self.database@,
            queries: query_views(self.queries@),
        }
    }
}

/// The models of sessions.
pub open spec fn session_views(v: Seq<Session>) -> Seq<SessionView> {
    Seq::new(v.len(), |i: int| v[i]@)
}

/// The models of sequence states.
pub open spec fn sequence_views(v: Seq<SequenceState>) -> Seq<SequenceView> {
    Seq::new(v.len(), |i: int| v[i]@)
}

/// The model of a profile's metadata.
pub struct MetadataView {
    pub total_queries: u64,
    pub total_sessions: u64,
    pub capture_duration_us: u64,
    pub sequence_snapshot: Option<Seq<SequenceView>>,
    pub pk_map: Option<Seq<PkView>>,
}

impl View for Metadata {
    type V = MetadataView;

    open spec fn view(&self) -> MetadataView {
        MetadataView {
            total_queries: self.total_queries,
            total_sessions: self.total_sessions,
            capture_duration_us: self.capture_duration_us,
            sequence_snapshot: match self.sequence_snapshot {
                Some(v) => Some(sequence_views(v@)),
                None => None,
            },
            pk_map: match self.pk_map {
                Some(v) => Some(pk_views(v@)),
                None => None,
            },
        }
    }
}

/// The model of a profile.
pub struct ProfileView {
    pub version: u8,
    pub captured_at: Timestamp,
    pub source_host: Seq<char>,
    pub pg_version: Seq<char>,
    pub capture_method: Seq<char>,
    pub source_dialect: SourceDialect,
    pub sessions: Seq<SessionView>,
    pub metadata: MetadataView,
}

impl View for WorkloadProfile {
    type V = ProfileView;

    open spec fn view(&self) -> ProfileView {
        ProfileView {
            version: self.version,
            captured_at: self.captured_at,
            source_host: self.source_host@,
            pg_version: self.pg_version@,
            capture_method: self.capture_method@,
            source_dialect: self.source_dialect,
            sessions: session_views(self.sessions@),
            metadata: self.metadata@,
        }
    }
}

/// The number of queries of all sessions.
pub open spec fn query_count(s: Seq<SessionView>) -> nat
    decreases s.len(),
{
    if s.len() == 0 {
        0
    } else {
        query_count(s.drop_last()) + s.last().queries.len()
    }
}

/// Metadata with counts and nothing else.
pub open spec fn plain_metadata(queries: nat, sessions: nat, duration: nat) -> MetadataView {
    MetadataView {
        total_queries: queries as u64,
        total_sessions: sessions as u64,
        capture_duration_us: duration as u64,
        sequence_snapshot: None,
        pk_map: None,
    }
}

impl Query {
    /// A copy of the query.
    pub fn duplicate(&self) -> (r: Query)
        ensures
            r@ == self@,
    {
        Query {
            sql: copy_string(self.sql.as_str()),
            start_offset_us: self.start_offset_us,
            duration_us: self.duration_us,
            kind: self.kind,
            transaction_id: self.transaction_id,
            response_values: match &self.response_values {
                Some(v) => Some(copy_rows(v)),
                None => None,
            },
            original_sql: match &self.original_sql {
                Some(s) => Some(copy_string(s.as_str())),
                None => None,
            },
        }
    }
}

// ── Kinds ───────────────────────────────────────────────────────────

/// Whether token `k` is the bracket that opens a query of a WITH list, behind AS
/// or MATERIALIZED.
pub open spec fn opens_query(u: Seq<char>, k: int) -> bool {
    let p = previous_token(u, k);
    punct_at(u, k, "("@) && (ident_at(u, p, "AS"@) || ident_at(u, p, "MATERIALIZED"@))
}

/// Whether token `k` is the bracket that closes a query of a WITH list.
pub open spec fn closes_query(u: Seq<char>, k: int) -> bool {
    punct_at(u, k, ")"@) && opens_query(u, opening_of(u, k, 0))
}

/// Whether token `k` is the name that ends a SEARCH or CYCLE clause of a WITH
/// list, behind SET or USING.
pub open spec fn ends_search(u: Seq<char>, k: int) -> bool {
    let p = previous_token(u, k);
    &&& 0 <= k < lexemes(u).len()
    &&& lexemes(u)[k].kind == TokenKind::Ident || lexemes(u)[k].kind == TokenKind::QuotedIdent
    &&& ident_at(u, p, "SET"@) || ident_at(u, p, "USING"@)
}

/// Whether a statement can begin with token `k` of a text that begins with WITH:
/// as a query of the WITH list, or behind that list.
pub open spec fn can_begin(u: Seq<char>, k: int) -> bool {
    let p = previous_token(u, k);
    opens_query(u, p) || closes_query(u, p) || ends_search(u, p)
}

/// The kind of the write that begins with token `k`, if one does.
pub open spec fn write_at(u: Seq<char>, k: int) -> Option<QueryKind> {
    let next = next_token(u, k + 1);
    if !can_begin(u, k) {
        None
    } else if ident_at(u, k, "INSERT"@) && ident_at(u, next, "INTO"@) {
        Some(QueryKind::Insert)
    } else if ident_at(u, k, "UPDATE"@) && ident_behind(u, k, "SET"@) {
        Some(QueryKind::Update)
    } else if ident_at(u, k, "DELETE"@) && ident_at(u, next, "FROM"@) {
        Some(QueryKind::Delete)
    } else if ident_at(u, k, "MERGE"@) && ident_at(u, next, "INTO"@) {
        Some(QueryKind::Other)
    } else {
        None
    }
}

/// The kind of a statement that begins with WITH: that of the first write from
/// token `k` on, a SELECT if there is none.
pub open spec fn with_kind(u: Seq<char>, k: int) -> QueryKind
    decreases lexemes(u).len() - k,
{
    if k < 0 || k >= lexemes(u).len() {
        QueryKind::Select
    } else {
        match write_at(u, k) {
            Some(kind) => kind,
            None => with_kind(u, k + 1),
        }
    }
}

proof fn lemma_with_kind(u: Seq<char>, from: int, k: int)
    requires
        0 <= from <= k,
        write_at(u, k) is Some,
    ensures
        with_kind(u, from) != QueryKind::Select,
    decreases k - from,
{
    if write_at(u, from) is None {
        lemma_with_kind(u, from + 1, k);
    }
}

/// A statement that begins with WITH and holds a write is no SELECT.
pub proof fn law_write_under_with_is_no_select(u: Seq<char>, k: int)
    requires
        starts_with(u, "WITH"@),
        0 <= k,
        write_at(u, k) is Some,
    ensures
        kind_of_upper(u) != QueryKind::Select,
{
    lemma_with_kind(u, 0, k);
    reveal_strlit("SELECT");
    reveal_strlit("WITH");
    if starts_with(u, "SELECT"@) {
        assert(u.subrange(0, 6)[0] == 'S');
        assert(u.subrange(0, 4)[0] == 'W');
    }
}

/// The kind of a statement, given its text in upper case without leading
/// white space. ROLLBACK TO a savepoint stays inside the transaction and is
/// not a rollback.
pub open spec fn kind_of_upper(u: Seq<char>) -> QueryKind {
    if starts_with(u, "SELECT"@) {
        QueryKind::Select
    } else if starts_with(u, "WITH"@) {
        with_kind(u, 0)
    } else if starts_with(u, "INSERT"@) {
        QueryKind::Insert
    } else if starts_with(u, "UPDATE"@) {
        QueryKind::Update
    } else if starts_with(u, "DELETE"@) {
        QueryKind::Delete
    } else if starts_with(u, "CREATE"@) || starts_with(u, "ALTER"@) || starts_with(u, "DROP"@)
        || starts_with(u, "TRUNCATE"@) {
        QueryKind::Ddl
    } else if starts_with(u, "BEGIN"@) || starts_with(u, "START TRANSACTION"@) {
        QueryKind::Begin
    } else if starts_with(u, "COMMIT"@) || starts_with(u, "END"@) {
        QueryKind::Commit
    } else if starts_with(u, "ROLLBACK TO"@) {
        QueryKind::Other
    } else if starts_with(u, "ROLLBACK"@) || starts_with(u, "ABORT"@) {
        QueryKind::Rollback
    } else {
        QueryKind::Other
    }
}

/// The kind of a statement.
pub open spec fn kind_of(sql: Seq<char>) -> QueryKind {
    kind_of_upper(upper(trim_start(sql)))
}

fn is_query_opening(toks: &Vec<Token>, k: usize, Ghost(u): Ghost<Seq<char>>) -> (r: bool)
    requires
        tokens_of(u, toks@),
        k < toks@.len(),
    ensures
        r == opens_query(u, k as int),
{
    is_punct_at(toks, k, "(", Ghost(u)) && match find_previous(toks, k, Ghost(u)) {
        Some(p) => is_ident_at(toks, p, "AS", Ghost(u)) || is_ident_at(toks, p, "MATERIALIZED", Ghost(u)),
        None => false,
    }
}

fn is_query_closing(toks: &Vec<Token>, k: usize, Ghost(u): Ghost<Seq<char>>) -> (r: bool)
    requires
        tokens_of(u, toks@),
        k < toks@.len(),
    ensures
        r == closes_query(u, k as int),
{
    is_punct_at(toks, k, ")", Ghost(u)) && match find_opening(toks, k, Ghost(u)) {
        Some(p) => is_query_opening(toks, p, Ghost(u)),
        None => false,
    }
}

fn is_search_end(toks: &Vec<Token>, k: usize, Ghost(u): Ghost<Seq<char>>) -> (r: bool)
    requires
        tokens_of(u, toks@),
        k < toks@.len(),
    ensures
        r == ends_search(u, k as int),
{
    proof {
        assert(token_is(u, toks@[k as int], lexemes(u)[k as int]));
    }
    (toks[k].kind == TokenKind::Ident || toks[k].kind == TokenKind::QuotedIdent) && match find_previous(
        toks,
        k,
        Ghost(u),
    ) {
        Some(p) => is_ident_at(toks, p, "SET", Ghost(u)) || is_ident_at(toks, p, "USING", Ghost(u)),
        None => false,
    }
}

fn find_write(toks: &Vec<Token>, k: usize, Ghost(u): Ghost<Seq<char>>) -> (r: Option<QueryKind>)
    requires
        tokens_of(u, toks@),
        k < toks@.len(),
    ensures
        r == write_at(u, k as int),
{
    let begins = match find_previous(toks, k, Ghost(u)) {
        Some(p) => is_query_opening(toks, p, Ghost(u)) || is_query_closing(toks, p, Ghost(u)) || is_search_end(
            toks,
            p,
            Ghost(u),
        ),
        None => false,
    };
    if !begins {
        return None;
    }
    let n: usize = toks.len();
    let next = skip_separators(toks, k + 1, Ghost(u));
    if is_ident_at(toks, k, "INSERT", Ghost(u)) && is_ident_at(toks, next, "INTO", Ghost(u)) {
        return Some(QueryKind::Insert);
    }
    if is_ident_at(toks, k, "UPDATE", Ghost(u)) && has_ident_behind(toks, k, "SET", Ghost(u)) {
        return Some(QueryKind::Update);
    }
    if is_ident_at(toks, k, "DELETE", Ghost(u)) && is_ident_at(toks, next, "FROM", Ghost(u)) {
        return Some(QueryKind::Delete);
    }
    if is_ident_at(toks, k, "MERGE", Ghost(u)) && is_ident_at(toks, next, "INTO", Ghost(u)) {
        return Some(QueryKind::Other);
    }
    None
}

fn find_with_kind(u: &str) -> (r: QueryKind)
    ensures
        r == with_kind(u@, 0),
{
    let toks = tokenize(u);
    let mut k: usize = 0;
    while k < toks.len()
        invariant
            tokens_of(u@, toks@),
            k <= toks@.len(),
            with_kind(u@, 0) == with_kind(u@, k as int),
        decreases toks@.len() - k,
    {
        if let Some(kind) = find_write(&toks, k, Ghost(u@)) {
            return kind;
        }
        k = k + 1;
    }
    QueryKind::Select
}

impl QueryKind {
    /// The kind of a statement whose text is in upper case and has no leading
    /// white space.
    pub fn from_upper(u: &str) -> (r: Self)
        ensures
            r == kind_of_upper(u@),
    {
        if str_starts_with(u, "SELECT") {
            QueryKind::Select
        } else if str_starts_with(u, "WITH") {
            find_with_kind(u)
        } else if str_starts_with(u, "INSERT") {
            QueryKind::Insert
        } else if str_starts_with(u, "UPDATE") {
            QueryKind::Update
        } else if str_starts_with(u, "DELETE") {
            QueryKind::Delete
        } else if str_starts_with(u, "CREATE") || str_starts_with(u, "ALTER") || str_starts_with(u, "DROP")
            || str_starts_with(u, "TRUNCATE") {
            QueryKind::Ddl
        } else if str_starts_with(u, "BEGIN") || str_starts_with(u, "START TRANSACTION") {
            QueryKind::Begin
        } else if str_starts_with(u, "COMMIT") || str_starts_with(u, "END") {
            QueryKind::Commit
        } else if str_starts_with(u, "ROLLBACK TO") {
            QueryKind::Other
        } else if str_starts_with(u, "ROLLBACK") || str_starts_with(u, "ABORT") {
            QueryKind::Rollback
        } else {
            QueryKind::Other
        }
    }

    /// The kind of a statement.
    pub fn from_sql(sql: &str) -> (r: Self)
        ensures
            r == kind_of(sql@),
    {
        let c = to_chars(sql);
        let t = from_chars(trim_start_slice(&c));
        let u = upper_string(t.as_str());
        QueryKind::from_upper(u.as_str())
    }

    pub fn is_read_only(&self) -> (r: bool)
        ensures
            r == (*self == QueryKind::Select),
    {
        *self == QueryKind::Select
    }

    pub fn is_transaction_control(&self) -> (r: bool)
        ensures
            r == (*self == QueryKind::Begin || *self == QueryKind::Commit || *self == QueryKind::Rollback),
    {
        *self == QueryKind::Begin || *self == QueryKind::Commit || *self == QueryKind::Rollback
    }

    /// The name of the kind.
    pub fn name(&self) -> (r: &'static str)
        ensures
            r@ == kind_name(*self),
    {
        match self {
            QueryKind::Select => "Select",
            QueryKind::Insert => "Insert",
            QueryKind::Update => "Update",
            QueryKind::Delete => "Delete",
            QueryKind::Ddl => "Ddl",
            QueryKind::Begin => "Begin",
            QueryKind::Commit => "Commit",
            QueryKind::Rollback => "Rollback",
            QueryKind::Other => "Other",
        }
    }
}

/// The name of a kind.
pub open spec fn kind_name(k: QueryKind) -> Seq<char> {
    match k {
        QueryKind::Select => "Select"@,
        QueryKind::Insert => "Insert"@,
        QueryKind::Update => "Update"@,
        QueryKind::Delete => "Delete"@,
        QueryKind::Ddl => "Ddl"@,
        QueryKind::Begin => "Begin"@,
        QueryKind::Commit => "Commit"@,
        QueryKind::Rollback => "Rollback"@,
        QueryKind::Other => "Other"@,
    }
}

// ── Transactions ────────────────────────────────────────────────────

/// The transaction that is open behind the first `n` queries, and the number
/// of transactions that they began.
pub open spec fn open_txn(qs: Seq<QueryView>, first: int, n: int) -> (Option<int>, int)
    decreases n,
{
    if n <= 0 {
        (None, 0)
    } else {
        let (cur, begun) = open_txn(qs, first, n - 1);
        match qs[n - 1].kind {
            QueryKind::Begin => (Some(first + begun), begun + 1),
            QueryKind::Commit | QueryKind::Rollback => (None, begun),
            _ => (cur, begun),
        }
    }
}

/// The number of transactions that queries begin.
pub open spec fn txn_count(qs: Seq<QueryView>) -> int {
    open_txn(qs, 0, qs.len() as int).1
}

/// The transaction that query `i` belongs to, transactions being numbered from
/// `first` on in the order of their BEGIN. A COMMIT or ROLLBACK outside a
/// transaction keeps what it had.
pub open spec fn txn_of(qs: Seq<QueryView>, first: int, i: int) -> Option<u64> {
    let (cur, begun) = open_txn(qs, first, i);
    match qs[i].kind {
        QueryKind::Begin => Some((first + begun) as u64),
        QueryKind::Commit | QueryKind::Rollback => match cur {
            Some(t) => Some(t as u64),
            None => qs[i].transaction_id,
        },
        _ => match cur {
            Some(t) => Some(t as u64),
            None => None,
        },
    }
}

/// The queries with their transactions assigned.
pub open spec fn with_txns(qs: Seq<QueryView>, first: int) -> Seq<QueryView> {
    Seq::new(qs.len(), |i: int| QueryView { transaction_id: txn_of(qs, first, i), ..qs[i] })
}

proof fn lemma_txn_bounds(qs: Seq<QueryView>, first: int, n: int)
    requires
        0 <= n <= qs.len(),
    ensures
        0 <= open_txn(qs, first, n).1 <= n,
        open_txn(qs, first, n).1 == open_txn(qs, 0, n).1,
        open_txn(qs, first, n).0 matches Some(t) ==> first <= t < first + open_txn(qs, first, n).1,
    decreases n,
{
    if n > 0 {
        lemma_txn_bounds(qs, first, n - 1);
    }
}

pub proof fn lemma_txn_count_bound(qs: Seq<QueryView>)
    ensures
        0 <= txn_count(qs) <= qs.len(),
{
    lemma_txn_bounds(qs, 0, qs.len() as int);
}

proof fn lemma_txn_monotone(qs: Seq<QueryView>, first: int, m: int, n: int)
    requires
        0 <= m <= n <= qs.len(),
    ensures
        open_txn(qs, first, m).1 <= open_txn(qs, first, n).1,
    decreases n - m,
{
    if m < n {
        lemma_txn_monotone(qs, first, m, n - 1);
    }
}

proof fn lemma_txn_open_while(qs: Seq<QueryView>, first: int, i: int, j: int)
    requires
        0 <= i < j <= qs.len(),
        qs[i].kind == QueryKind::Begin,
        forall|k: int| i < k < j ==> !ends_or_begins((#[trigger] qs[k]).kind),
    ensures
        open_txn(qs, first, j).0 == Some(first + open_txn(qs, first, i).1),
    decreases j - i,
{
    if i + 1 < j {
        lemma_txn_open_while(qs, first, i, j - 1);
        assert(!ends_or_begins(qs[j - 1].kind));
    }
}

/// Whether a query begins or ends a transaction.
pub open spec fn ends_or_begins(k: QueryKind) -> bool {
    k == QueryKind::Begin || k == QueryKind::Commit || k == QueryKind::Rollback
}

/// The queries of a block share its transaction: from a BEGIN at `i` up to and
/// including the next BEGIN, COMMIT or ROLLBACK, or the end, every query but a
/// further BEGIN has the transaction of the BEGIN.
pub proof fn law_block_shares_transaction(qs: Seq<QueryView>, first: int, i: int, j: int)
    requires
        0 <= i < j < qs.len(),
        qs[i].kind == QueryKind::Begin,
        forall|k: int| i < k < j ==> !ends_or_begins((#[trigger] qs[k]).kind),
        qs[j].kind != QueryKind::Begin,
    ensures
        with_txns(qs, first)[j].transaction_id == with_txns(qs, first)[i].transaction_id,
        with_txns(qs, first)[i].transaction_id is Some,
{
    lemma_txn_open_while(qs, first, i, j);
}

/// No two blocks share a transaction: a later BEGIN gets a greater number.
pub proof fn law_blocks_are_distinct(qs: Seq<QueryView>, first: int, i: int, j: int)
    requires
        0 <= i < j < qs.len(),
        qs[i].kind == QueryKind::Begin,
        qs[j].kind == QueryKind::Begin,
        0 <= first,
        first + txn_count(qs) <= u64::MAX,
    ensures
        with_txns(qs, first)[i].transaction_id->0 < with_txns(qs, first)[j].transaction_id->0,
{
    lemma_txn_monotone(qs, first, i + 1, j);
    lemma_txn_monotone(qs, first, j, qs.len() as int);
    lemma_txn_bounds(qs, first, qs.len() as int);
    lemma_txn_bounds(qs, first, i);
}

/// Assign transaction IDs to queries within BEGIN/COMMIT|ROLLBACK blocks.
/// Used by both CSV log capture and proxy capture.
pub fn assign_transaction_ids(queries: &mut Vec<Query>, next_txn_id: &mut u64)
    requires
        *old(next_txn_id) + txn_count(query_views(old(queries)@)) <= u64::MAX,
    ensures
        query_views(final(queries)@) == with_txns(query_views(old(queries)@), *old(next_txn_id) as int),
        *final(next_txn_id) == *old(next_txn_id) + txn_count(query_views(old(queries)@)),
{
    let mut current: Option<u64> = None;
    let ghost qs = query_views(queries@);
    let ghost first = *next_txn_id as int;
    let n = queries.len();
    let mut i: usize = 0;
    proof {
        lemma_txn_bounds(qs, first, n as int);
    }
    while i < n
        invariant
            i <= n,
            n == qs.len(),
            queries@.len() == n,
            first == *old(next_txn_id),
            qs == query_views(old(queries)@),
            first + txn_count(qs) <= u64::MAX,
            open_txn(qs, first, n as int).1 == txn_count(qs),
            *next_txn_id == first + open_txn(qs, first, i as int).1,
            match open_txn(qs, first, i as int).0 {
                Some(t) => current == Some(t as u64) && 0 <= t <= u64::MAX,
                None => current is None,
            },
            forall|k: int| 0 <= k < i ==> (#[trigger] queries@[k])@ == with_txns(qs, first)[k],
            forall|k: int| i <= k < n ==> (#[trigger] queries@[k])@ == qs[k],
        decreases n - i,
    {
        proof {
            assert(queries@[i as int]@ == qs[i as int]);
            lemma_txn_monotone(qs, first, i + 1, n as int);
        }
        let kind = queries[i].kind;
        let id = match kind {
            QueryKind::Begin => {
                let t: u64 = *next_txn_id;
                *next_txn_id = t + 1;
                current = Some(t);
                Some(t)
            },
            QueryKind::Commit | QueryKind::Rollback => {
                let t = match current {
                    Some(t) => Some(t),
                    None => queries[i].transaction_id,
                };
                current = None;
                t
            },
            _ => current,
        };
        let ghost before = queries@;
        queries[i].transaction_id = id;
        proof {
            assert(queries@[i as int]@ == with_txns(qs, first)[i as int]);
            assert forall|k: int| 0 <= k < i + 1 implies (#[trigger] queries@[k])@ == with_txns(qs, first)[k] by {
                if k < i {
                    assert(queries@[k] == before[k]);
                }
            }
            assert forall|k: int| i + 1 <= k < n implies (#[trigger] queries@[k])@ == qs[k] by {
                assert(queries@[k] == before[k]);
            }
        }
        i = i + 1;
    }
    proof {
        assert(query_views(queries@) =~= with_txns(qs, first));
    }
}

// ── Whole workloads ─────────────────────────────────────────────────

/// The number of the first transaction of session `i`: transactions are
/// numbered from one on, session by session.
pub open spec fn first_txn(s: Seq<SessionView>, i: int) -> int
    decreases i,
{
    if i <= 0 {
        1
    } else {
        first_txn(s, i - 1) + txn_count(s[i - 1].queries)
    }
}

/// The sessions with the transactions of all their queries assigned.
pub open spec fn with_all_txns(s: Seq<SessionView>) -> Seq<SessionView> {
    Seq::new(
        s.len(),
        |i: int| SessionView { queries: with_txns(s[i].queries, first_txn(s, i)), ..s[i] },
    )
}

/// The end of the last query of a session, zero if it has none.
pub open spec fn last_end(s: SessionView) -> nat {
    if s.queries.len() == 0 {
        0
    } else {
        (s.queries.last().start_offset_us + s.queries.last().duration_us) as nat
    }
}

/// The latest end of a session's last query.
pub open spec fn workload_end(s: Seq<SessionView>) -> nat
    decreases s.len(),
{
    if s.len() == 0 {
        0
    } else if last_end(s.last()) > workload_end(s.drop_last()) {
        last_end(s.last())
    } else {
        workload_end(s.drop_last())
    }
}

/// Whether the end of every session's last query can be counted.
pub open spec fn ends_fit(s: Seq<SessionView>) -> bool {
    forall|i: int| 0 <= i < s.len() ==> last_end(#[trigger] s[i]) <= u64::MAX
}

pub(crate) proof fn lemma_query_count_take(s: Seq<SessionView>, n: int)
    requires
        0 <= n <= s.len(),
    ensures
        query_count(s.take(n)) <= query_count(s),
    decreases s.len() - n,
{
    if n == s.len() {
        assert(s.take(n) =~= s);
    } else {
        lemma_query_count_take(s, n + 1);
        assert(s.take(n + 1).drop_last() =~= s.take(n));
    }
}

proof fn lemma_first_txn(s: Seq<SessionView>, n: int)
    requires
        0 <= n <= s.len(),
    ensures
        1 <= first_txn(s, n) <= 1 + query_count(s.take(n)),
    decreases n,
{
    if n > 0 {
        lemma_first_txn(s, n - 1);
        lemma_txn_count_bound(s[n - 1].queries);
        assert(s.take(n).drop_last() =~= s.take(n - 1));
    }
}

/// Assigns the transactions of all sessions, in order.
pub fn assign_all_transactions(sessions: &mut Vec<Session>)
    requires
        query_count(session_views(old(sessions)@)) < u64::MAX,
    ensures
        session_views(final(sessions)@) == with_all_txns(session_views(old(sessions)@)),
{
    let ghost s = session_views(sessions@);
    let mut next: u64 = 1;
    let n = sessions.len();
    let mut i: usize = 0;
    while i < n
        invariant
            i <= n,
            n == s.len(),
            sessions@.len() == n,
            s == session_views(old(sessions)@),
            query_count(s) < u64::MAX,
            next == first_txn(s, i as int),
            forall|k: int| 0 <= k < i ==> (#[trigger] sessions@[k])@ == with_all_txns(s)[k],
            forall|k: int| i <= k < n ==> (#[trigger] sessions@[k])@ == s[k],
        decreases n - i,
    {
        proof {
            assert(sessions@[i as int]@ == s[i as int]);
            lemma_first_txn(s, i + 1);
            lemma_query_count_take(s, i + 1);
        }
        let ghost before = sessions@;
        assign_transaction_ids(&mut sessions[i].queries, &mut next);
        proof {
            assert(sessions@[i as int]@ == with_all_txns(s)[i as int]);
            assert forall|k: int| 0 <= k < i + 1 implies (#[trigger] sessions@[k])@ == with_all_txns(s)[k] by {
                if k < i {
                    assert(sessions@[k] == before[k]);
                }
            }
            assert forall|k: int| i + 1 <= k < n implies (#[trigger] sessions@[k])@ == s[k] by {
                assert(sessions@[k] == before[k]);
            }
        }
        i = i + 1;
    }
    proof {
        assert(session_views(sessions@) =~= with_all_txns(s));
    }
}

/// The number of queries of all sessions.
pub fn count_queries(sessions: &Vec<Session>) -> (r: u64)
    requires
        query_count(session_views(sessions@)) <= u64::MAX,
    ensures
        r == query_count(session_views(sessions@)),
{
    let ghost s = session_views(sessions@);
    let mut n: u64 = 0;
    for i in 0..sessions.len()
        invariant
            s == session_views(sessions@),
            query_count(s) <= u64::MAX,
            n == query_count(s.take(i as int)),
    {
        proof {
            assert(s.take(i + 1).drop_last() =~= s.take(i as int));
            assert(s.take(i + 1).last() == sessions@[i as int]@);
            lemma_query_count_take(s, i + 1);
        }
        n = n + (sessions[i].queries.len() as u64);
    }
    proof {
        assert(s.take(s.len() as int) =~= s);
    }
    n
}

/// The latest end of a session's last query.
pub fn find_workload_end(sessions: &Vec<Session>) -> (r: u64)
    requires
        ends_fit(session_views(sessions@)),
    ensures
        r == workload_end(session_views(sessions@)),
{
    let ghost s = session_views(sessions@);
    let mut end: u64 = 0;
    for i in 0..sessions.len()
        invariant
            s == session_views(sessions@),
            ends_fit(s),
            end == workload_end(s.take(i as int)),
    {
        proof {
            assert(s.take(i + 1).drop_last() =~= s.take(i as int));
            assert(s.take(i + 1).last() == sessions@[i as int]@);
            assert(last_end(s[i as int]) <= u64::MAX);
        }
        let q = &sessions[i].queries;
        let n = q.len();
        if n > 0 {
            let e: u64 = q[n - 1].start_offset_us + q[n - 1].duration_us;
            if e > end {
                end = e;
            }
        }
    }
    proof {
        assert(s.take(s.len() as int) =~= s);
    }
    end
}

// ── Sorting by session number ───────────────────────────────────────

/// The sessions with one more, behind all that do not have a greater number.
pub open spec fn insert_by_id(s: Seq<SessionView>, x: SessionView) -> Seq<SessionView>
    decreases s.len(),
{
    if s.len() == 0 || s.last().id <= x.id {
        s.push(x)
    } else {
        insert_by_id(s.drop_last(), x).push(s.last())
    }
}

/// The sessions ordered by number, those of the same number in the order in
/// which they came.
pub open spec fn sorted_by_id(s: Seq<SessionView>) -> Seq<SessionView>
    decreases s.len(),
{
    if s.len() == 0 {
        s
    } else {
        insert_by_id(sorted_by_id(s.drop_last()), s.last())
    }
}

/// Whether the numbers do not decrease.
pub open spec fn ids_ascend(s: Seq<SessionView>) -> bool {
    forall|i: int, j: int| 0 <= i < j < s.len() ==> s[i].id <= s[j].id
}

proof fn lemma_insert_by_id(s: Seq<SessionView>, x: SessionView)
    requires
        ids_ascend(s),
    ensures
        ids_ascend(insert_by_id(s, x)),
        insert_by_id(s, x).to_multiset() == s.to_multiset().insert(x),
        insert_by_id(s, x).len() == s.len() + 1,
        forall|k: int| 0 <= k < insert_by_id(s, x).len() ==> insert_by_id(s, x)[k] == x || exists|j: int|
            0 <= j < s.len() && insert_by_id(s, x)[k] == s[j],
    decreases s.len(),
{
    broadcast use vstd::seq_lib::group_to_multiset_ensures;

    if s.len() == 0 || s.last().id <= x.id {
        assert forall|k: int| 0 <= k < s.push(x).len() implies s.push(x)[k] == x || exists|j: int|
            0 <= j < s.len() && s.push(x)[k] == s[j] by {
            if k < s.len() {
                assert(s.push(x)[k] == s[k]);
            }
        }
    } else {
        let p = s.drop_last();
        lemma_insert_by_id(p, x);
        let q = insert_by_id(p, x);
        assert(p.push(s.last()) =~= s);
        assert forall|k: int| 0 <= k < q.push(s.last()).len() implies q.push(s.last())[k] == x || exists|j: int|
            0 <= j < s.len() && q.push(s.last())[k] == s[j] by {
            if k < q.len() {
                if q[k] != x {
                    let j = choose|j: int| 0 <= j < p.len() && q[k] == p[j];
                    assert(s[j] == p[j]);
                }
            } else {
                assert(q.push(s.last())[k] == s[s.len() - 1]);
            }
        }
        assert forall|i: int, j: int| 0 <= i < j < q.push(s.last()).len() implies q.push(s.last())[i].id
            <= q.push(s.last())[j].id by {
            if j == q.len() {
                if q[i] != x {
                    let m = choose|m: int| 0 <= m < p.len() && q[i] == p[m];
                    assert(s[m] == p[m]);
                }
            }
        }
        assert(s.to_multiset() == p.to_multiset().insert(s.last()));
        assert(q.push(s.last()).to_multiset() == q.to_multiset().insert(s.last()));
        assert(p.to_multiset().insert(x).insert(s.last()) =~= p.to_multiset().insert(s.last()).insert(x));
    }
}

/// Sorting by number orders the sessions and neither adds nor loses one.
pub proof fn law_sorted_by_id(s: Seq<SessionView>)
    ensures
        ids_ascend(sorted_by_id(s)),
        sorted_by_id(s).to_multiset() == s.to_multiset(),
        sorted_by_id(s).len() == s.len(),
    decreases s.len(),
{
    broadcast use vstd::seq_lib::group_to_multiset_ensures;

    if s.len() > 0 {
        law_sorted_by_id(s.drop_last());
        lemma_insert_by_id(sorted_by_id(s.drop_last()), s.last());
        assert(s.drop_last().push(s.last()) =~= s);
    }
}

/// Sorts sessions by number.
pub fn sort_sessions(sessions: Vec<Session>) -> (r: Vec<Session>)
    ensures
        session_views(r@) == sorted_by_id(session_views(sessions@)),
{
    let ghost s = session_views(sessions@);
    let mut out: Vec<Session> = Vec::new();
    proof {
        assert(session_views(out@) =~= sorted_by_id(s.take(0)));
    }
    for x in it: sessions
        invariant
            s == session_views(it.seq()),
            session_views(out@) == sorted_by_id(s.take(it.index() as int)),
    {
        proof {
            let i = it.index() as int;
            assert(x@ == s[i]);
            assert(s.take(i + 1).drop_last() =~= s.take(i));
            assert(s.take(i + 1).last() == x@);
        }
        insert_session(&mut out, x);
    }
    proof {
        assert(s.take(s.len() as int) =~= s);
    }
    out
}

fn insert_session(out: &mut Vec<Session>, x: Session)
    ensures
        session_views(final(out)@) == insert_by_id(session_views(old(out)@), x@),
{
    let ghost before = session_views(out@);
    let ghost xv = x@;
    let mut i: usize = out.len();
    proof {
        assert(before.take(i as int) =~= before);
        assert(before.skip(i as int) =~= Seq::<SessionView>::empty());
        assert(insert_by_id(before, xv) =~= insert_by_id(before.take(i as int), xv) + before.skip(i as int));
    }
    while i > 0 && out[i - 1].id > x.id
        invariant
            i <= out@.len(),
            before == session_views(out@),
            before == session_views(old(out)@),
            xv == x@,
            insert_by_id(before, xv) == insert_by_id(before.take(i as int), xv) + before.skip(i as int),
        decreases i,
    {
        proof {
            let t = before.take(i as int);
            assert(t.last() == out@[i - 1]@);
            assert(t.drop_last() =~= before.take(i - 1));
            assert(insert_by_id(before.take(i - 1), xv).push(t.last()) + before.skip(i as int)
                =~= insert_by_id(before.take(i - 1), xv) + before.skip(i - 1));
        }
        i = i - 1;
    }
    proof {
        let t = before.take(i as int);
        assert(t.len() > 0 ==> t.last() == out@[i - 1]@);
        assert(insert_by_id(t, xv) == t.push(xv));
    }
    out.insert(i, x);
    proof {
        assert(session_views(out@) =~= before.take(i as int).push(xv) + before.skip(i as int));
    }
}

// ── Copies ──────────────────────────────────────────────────────────

/// A copy of queries.
pub fn copy_queries(v: &Vec<Query>) -> (r: Vec<Query>)
    ensures
        query_views(r@) == query_views(v@),
{
    let mut out: Vec<Query> = Vec::new();
    for i in 0..v.len()
        invariant
            out@.len() == i,
            forall|k: int| 0 <= k < i ==> (#[trigger] out@[k])@ == v@[k]@,
    {
        out.push(v[i].duplicate());
    }
    proof {
        assert(query_views(out@) =~= query_views(v@));
    }
    out
}

impl Session {
    /// A copy of the session.
    pub fn duplicate(&self) -> (r: Session)
        ensures
            r@ == self@,
    {
        Session {
            id: self.id,
            user: copy_string(self.user.as_str()),
            database: copy_string(self.database.as_str()),
            queries: copy_queries(&self.queries),
        }
    }
}

} // verus!
