//! What the proxy decides for each message that it relays.
//!
//! The relay tasks read a message, ask here what is to be done, and do it:
//! which bytes go on, which capture events are reported, and when the
//! connection ends.

use crate::correlate::capture::{
    has_returning, has_returning_word, inject_returning, injected, is_currval_or_lastval, pk_views,
    reads_sequence, PkView, TablePk,
};
use crate::proxy::capture::{value_rows, CaptureEvent, EventView};
use crate::proxy::protocol::{
    bind_message, bind_param_text, build_query_message, classify_startup, data_row, error_message,
    extract_bind, extract_data_row, extract_error_message, extract_parse, extract_query_sql,
    extract_row_description, format_bind_params, inline_bind_params, numbered, opt_view, opt_views,
    parse_message, parse_startup_params, query_message, query_sql, row_description, startup_message_params,
    startup_type, MessageView, PgMessage, StartupType,
};
use crate::proxy::wire::{be_int, field, read_i32};
use crate::sql::placeholder::filled;
use crate::text::{copy_string, views};
use std::collections::VecDeque;
use vstd::hash_map::StringHashMap;
use vstd::prelude::*;

verus! {

// ── Configuration ───────────────────────────────────────────────────

/// Timeout configuration for proxy connections, in seconds. `None` means no
/// timeout.
#[derive(Clone, Copy, Debug)]
pub struct TimeoutConfig {
    /// Client idle read timeout.
    pub client_timeout: Option<u64>,
    /// Server idle read timeout.
    pub server_timeout: Option<u64>,
    /// Authentication phase timeout.
    pub auth_timeout: Option<u64>,
    /// Idle-in-transaction warning threshold.
    pub idle_transaction_timeout: Option<u64>,
    /// Maximum message size in bytes, 0 for no limit.
    pub max_message_size: u32,
}

/// Zero seconds stand for no timeout.
pub open spec fn timeout_of(secs: u64) -> Option<u64> {
    if secs > 0 {
        Some(secs)
    } else {
        None
    }
}

fn timeout_from(secs: u64) -> (r: Option<u64>)
    ensures
        r == timeout_of(secs),
{
    if secs > 0 {
        Some(secs)
    } else {
        None
    }
}

impl TimeoutConfig {
    /// Build from seconds values. 0 means no timeout.
    pub fn from_secs(client: u64, server: u64, auth: u64) -> (r: Self)
        ensures
            r.client_timeout == timeout_of(client),
            r.server_timeout == timeout_of(server),
            r.auth_timeout == timeout_of(auth),
            r.idle_transaction_timeout is None,
            r.max_message_size == 0,
    {
        TimeoutConfig::from_secs_full(client, server, auth, 0)
    }

    /// Build from seconds values, with the idle-in-transaction threshold.
    pub fn from_secs_full(client: u64, server: u64, auth: u64, idle_transaction: u64) -> (r: Self)
        ensures
            r.client_timeout == timeout_of(client),
            r.server_timeout == timeout_of(server),
            r.auth_timeout == timeout_of(auth),
            r.idle_transaction_timeout == timeout_of(idle_transaction),
            r.max_message_size == 0,
    {
        TimeoutConfig {
            client_timeout: timeout_from(client),
            server_timeout: timeout_from(server),
            auth_timeout: timeout_from(auth),
            idle_transaction_timeout: timeout_from(idle_transaction),
            max_message_size: 0,
        }
    }

    /// The same timeouts with a limit on the size of messages.
    pub fn with_max_message_size(self, max: u32) -> (r: Self)
        ensures
            r == (TimeoutConfig { max_message_size: max, ..self }),
    {
        TimeoutConfig {
            client_timeout: self.client_timeout,
            server_timeout: self.server_timeout,
            auth_timeout: self.auth_timeout,
            idle_transaction_timeout: self.idle_transaction_timeout,
            max_message_size: max,
        }
    }
}

/// State for implicit RETURNING injection.
///
/// Holds the primary key map discovered at proxy startup. It is not changed
/// after construction.
#[derive(Debug, Clone)]
pub struct ImplicitCaptureState {
    /// Primary key columns per table.
    pub pk_map: Vec<TablePk>,
    /// When true, suppress injected RETURNING results from the client, which
    /// then sees the same response as to a bare INSERT.
    pub stealth: bool,
}

/// The model of implicit capture.
pub struct ImplicitView {
    pub pk_map: Seq<PkView>,
    pub stealth: bool,
}

impl View for ImplicitCaptureState {
    type V = ImplicitView;

    open spec fn view(&self) -> ImplicitView {
        ImplicitView { pk_map: pk_views(self.pk_map@), stealth: self.stealth }
    }
}

/// The model of implicit capture where it may be off.
pub open spec fn opt_implicit(o: Option<ImplicitCaptureState>) -> Option<ImplicitView> {
    match o {
        Some(s) => Some(s@),
        None => None,
    }
}

/// The state for implicit capture that a configuration asks for.
pub fn build_implicit_capture_state(
    id_capture_implicit: bool,
    pk_map: &Option<Vec<TablePk>>,
    no_stealth: bool,
) -> (r: Option<ImplicitCaptureState>)
    ensures
        r is Some <==> id_capture_implicit,
        r is Some ==> r->0.stealth == !no_stealth && pk_views(r->0.pk_map@) == match *pk_map {
            Some(v) => pk_views(v@),
            None => Seq::empty(),
        },
{
    if !id_capture_implicit {
        return None;
    }
    let mut out: Vec<TablePk> = Vec::new();
    match pk_map {
        Some(v) => {
            for i in 0..v.len()
                invariant
                    out@.len() == i,
                    forall|k: int| 0 <= k < i ==> (#[trigger] out@[k])@ == v@[k]@,
            {
                out.push(v[i].duplicate());
            }
            proof {
                assert(pk_views(out@) =~= pk_views(v@));
            }
        },
        None => {
            proof {
                assert(pk_views(out@) =~= Seq::<PkView>::empty());
            }
        },
    }
    Some(ImplicitCaptureState { pk_map: out, stealth: !no_stealth })
}

/// State for RETURNING clause detection and DataRow capture of one connection.
///
/// Tracks a queue of booleans (one per query/parse) telling whether the query
/// has a RETURNING clause, and accumulates column descriptions and row data
/// from the server response.
#[derive(Debug)]
pub struct CorrelateState {
    /// FIFO of booleans: true if the query at this position has RETURNING.
    pub returning_queue: VecDeque<bool>,
    /// Column names from the most recent RowDescription (if RETURNING).
    pub pending_columns: Vec<String>,
    /// Accumulated data rows from DataRow messages (if RETURNING).
    pub pending_rows: Vec<Vec<Option<String>>>,
    /// When true, RowDescription and DataRow messages are not sent to the
    /// client: they came from an injected RETURNING.
    pub suppress_response: bool,
}

/// The model of the correlation state.
pub struct CorrelateView {
    pub queue: Seq<bool>,
    pub columns: Seq<Seq<char>>,
    pub rows: Seq<Seq<Option<Seq<char>>>>,
    pub suppress: bool,
}

impl View for CorrelateState {
    type V = CorrelateView;

    open spec fn view(&self) -> CorrelateView {
        CorrelateView {
            queue: self.returning_queue@,
            columns: views(self.pending_columns@),
            rows: value_rows(self.pending_rows@),
            suppress: self.suppress_response,
        }
    }
}

/// The model of the correlation state where it may be off.
pub open spec fn opt_correlate(o: Option<CorrelateState>) -> Option<CorrelateView> {
    match o {
        Some(s) => Some(s@),
        None => None,
    }
}

/// Nothing is expected and nothing is held back.
pub open spec fn fresh_correlate() -> CorrelateView {
    CorrelateView { queue: Seq::empty(), columns: Seq::empty(), rows: Seq::empty(), suppress: false }
}

impl CorrelateState {
    pub fn new() -> (r: Self)
        ensures
            r@ == fresh_correlate(),
    {
        let r = CorrelateState {
            returning_queue: VecDeque::new(),
            pending_columns: Vec::new(),
            pending_rows: Vec::new(),
            suppress_response: false,
        };
        proof {
            assert(r@.columns =~= Seq::<Seq<char>>::empty());
            assert(r@.rows =~= Seq::<Seq<Option<Seq<char>>>>::empty());
        }
        r
    }
}

impl Default for CorrelateState {
    fn default() -> (r: Self)
        ensures
            r@ == fresh_correlate(),
    {
        CorrelateState::new()
    }
}

// ── Startup and authentication ──────────────────────────────────────

/// What to do with the first message of a client.
#[derive(Debug, Clone, Copy, PartialEq, Eq, Structural)]
pub enum StartupStep {
    /// Answer 'N' and read the startup message that follows.
    RejectSsl,
    /// Close the connection.
    Close,
    /// Go on with this message.
    Proceed,
}

/// What to do with the first message of a client: TLS is refused, a cancel
/// request and an unknown message end the connection.
pub open spec fn startup_step(m: MessageView) -> StartupStep {
    match startup_type(m) {
        StartupType::SslRequest => StartupStep::RejectSsl,
        StartupType::CancelRequest => StartupStep::Close,
        StartupType::StartupMessage => StartupStep::Proceed,
        StartupType::Unknown => StartupStep::Close,
    }
}

pub fn on_startup_message(msg: &PgMessage) -> (r: StartupStep)
    ensures
        r == startup_step(msg@),
{
    match classify_startup(msg) {
        StartupType::SslRequest => StartupStep::RejectSsl,
        StartupType::CancelRequest => StartupStep::Close,
        StartupType::StartupMessage => StartupStep::Proceed,
        StartupType::Unknown => StartupStep::Close,
    }
}

/// User and database of a session: the user is `unknown` if the startup
/// message names none, the database has the user's name if it names none.
pub open spec fn session_identity(m: MessageView) -> (Seq<char>, Seq<char>) {
    let p = startup_message_params(m);
    let user = match p.user {
        Some(u) => u,
        None => "unknown"@,
    };
    let database = match p.database {
        Some(d) => d,
        None => user,
    };
    (user, database)
}

pub fn identify_session(msg: &PgMessage) -> (r: (String, String))
    requires
        msg@.framed(),
    ensures
        (r.0@, r.1@) == session_identity(msg@),
{
    let (user, database) = parse_startup_params(msg);
    let user = match user {
        Some(u) => u,
        None => copy_string("unknown"),
    };
    let database = match database {
        Some(d) => d,
        None => copy_string(user.as_str()),
    };
    (user, database)
}

/// What follows a message of the server during authentication, once it has
/// been passed on.
#[derive(Debug, Clone, Copy, PartialEq, Eq, Structural)]
pub enum AuthStep {
    /// Authentication is complete.
    Ready,
    /// The server sends another message.
    ReadServer,
    /// The client answers.
    ReadClient,
}

/// ReadyForQuery ends authentication. An authentication request is answered
/// by the client unless it says that authentication succeeded (0) or verifies
/// the server (12).
pub open spec fn auth_step(m: MessageView) -> AuthStep {
    if m.msg_type == 90 {
        AuthStep::Ready
    } else if m.msg_type == 82 && m.body().len() >= 4 && be_int(field(m.body(), 0, 4)) != 0 && be_int(
        field(m.body(), 0, 4),
    ) != 12 {
        AuthStep::ReadClient
    } else {
        AuthStep::ReadServer
    }
}

pub fn on_auth_message(msg: &PgMessage) -> (r: AuthStep)
    requires
        msg@.framed(),
    ensures
        r == auth_step(msg@),
{
    if msg.msg_type == 90 {
        return AuthStep::Ready;
    }
    if msg.msg_type == 82 {
        let body = msg.body();
        if body.len() >= 4 {
            let kind = read_i32(body, 0);
            if kind != 0 && kind != 12 {
                return AuthStep::ReadClient;
            }
        }
    }
    AuthStep::ReadServer
}

// ── Prepared statements ─────────────────────────────────────────────

/// The SQL of prepared statements, by name.
pub type StmtView = Map<Seq<char>, Seq<char>>;

/// The SQL of a statement.
pub open spec fn stmt_sql(s: StmtView, name: Seq<char>) -> Option<Seq<char>> {
    if s.contains_key(name) {
        Some(s[name])
    } else {
        None
    }
}

/// The statements with one more, which replaces an earlier one of its name.
pub open spec fn stmt_stored(s: StmtView, name: Seq<char>, sql: Seq<char>) -> StmtView {
    s.insert(name, sql)
}

/// A statement is found as it was stored last, and storing one changes no
/// other.
pub proof fn law_stmt_store_then_find(s: StmtView, name: Seq<char>, sql: Seq<char>, other: Seq<char>)
    ensures
        stmt_sql(stmt_stored(s, name, sql), name) == Some(sql),
        other != name ==> stmt_sql(stmt_stored(s, name, sql), other) == stmt_sql(s, other),
{
}

/// Prepared statements of a session, by name.
pub struct StmtCache {
    entries: StringHashMap<String>,
}

impl View for StmtCache {
    type V = StmtView;

    closed spec fn view(&self) -> StmtView {
        self.entries@.map_values(|s: String| s@)
    }
}

impl StmtCache {
    pub fn new() -> (r: Self)
        ensures
            r@ == Map::<Seq<char>, Seq<char>>::empty(),
    {
        let r = StmtCache { entries: StringHashMap::new() };
        proof {
            assert(r@ =~= Map::<Seq<char>, Seq<char>>::empty());
        }
        r
    }

    /// The SQL of a statement.
    pub fn get(&self, name: &str) -> (r: Option<String>)
        ensures
            opt_view(r) == stmt_sql(self@, name@),
    {
        match self.entries.get(name) {
            Some(sql) => {
                proof {
                    assert(self@[name@] == sql@);
                }
                Some(copy_string(sql.as_str()))
            },
            None => {
                proof {
                    assert(!self@.contains_key(name@));
                }
                None
            },
        }
    }

    /// Stores a statement.
    pub fn insert(&mut self, name: String, sql: String)
        ensures
            final(self)@ == stmt_stored(old(self)@, name@, sql@),
    {
        let ghost before = self@;
        let ghost nv = name@;
        self.entries.insert(name, sql);
        proof {
            assert(self@ =~= before.insert(nv, sql@));
        }
    }
}

// ── From client to server ───────────────────────────────────────────

/// What the proxy does with a message of the client.
#[derive(Debug)]
pub struct ClientAction {
    /// The message that goes to the server.
    pub send: PgMessage,
    /// The event to report.
    pub event: Option<CaptureEvent>,
    /// Whether the event is reported only when the message has been sent.
    pub event_after_send: bool,
    /// Whether the connection ends here.
    pub close: bool,
}

/// The model of the action.
pub struct ClientActionView {
    pub send: MessageView,
    pub event: Option<EventView>,
    pub event_after_send: bool,
    pub close: bool,
}

/// The model of an optional event.
pub open spec fn opt_event(e: Option<CaptureEvent>) -> Option<EventView> {
    match e {
        Some(x) => Some(x@),
        None => None,
    }
}

impl View for ClientAction {
    type V = ClientActionView;

    open spec fn view(&self) -> ClientActionView {
        ClientActionView {
            send: self.send@,
            event: opt_event(self.event),
            event_after_send: self.event_after_send,
            close: self.close,
        }
    }
}

/// The correlation state with one more query expected.
pub open spec fn expect_query(c: Option<CorrelateView>, returning: bool) -> Option<CorrelateView> {
    match c {
        Some(s) => Some(CorrelateView { queue: s.queue.push(returning), ..s }),
        None => None,
    }
}

/// The correlation state with the response to an injected RETURNING expected,
/// held back in stealth mode.
pub open spec fn expect_injected(c: Option<CorrelateView>, stealth: bool) -> Option<CorrelateView> {
    match c {
        Some(s) => Some(CorrelateView { queue: s.queue.push(true), suppress: s.suppress || stealth, ..s }),
        None => None,
    }
}

/// What a client message leads to: the action and what the proxy remembers.
pub struct ClientStep {
    pub action: ClientActionView,
    pub stmts: StmtView,
    pub correlate: Option<CorrelateView>,
}

/// Passing the message on, with an event or without.
pub open spec fn pass_on(m: MessageView, event: Option<EventView>) -> ClientActionView {
    ClientActionView { send: m, event, event_after_send: false, close: false }
}

/// Passing on the message that ends the session.
pub open spec fn terminate(m: MessageView, event: Option<EventView>) -> ClientActionView {
    ClientActionView { send: m, event, event_after_send: true, close: true }
}

/// A simple query. With implicit capture a bare INSERT into a known table is
/// sent with a RETURNING clause; the captured text is the client's own.
pub open spec fn client_query(
    m: MessageView,
    sql: Seq<char>,
    stmts: StmtView,
    correlate: Option<CorrelateView>,
    implicit: Option<ImplicitView>,
    id: u64,
    now: u64,
) -> ClientStep {
    let event = Some(EventView::QueryStart { session_id: id, sql, timestamp: now });
    let as_is = |returning: bool|
        ClientStep { action: pass_on(m, event), stmts, correlate: expect_query(correlate, returning) };
    match implicit {
        Some(ic) => if reads_sequence(sql) {
            as_is(true)
        } else {
            match injected(sql, ic.pk_map) {
                Some(text) => ClientStep {
                    action: ClientActionView {
                        send: query_message(text),
                        event,
                        event_after_send: true,
                        close: false,
                    },
                    stmts,
                    correlate: expect_injected(correlate, ic.stealth),
                },
                None => as_is(has_returning_word(sql)),
            }
        },
        None => as_is(has_returning_word(sql)),
    }
}

/// Whether a statement to be prepared will give rows that are captured.
pub open spec fn prepared_returns(sql: Seq<char>, implicit: Option<ImplicitView>) -> bool {
    has_returning_word(sql) || match implicit {
        Some(ic) => reads_sequence(sql) || injected(sql, ic.pk_map) is Some,
        None => false,
    }
}

/// The texts of the parameters of a Bind message.
pub open spec fn bind_texts(params: Seq<Option<Seq<u8>>>) -> Seq<Seq<char>> {
    Seq::new(params.len(), |i: int| bind_param_text(params[i]))
}

/// What the proxy does with a message of the client.
pub open spec fn client_step(
    m: MessageView,
    stmts: StmtView,
    correlate: Option<CorrelateView>,
    implicit: Option<ImplicitView>,
    no_capture: bool,
    id: u64,
    now: u64,
) -> ClientStep {
    let plain = ClientStep { action: pass_on(m, None), stmts, correlate };
    if no_capture {
        if m.msg_type == 88 {
            ClientStep { action: terminate(m, None), ..plain }
        } else {
            plain
        }
    } else if m.msg_type == 81 {
        match query_sql(m) {
            Some(sql) => client_query(m, sql, stmts, correlate, implicit, id, now),
            None => plain,
        }
    } else if m.msg_type == 80 {
        match parse_message(m) {
            Some((name, sql)) => ClientStep {
                stmts: stmt_stored(stmts, name, sql),
                correlate: expect_query(correlate, prepared_returns(sql, implicit)),
                ..plain
            },
            None => plain,
        }
    } else if m.msg_type == 66 {
        match bind_message(m) {
            Some(b) => match stmt_sql(stmts, b.statement_name) {
                Some(template) => ClientStep {
                    action: pass_on(
                        m,
                        Some(
                            EventView::QueryStart {
                                session_id: id,
                                sql: filled(template, numbered(bind_texts(b.parameters))),
                                timestamp: now,
                            },
                        ),
                    ),
                    ..plain
                },
                None => plain,
            },
            None => plain,
        }
    } else if m.msg_type == 88 {
        ClientStep { action: terminate(m, Some(EventView::SessionEnd { session_id: id })), ..plain }
    } else {
        plain
    }
}

fn expect(correlate: &mut Option<CorrelateState>, returning: bool)
    ensures
        opt_correlate(*final(correlate)) == expect_query(opt_correlate(*old(correlate)), returning),
{
    match correlate {
        Some(s) => {
            s.returning_queue.push_back(returning);
        },
        None => {},
    }
}

fn expect_rewritten(correlate: &mut Option<CorrelateState>, stealth: bool)
    ensures
        opt_correlate(*final(correlate)) == expect_injected(opt_correlate(*old(correlate)), stealth),
{
    match correlate {
        Some(s) => {
            s.returning_queue.push_back(true);
            if stealth {
                s.suppress_response = true;
            }
        },
        None => {},
    }
}

fn on_client_query(
    msg: PgMessage,
    sql: String,
    correlate: &mut Option<CorrelateState>,
    implicit: &Option<ImplicitCaptureState>,
    id: u64,
    now: u64,
    Ghost(stmts): Ghost<StmtView>,
) -> (r: ClientAction)
    ensures
        ({
            let s = client_query(
                msg@,
                sql@,
                stmts,
                opt_correlate(*old(correlate)),
                opt_implicit(*implicit),
                id,
                now,
            );
            r@ == s.action && opt_correlate(*final(correlate)) == s.correlate && s.stmts == stmts
        }),
{
    let returning = match implicit {
        Some(ic) => if is_currval_or_lastval(sql.as_str()) {
            true
        } else {
            match inject_returning(sql.as_str(), ic.pk_map.as_slice()) {
                Some(text) => {
                    expect_rewritten(correlate, ic.stealth);
                    return ClientAction {
                        send: build_query_message(text.as_str()),
                        event: Some(CaptureEvent::QueryStart { session_id: id, sql, timestamp: now }),
                        event_after_send: true,
                        close: false,
                    };
                },
                None => has_returning(sql.as_str()),
            }
        },
        None => has_returning(sql.as_str()),
    };
    expect(correlate, returning);
    ClientAction {
        send: msg,
        event: Some(CaptureEvent::QueryStart { session_id: id, sql, timestamp: now }),
        event_after_send: false,
        close: false,
    }
}

fn prepared_gives_rows(sql: &str, implicit: &Option<ImplicitCaptureState>) -> (r: bool)
    ensures
        r == prepared_returns(sql@, opt_implicit(*implicit)),
{
    has_returning(sql) || match implicit {
        Some(ic) => is_currval_or_lastval(sql) || inject_returning(sql, ic.pk_map.as_slice()).is_some(),
        None => false,
    }
}

/// Decides on a message of the client.
pub fn on_client_message(
    msg: PgMessage,
    stmts: &mut StmtCache,
    correlate: &mut Option<CorrelateState>,
    implicit: &Option<ImplicitCaptureState>,
    no_capture: bool,
    session_id: u64,
    now: u64,
) -> (r: ClientAction)
    requires
        msg@.framed(),
    ensures
        ({
            let s = client_step(
                msg@,
                old(stmts)@,
                opt_correlate(*old(correlate)),
                opt_implicit(*implicit),
                no_capture,
                session_id,
                now,
            );
            &&& r@ == s.action
            &&& final(stmts)@ == s.stmts
            &&& opt_correlate(*final(correlate)) == s.correlate
        }),
{
    let kind = msg.msg_type;
    if no_capture {
        let end = kind == 88;
        return ClientAction { send: msg, event: None, event_after_send: end, close: end };
    }
    if kind == 81 {
        if let Some(sql) = extract_query_sql(&msg) {
            return on_client_query(msg, sql, correlate, implicit, session_id, now, Ghost(stmts@));
        }
    } else if kind == 80 {
        if let Some(p) = extract_parse(&msg) {
            let returning = prepared_gives_rows(p.sql.as_str(), implicit);
            expect(correlate, returning);
            stmts.insert(p.statement_name, p.sql);
        }
    } else if kind == 66 {
        if let Some(b) = extract_bind(&msg) {
            if let Some(template) = stmts.get(b.statement_name.as_str()) {
                let params = format_bind_params(b.parameters.as_slice());
                proof {
                    assert(views(params@) =~= bind_texts(b@.parameters));
                }
                let sql = inline_bind_params(template.as_str(), params.as_slice());
                return ClientAction {
                    send: msg,
                    event: Some(CaptureEvent::QueryStart { session_id, sql, timestamp: now }),
                    event_after_send: false,
                    close: false,
                };
            }
        }
    } else if kind == 88 {
        return ClientAction {
            send: msg,
            event: Some(CaptureEvent::SessionEnd { session_id }),
            event_after_send: true,
            close: true,
        };
    }
    ClientAction { send: msg, event: None, event_after_send: false, close: false }
}

/// With capture off, or for a message that is no simple query, the server gets
/// exactly the client's message.
pub proof fn law_client_message_unchanged(
    m: MessageView,
    stmts: StmtView,
    correlate: Option<CorrelateView>,
    implicit: Option<ImplicitView>,
    no_capture: bool,
    id: u64,
    now: u64,
)
    requires
        no_capture || m.msg_type != 81 || implicit is None,
    ensures
        client_step(m, stmts, correlate, implicit, no_capture, id, now).action.send == m,
{
}

/// A captured query has the text that the client sent, also where the server
/// gets another.
pub proof fn law_captured_text_is_the_clients(
    m: MessageView,
    stmts: StmtView,
    correlate: Option<CorrelateView>,
    implicit: Option<ImplicitView>,
    id: u64,
    now: u64,
)
    requires
        m.msg_type == 81,
    ensures
        client_step(m, stmts, correlate, implicit, false, id, now).action.event == Some(
            EventView::QueryStart { session_id: id, sql: query_sql(m)->0, timestamp: now },
        ),
{
}

// ── From server to client ───────────────────────────────────────────

/// Maximum number of columns to capture from RETURNING clause.
pub const MAX_RETURNING_COLUMNS: usize = 20;

/// Maximum number of rows to capture from RETURNING clause.
pub const MAX_RETURNING_ROWS: usize = 100;

/// What the proxy does with a message of the server.
#[derive(Debug)]
pub struct ServerAction {
    /// The first event to report.
    pub event: Option<CaptureEvent>,
    /// The event to report behind it: the rows that the completed query gave.
    pub returning: Option<CaptureEvent>,
    /// Whether the message goes to the client.
    pub forward: bool,
    /// Whether the client's stream is flushed.
    pub flush: bool,
}

/// The model of the action.
pub struct ServerActionView {
    pub event: Option<EventView>,
    pub returning: Option<EventView>,
    pub forward: bool,
    pub flush: bool,
}

impl View for ServerAction {
    type V = ServerActionView;

    open spec fn view(&self) -> ServerActionView {
        ServerActionView {
            event: opt_event(self.event),
            returning: opt_event(self.returning),
            forward: self.forward,
            flush: self.flush,
        }
    }
}

/// The state behind a row description: if rows of a RETURNING clause are
/// expected, its columns are kept and stale rows dropped.
pub open spec fn described(s: CorrelateView, m: MessageView) -> CorrelateView {
    if s.queue.len() > 0 && s.queue[0] {
        match row_description(m) {
            Some(cols) => CorrelateView {
                columns: if cols.len() > MAX_RETURNING_COLUMNS { cols.take(MAX_RETURNING_COLUMNS as int) } else { cols },
                rows: Seq::empty(),
                ..s
            },
            None => s,
        }
    } else {
        s
    }
}

/// The state behind a data row: if columns are known, the row is kept, up to
/// the maximum number.
pub open spec fn row_added(s: CorrelateView, m: MessageView) -> CorrelateView {
    if s.columns.len() > 0 {
        match data_row(m, s.columns.len()) {
            Some(values) => if s.rows.len() < MAX_RETURNING_ROWS {
                CorrelateView { rows: s.rows.push(values), ..s }
            } else {
                s
            },
            None => s,
        }
    } else {
        s
    }
}

/// The state when a command is complete: the next query is at the front, and
/// what a RETURNING clause gave has been handed out.
pub open spec fn completed(s: CorrelateView) -> CorrelateView {
    if s.queue.len() == 0 {
        s
    } else if s.queue[0] {
        CorrelateView { queue: s.queue.skip(1), columns: Seq::empty(), rows: Seq::empty(), ..s }
    } else {
        CorrelateView { queue: s.queue.skip(1), ..s }
    }
}

/// The state behind an error: the query is gone, and nothing is held back.
pub open spec fn failed(s: CorrelateView) -> CorrelateView {
    CorrelateView {
        queue: if s.queue.len() == 0 { s.queue } else { s.queue.skip(1) },
        columns: Seq::empty(),
        rows: Seq::empty(),
        suppress: false,
    }
}

/// The rows that a completed command gave, if it had a RETURNING clause and
/// gave any.
pub open spec fn returned(s: CorrelateView, id: u64, now: u64) -> Option<EventView> {
    if s.queue.len() > 0 && s.queue[0] && s.rows.len() > 0 {
        Some(EventView::QueryReturning { session_id: id, columns: s.columns, rows: s.rows, timestamp: now })
    } else {
        None
    }
}

/// What capture makes of a message of the server: the state and two events.
pub open spec fn observed(
    m: MessageView,
    c: Option<CorrelateView>,
    id: u64,
    now: u64,
) -> (Option<CorrelateView>, Option<EventView>, Option<EventView>) {
    if m.msg_type == 84 {
        (
            match c {
                Some(s) => Some(described(s, m)),
                None => None,
            },
            None,
            None,
        )
    } else if m.msg_type == 68 {
        (
            match c {
                Some(s) => Some(row_added(s, m)),
                None => None,
            },
            None,
            None,
        )
    } else if m.msg_type == 67 {
        (
            match c {
                Some(s) => Some(completed(s)),
                None => None,
            },
            Some(EventView::QueryComplete { session_id: id, timestamp: now }),
            match c {
                Some(s) => returned(s, id, now),
                None => None,
            },
        )
    } else if m.msg_type == 69 {
        (
            match c {
                Some(s) => Some(failed(s)),
                None => None,
            },
            match error_message(m) {
                Some(text) => Some(EventView::QueryError { session_id: id, message: text, timestamp: now }),
                None => None,
            },
            None,
        )
    } else {
        (c, None, None)
    }
}

/// Whether responses are being held back.
pub open spec fn holds_back(c: Option<CorrelateView>) -> bool {
    match c {
        Some(s) => s.suppress,
        None => false,
    }
}

/// The state with nothing held back.
pub open spec fn released(c: Option<CorrelateView>) -> Option<CorrelateView> {
    match c {
        Some(s) => Some(CorrelateView { suppress: false, ..s }),
        None => None,
    }
}

/// What a server message leads to.
pub struct ServerStep {
    pub action: ServerActionView,
    pub correlate: Option<CorrelateView>,
}

/// What the proxy does with a message of the server. Row descriptions and rows
/// that are held back are captured but not sent on; the completion of the
/// command is sent on and ends the holding back.
pub open spec fn server_step(
    m: MessageView,
    correlate: Option<CorrelateView>,
    no_capture: bool,
    id: u64,
    now: u64,
) -> ServerStep {
    let (c, event, returning) = if no_capture {
        (correlate, None, None)
    } else {
        observed(m, correlate, id, now)
    };
    let hidden = holds_back(c) && (m.msg_type == 84 || m.msg_type == 68);
    ServerStep {
        action: ServerActionView { event, returning, forward: !hidden, flush: !hidden && m.msg_type == 90 },
        correlate: if holds_back(c) && m.msg_type == 67 { released(c) } else { c },
    }
}

fn describe(s: &mut CorrelateState, msg: &PgMessage)
    requires
        msg@.framed(),
    ensures
        final(s)@ == described(old(s)@, msg@),
{
    let ghost before = s@;
    if s.returning_queue.len() > 0 && s.returning_queue[0] {
        if let Some(cols) = extract_row_description(msg) {
            let ghost all = views(cols@);
            let mut cols = cols;
            cols.truncate(MAX_RETURNING_COLUMNS);
            s.pending_columns = cols;
            s.pending_rows.clear();
            proof {
                assert(s@.columns =~= described(before, msg@).columns);
                assert(s@.rows =~= Seq::<Seq<Option<Seq<char>>>>::empty());
            }
        }
    }
}

fn add_row(s: &mut CorrelateState, msg: &PgMessage)
    requires
        msg@.framed(),
    ensures
        final(s)@ == row_added(old(s)@, msg@),
{
    let ghost before = s@;
    let n = s.pending_columns.len();
    if n > 0 {
        if let Some(values) = extract_data_row(msg, n) {
            if s.pending_rows.len() < MAX_RETURNING_ROWS {
                let ghost vv = opt_views(values@);
                s.pending_rows.push(values);
                proof {
                    assert(s@.rows =~= before.rows.push(vv));
                }
            }
        }
    }
}

fn complete(s: &mut CorrelateState, id: u64, now: u64) -> (r: Option<CaptureEvent>)
    ensures
        final(s)@ == completed(old(s)@),
        opt_event(r) == returned(old(s)@, id, now),
{
    let ghost before = s@;
    let front = s.returning_queue.pop_front();
    let was_returning = match front {
        Some(b) => b,
        None => false,
    };
    proof {
        if before.queue.len() > 0 {
            assert(s@.queue =~= before.queue.skip(1));
        } else {
            assert(s@.queue =~= before.queue);
        }
    }
    if !was_returning {
        return None;
    }
    let mut columns: Vec<String> = Vec::new();
    columns.append(&mut s.pending_columns);
    let mut rows: Vec<Vec<Option<String>>> = Vec::new();
    rows.append(&mut s.pending_rows);
    proof {
        assert(views(columns@) =~= before.columns);
        assert(value_rows(rows@) =~= before.rows);
        assert(s@.columns =~= Seq::<Seq<char>>::empty());
        assert(s@.rows =~= Seq::<Seq<Option<Seq<char>>>>::empty());
    }
    if rows.len() > 0 {
        Some(CaptureEvent::QueryReturning { session_id: id, columns, rows, timestamp: now })
    } else {
        None
    }
}

fn fail(s: &mut CorrelateState)
    ensures
        final(s)@ == failed(old(s)@),
{
    let ghost before = s@;
    let gone = s.returning_queue.pop_front();
    s.pending_columns.clear();
    s.pending_rows.clear();
    s.suppress_response = false;
    proof {
        if before.queue.len() > 0 {
            assert(s@.queue =~= before.queue.skip(1));
        } else {
            assert(s@.queue =~= before.queue);
        }
        assert(s@.columns =~= Seq::<Seq<char>>::empty());
        assert(s@.rows =~= Seq::<Seq<Option<Seq<char>>>>::empty());
    }
}

/// Decides on a message of the server.
pub fn on_server_message(
    msg: &PgMessage,
    correlate: &mut Option<CorrelateState>,
    no_capture: bool,
    session_id: u64,
    now: u64,
) -> (r: ServerAction)
    requires
        msg@.framed(),
    ensures
        ({
            let s = server_step(msg@, opt_correlate(*old(correlate)), no_capture, session_id, now);
            r@ == s.action && opt_correlate(*final(correlate)) == s.correlate
        }),
{
    let kind = msg.msg_type;
    let mut event: Option<CaptureEvent> = None;
    let mut returning: Option<CaptureEvent> = None;
    if !no_capture {
        if kind == 84 {
            if let Some(s) = correlate {
                describe(s, msg);
            }
        } else if kind == 68 {
            if let Some(s) = correlate {
                add_row(s, msg);
            }
        } else if kind == 67 {
            event = Some(CaptureEvent::QueryComplete { session_id, timestamp: now });
            if let Some(s) = correlate {
                returning = complete(s, session_id, now);
            }
        } else if kind == 69 {
            if let Some(s) = correlate {
                fail(s);
            }
            if let Some(message) = extract_error_message(msg) {
                event = Some(CaptureEvent::QueryError { session_id, message, timestamp: now });
            }
        }
    }
    let ghost c = opt_correlate(*correlate);
    proof {
        let o = observed(msg@, opt_correlate(*old(correlate)), session_id, now);
        assert(!no_capture ==> c == o.0 && opt_event(event) == o.1 && opt_event(returning) == o.2);
    }
    let suppress = match correlate {
        Some(s) => s.suppress_response,
        None => false,
    };
    let hidden = suppress && (kind == 84 || kind == 68);
    if suppress && kind == 67 {
        if let Some(s) = correlate {
            s.suppress_response = false;
        }
    }
    ServerAction { event, returning, forward: !hidden, flush: !hidden && kind == 90 }
}

/// In stealth mode the client never sees the response to an injected RETURNING:
/// while responses are held back, descriptions and rows are not sent on, the
/// completion is, and nothing is held back behind it.
pub proof fn law_stealth_hides_injected_rows(m: MessageView, s: CorrelateView, no_capture: bool, id: u64, now: u64)
    requires
        s.suppress,
    ensures
        (m.msg_type == 84 || m.msg_type == 68) ==> {
            let t = server_step(m, Some(s), no_capture, id, now);
            !t.action.forward && holds_back(t.correlate)
        },
        m.msg_type == 67 ==> {
            let t = server_step(m, Some(s), no_capture, id, now);
            t.action.forward && !holds_back(t.correlate)
        },
{
}

/// Where nothing is held back every message of the server reaches the client.
pub proof fn law_forwards_unless_held_back(
    m: MessageView,
    c: Option<CorrelateView>,
    no_capture: bool,
    id: u64,
    now: u64,
)
    requires
        !holds_back(c),
    ensures
        server_step(m, c, no_capture, id, now).action.forward,
        !holds_back(server_step(m, c, no_capture, id, now).correlate),
{
}

/// An error ends the holding back and drops what was captured of the query.
pub proof fn law_error_clears_correlation(m: MessageView, s: CorrelateView, id: u64, now: u64)
    requires
        m.msg_type == 69,
    ensures
        ({
            let t = server_step(m, Some(s), false, id, now);
            &&& t.action.forward
            &&& t.correlate->0.columns.len() == 0
            &&& t.correlate->0.rows.len() == 0
            &&& !t.correlate->0.suppress
        }),
{
}

/// The rows kept of a RETURNING clause never exceed the maximum.
pub proof fn law_captured_rows_bounded(m: MessageView, s: CorrelateView, no_capture: bool, id: u64, now: u64)
    requires
        s.rows.len() <= MAX_RETURNING_ROWS,
        s.columns.len() <= MAX_RETURNING_COLUMNS,
    ensures
        server_step(m, Some(s), no_capture, id, now).correlate->0.rows.len() <= MAX_RETURNING_ROWS,
        server_step(m, Some(s), no_capture, id, now).correlate->0.columns.len() <= MAX_RETURNING_COLUMNS,
{
}

} // verus!
