//! Messages of the PostgreSQL wire protocol.
//!
//! A message of the startup phase has no type byte; every other one has. The
//! payload begins with its own length in four bytes.

use crate::number::{decimal, push_decimal};
use crate::proxy::pg_binary::{quoted, quotes_doubled, sql_quote_text};
use crate::proxy::wire::{
    append_bytes, be_bytes4, be_int, be_uint, copy_bytes, field, find_zero, law_be_bytes4_round_trip,
    lemma_be_bytes4_low, lemma_zero_from, push_u32, read_i16, read_i32, read_u16, zero_from,
};
use crate::sql::placeholder::{fill, filled, numbered_views};
use crate::text::{copy_string, from_utf8, lossy, lossy_string, views};
use vstd::prelude::*;
use vstd::slice::slice_subrange;
use vstd::utf8::{decode_utf8, encode_utf8, encode_utf8_decode_utf8, encode_utf8_valid_utf8, valid_utf8};

verus! {

/// A parsed PG protocol message frame.
#[derive(Debug, Clone)]
pub struct PgMessage {
    /// Message type byte. 0 for startup messages (no type byte).
    pub msg_type: u8,
    /// Complete message bytes (including length but NOT type byte).
    pub payload: Vec<u8>,
}

/// The model of a message.
pub struct MessageView {
    pub msg_type: u8,
    pub payload: Seq<u8>,
}

impl View for PgMessage {
    type V = MessageView;

    open spec fn view(&self) -> MessageView {
        MessageView { msg_type: self.msg_type, payload: self.payload@ }
    }
}

impl MessageView {
    /// The bytes behind the length.
    pub open spec fn body(self) -> Seq<u8> {
        self.payload.skip(4)
    }

    /// Whether the payload is long enough to hold its length.
    pub open spec fn framed(self) -> bool {
        self.payload.len() >= 4
    }

    /// Whether the length in the payload is the payload's length.
    pub open spec fn well_formed(self) -> bool {
        self.framed() && be_int(field(self.payload, 0, 4)) == self.payload.len()
    }

    /// The bytes of the message on the wire.
    pub open spec fn wire(self) -> Seq<u8> {
        if self.msg_type != 0 {
            seq![self.msg_type] + self.payload
        } else {
            self.payload
        }
    }
}

impl PgMessage {
    /// Total wire size of this message.
    pub fn wire_len(&self) -> (r: usize)
        requires
            self.payload@.len() < usize::MAX,
        ensures
            r == self@.wire().len(),
    {
        self.payload.len() + if self.msg_type != 0 { 1 } else { 0 }
    }

    /// The payload bytes after the 4-byte length field.
    pub fn body(&self) -> (r: &[u8])
        requires
            self@.framed(),
        ensures
            r@ == self@.body(),
    {
        let r = slice_subrange(self.payload.as_slice(), 4, self.payload.len());
        proof {
            assert(r@ =~= self@.body());
        }
        r
    }

    /// A copy of the message.
    pub fn duplicate(&self) -> (r: PgMessage)
        ensures
            r@ == self@,
    {
        PgMessage { msg_type: self.msg_type, payload: copy_bytes(self.payload.as_slice()) }
    }
}

// ── Framing ─────────────────────────────────────────────────────────

/// SSLRequest magic: length=8, code=80877103
pub const SSL_REQUEST_CODE: i32 = 80877103;

/// CancelRequest magic: length=16, code=80877102
pub const CANCEL_REQUEST_CODE: i32 = 80877102;

/// Protocol version 3.0: 196608
pub const PROTOCOL_VERSION_3: i32 = 196608;

/// Identifies what kind of startup-phase message this is.
#[derive(Debug, Clone, Copy, PartialEq, Eq, Structural)]
pub enum StartupType {
    SslRequest,
    CancelRequest,
    StartupMessage,
    Unknown,
}

/// Why bytes are not a message.
#[derive(Debug, Clone, Copy, PartialEq, Eq, Structural)]
pub enum FrameError {
    /// The length is below four.
    InvalidLength(i32),
    /// The bytes end before the message does.
    UnexpectedEof,
}

/// How many bytes follow a length field, which counts itself.
pub fn body_len(header: &[u8]) -> (r: Result<usize, FrameError>)
    requires
        header@.len() == 4,
    ensures
        r is Err <==> be_int(header@) < 4,
        r is Err ==> r->Err_0 == FrameError::InvalidLength(be_int(header@) as i32),
        r is Ok ==> r->Ok_0 == be_int(header@) - 4,
{
    proof {
        assert(field(header@, 0, 4) =~= header@);
    }
    let len = read_i32(header, 0);
    if len < 4 {
        Err(FrameError::InvalidLength(len))
    } else {
        Ok((len - 4) as usize)
    }
}

/// What the bytes of a stream begin with: a frame of the length that its first
/// four bytes give.
pub open spec fn frame_of(b: Seq<u8>) -> Result<Seq<u8>, FrameError> {
    if b.len() < 4 {
        Err(FrameError::UnexpectedEof)
    } else if be_int(b.take(4)) < 4 {
        Err(FrameError::InvalidLength(be_int(b.take(4)) as i32))
    } else if b.len() < be_int(b.take(4)) {
        Err(FrameError::UnexpectedEof)
    } else {
        Ok(b.take(be_int(b.take(4))))
    }
}

fn read_frame(b: &[u8]) -> (r: Result<Vec<u8>, FrameError>)
    ensures
        match frame_of(b@) {
            Ok(p) => r is Ok && r->Ok_0@ == p,
            Err(e) => r == Err::<Vec<u8>, FrameError>(e),
        },
{
    if b.len() < 4 {
        return Err(FrameError::UnexpectedEof);
    }
    proof {
        assert(b@.subrange(0, 4) =~= b@.take(4));
        assert(field(b@, 0, 4) =~= b@.take(4));
    }
    match body_len(slice_subrange(b, 0, 4)) {
        Err(e) => Err(e),
        Ok(n) => {
            if b.len() - 4 < n {
                return Err(FrameError::UnexpectedEof);
            }
            proof {
                assert(b@.subrange(0, 4 + n) =~= b@.take(be_int(b@.take(4))));
            }
            Ok(copy_bytes(slice_subrange(b, 0, 4 + n)))
        },
    }
}

/// Reads the message that the bytes of a stream begin with. `None` if the
/// stream has ended.
pub fn read_message(stream: &[u8]) -> (r: Result<Option<PgMessage>, FrameError>)
    ensures
        stream@.len() == 0 ==> r == Ok::<Option<PgMessage>, FrameError>(None),
        stream@.len() > 0 ==> match frame_of(stream@.skip(1)) {
            Ok(p) => r is Ok && r->Ok_0 is Some && r->Ok_0->0@ == (MessageView {
                msg_type: stream@[0],
                payload: p,
            }),
            Err(e) => r == Err::<Option<PgMessage>, FrameError>(e),
        },
{
    if stream.len() == 0 {
        return Ok(None);
    }
    proof {
        assert(stream@.subrange(1, stream@.len() as int) =~= stream@.skip(1));
    }
    match read_frame(slice_subrange(stream, 1, stream.len())) {
        Ok(payload) => Ok(Some(PgMessage { msg_type: stream[0], payload })),
        Err(e) => Err(e),
    }
}

/// Reads a startup-phase message, which has no type byte. `None` if the stream
/// ends within the length.
pub fn read_startup_message(stream: &[u8]) -> (r: Result<Option<PgMessage>, FrameError>)
    ensures
        stream@.len() < 4 ==> r == Ok::<Option<PgMessage>, FrameError>(None),
        stream@.len() >= 4 ==> match frame_of(stream@) {
            Ok(p) => r is Ok && r->Ok_0 is Some && r->Ok_0->0@ == (MessageView { msg_type: 0, payload: p }),
            Err(e) => r == Err::<Option<PgMessage>, FrameError>(e),
        },
{
    if stream.len() < 4 {
        return Ok(None);
    }
    match read_frame(stream) {
        Ok(payload) => Ok(Some(PgMessage { msg_type: 0, payload })),
        Err(e) => Err(e),
    }
}

/// The bytes that put a message on the wire.
pub fn write_message(msg: &PgMessage) -> (r: Vec<u8>)
    ensures
        r@ == msg@.wire(),
{
    let mut out: Vec<u8> = Vec::new();
    if msg.msg_type != 0 {
        out.push(msg.msg_type);
    }
    append_bytes(&mut out, msg.payload.as_slice());
    proof {
        assert(out@ =~= msg@.wire());
    }
    out
}

/// What is written is read back: the wire bytes of a well-formed message, with
/// anything behind them, begin with that message.
pub proof fn law_write_then_read(m: MessageView, rest: Seq<u8>)
    requires
        m.well_formed(),
    ensures
        m.msg_type != 0 ==> (m.wire() + rest)[0] == m.msg_type && frame_of((m.wire() + rest).skip(1)) == Ok::<
            Seq<u8>,
            FrameError,
        >(m.payload),
        m.msg_type == 0 ==> frame_of(m.wire() + rest) == Ok::<Seq<u8>, FrameError>(m.payload),
{
    let b = m.payload + rest;
    assert(b.take(4) =~= field(m.payload, 0, 4));
    assert(b.take(m.payload.len() as int) =~= m.payload);
    if m.msg_type != 0 {
        assert((m.wire() + rest).skip(1) =~= b);
    }
}

/// The protocol code of a startup-phase message.
pub open spec fn startup_type(m: MessageView) -> StartupType {
    if m.payload.len() < 8 {
        StartupType::Unknown
    } else if be_int(field(m.payload, 4, 4)) == SSL_REQUEST_CODE {
        StartupType::SslRequest
    } else if be_int(field(m.payload, 4, 4)) == CANCEL_REQUEST_CODE {
        StartupType::CancelRequest
    } else if be_int(field(m.payload, 4, 4)) == PROTOCOL_VERSION_3 {
        StartupType::StartupMessage
    } else {
        StartupType::Unknown
    }
}

/// Classify a startup-phase message by its protocol code.
pub fn classify_startup(msg: &PgMessage) -> (r: StartupType)
    ensures
        r == startup_type(msg@),
{
    if msg.payload.len() < 8 {
        return StartupType::Unknown;
    }
    let code = read_i32(msg.payload.as_slice(), 4);
    if code == SSL_REQUEST_CODE {
        StartupType::SslRequest
    } else if code == CANCEL_REQUEST_CODE {
        StartupType::CancelRequest
    } else if code == PROTOCOL_VERSION_3 {
        StartupType::StartupMessage
    } else {
        StartupType::Unknown
    }
}

/// The names of two startup parameters.
pub open spec fn user_key() -> Seq<u8> {
    seq![117u8, 115u8, 101u8, 114u8]
}

pub open spec fn database_key() -> Seq<u8> {
    seq![100u8, 97u8, 116u8, 97u8, 98u8, 97u8, 115u8, 101u8]
}

/// User and database.
pub struct StartupParams {
    pub user: Option<Seq<char>>,
    pub database: Option<Seq<char>>,
}

impl StartupParams {
    /// The parameters with one more key and value read.
    pub open spec fn with(self, key: Seq<u8>, value: Seq<u8>) -> StartupParams {
        if key == user_key() {
            StartupParams { user: Some(lossy(value)), database: self.database }
        } else if key == database_key() {
            StartupParams { user: self.user, database: Some(lossy(value)) }
        } else {
            self
        }
    }
}

/// The parameters that the zero-terminated keys and values from `at` on give,
/// beginning with those that were read before. An empty key ends them.
pub open spec fn startup_params(b: Seq<u8>, at: int, known: StartupParams) -> StartupParams
    decreases b.len() - at,
{
    match zero_from(b, at) {
        Some(k) => if k <= at || k >= b.len() {
            known
        } else {
            match zero_from(b, k + 1) {
                Some(v) => if v <= k || v >= b.len() {
                    known
                } else {
                    startup_params(b, v + 1, known.with(b.subrange(at, k), b.subrange(k + 1, v)))
                },
                None => known.with(b.subrange(at, k), b.subrange(k + 1, b.len() as int)),
            }
        },
        None => known,
    }
}

/// The parameters of a startup message.
pub open spec fn startup_message_params(m: MessageView) -> StartupParams {
    let none = StartupParams { user: None, database: None };
    if m.body().len() < 4 {
        none
    } else {
        startup_params(m.body(), 4, none)
    }
}

/// The model of an optional text.
pub open spec fn opt_view(s: Option<String>) -> Option<Seq<char>> {
    match s {
        Some(t) => Some(t@),
        None => None,
    }
}

fn bytes_are(a: &[u8], b: &[u8]) -> (r: bool)
    ensures
        r == (a@ == b@),
{
    if a.len() != b.len() {
        return false;
    }
    for i in 0..a.len()
        invariant
            a@.len() == b@.len(),
            forall|k: int| 0 <= k < i ==> a@[k] == b@[k],
    {
        if a[i] != b[i] {
            return false;
        }
    }
    proof {
        assert(a@ =~= b@);
    }
    true
}

/// Extract user and database from a StartupMessage.
/// The body after the version field is a sequence of null-terminated key-value pairs.
pub fn parse_startup_params(msg: &PgMessage) -> (r: (Option<String>, Option<String>))
    requires
        msg@.framed(),
    ensures
        opt_view(r.0) == startup_message_params(msg@).user,
        opt_view(r.1) == startup_message_params(msg@).database,
{
    let body = msg.body();
    let mut user: Option<String> = None;
    let mut database: Option<String> = None;
    if body.len() < 4 {
        return (user, database);
    }
    let user_name: [u8; 4] = [117, 115, 101, 114];
    let database_name: [u8; 8] = [100, 97, 116, 97, 98, 97, 115, 101];
    proof {
        assert(user_name@ =~= user_key());
        assert(database_name@ =~= database_key());
    }
    let mut at: usize = 4;
    let ghost all = startup_message_params(msg@);
    loop
        invariant
            body@ == msg@.body(),
            at <= body@.len(),
            user_name@ == user_key(),
            database_name@ == database_key(),
            all == startup_message_params(msg@),
            all == startup_params(
                body@,
                at as int,
                StartupParams { user: opt_view(user), database: opt_view(database) },
            ),
        ensures
            opt_view(user) == all.user,
            opt_view(database) == all.database,
        decreases body@.len() - at,
    {
        let k = match find_zero(body, at) {
            Some(k) => k,
            None => {
                break;
            },
        };
        if k == at {
            break;
        }
        let (v, last) = match find_zero(body, k + 1) {
            Some(v) => (v, false),
            None => (body.len(), true),
        };
        let key = slice_subrange(body, at, k);
        let value = slice_subrange(body, k + 1, v);
        if bytes_are(key, &user_name) {
            user = Some(lossy_string(value));
        } else if bytes_are(key, &database_name) {
            database = Some(lossy_string(value));
        }
        if last {
            break;
        }
        at = v + 1;
    }
    (user, database)
}

// ── Content of specific messages ────────────────────────────────────

/// The payload of a message with the given body.
pub open spec fn payload_of(body: Seq<u8>) -> Seq<u8> {
    be_bytes4((body.len() + 4) as nat) + body
}

/// A payload made for a body holds its own length and that body.
pub proof fn law_payload_well_formed(msg_type: u8, body: Seq<u8>)
    requires
        body.len() + 4 <= i32::MAX,
    ensures
        (MessageView { msg_type, payload: payload_of(body) }).well_formed(),
        (MessageView { msg_type, payload: payload_of(body) }).body() == body,
{
    let p = payload_of(body);
    assert(field(p, 0, 4) =~= be_bytes4((body.len() + 4) as nat));
    law_be_bytes4_round_trip((body.len() + 4) as nat);
    assert(p.skip(4) =~= body);
}

/// Build a Query ('Q') message from a SQL string. The length field holds the
/// low 32 bits of the length.
pub fn build_query_message(sql: &str) -> (r: PgMessage)
    ensures
        r@ == query_message(sql@),
{
    let text = sql.as_bytes();
    let mut payload: Vec<u8> = length_field(text.len());
    append_bytes(&mut payload, text);
    payload.push(0);
    proof {
        let body = text@.push(0);
        assert(be_bytes4((text@.len() + 5) as nat) + text@.push(0) =~= (be_bytes4((text@.len() + 5) as nat)
            + text@).push(0));
        assert(body.len() + 4 == text@.len() + 5);
    }
    PgMessage { msg_type: 81, payload }
}

/// The length field of a payload that holds a text of `n` bytes and a zero byte.
fn length_field(n: usize) -> (r: Vec<u8>)
    ensures
        r@ == be_bytes4((n + 5) as nat),
{
    let low: u64 = ((n as u64) % 4294967296 + 5) % 4294967296;
    proof {
        assert(low == (n + 5) % 4294967296);
        lemma_be_bytes4_low((n + 5) as nat);
    }
    let mut out: Vec<u8> = Vec::new();
    push_u32(&mut out, low as u32);
    proof {
        assert(out@ =~= be_bytes4(low as nat));
    }
    out
}

/// The Query ('Q') message for a SQL text: the text and a zero byte.
pub open spec fn query_message(sql: Seq<char>) -> MessageView {
    MessageView { msg_type: 81, payload: payload_of(encode_utf8(sql).push(0)) }
}

/// A text without a trailing zero byte.
pub open spec fn without_terminator(b: Seq<u8>) -> Seq<u8> {
    if b.len() > 0 && b.last() == 0 {
        b.drop_last()
    } else {
        b
    }
}

/// The SQL of a Query ('Q') message.
pub open spec fn query_sql(m: MessageView) -> Option<Seq<char>> {
    if m.msg_type != 81 {
        None
    } else {
        Some(lossy(without_terminator(m.body())))
    }
}

/// Extract SQL text from a Query ('Q') message.
/// Body is: SQL string followed by null terminator.
pub fn extract_query_sql(msg: &PgMessage) -> (r: Option<String>)
    requires
        msg@.msg_type == 81 ==> msg@.framed(),
    ensures
        opt_view(r) == query_sql(msg@),
{
    if msg.msg_type != 81 {
        return None;
    }
    let body = msg.body();
    let n = body.len();
    if n > 0 && body[n - 1] == 0 {
        proof {
            assert(body@.subrange(0, n - 1) =~= body@.drop_last());
        }
        Some(lossy_string(slice_subrange(body, 0, n - 1)))
    } else {
        Some(lossy_string(body))
    }
}

/// A query message built from a text carries that text.
pub proof fn law_query_round_trip(sql: Seq<char>)
    requires
        encode_utf8(sql).len() + 5 <= i32::MAX,
    ensures
        query_message(sql).well_formed(),
        query_sql(query_message(sql)) == Some(sql),
{
    let body = encode_utf8(sql).push(0);
    law_payload_well_formed(81, body);
    assert(body.drop_last() =~= encode_utf8(sql));
    encode_utf8_valid_utf8(sql);
    encode_utf8_decode_utf8(sql);
}

/// Parsed Parse ('P') message: statement name + SQL text.
#[derive(Debug, Clone)]
pub struct ParseMessage {
    pub statement_name: String,
    pub sql: String,
}

/// Name and SQL of a Parse ('P') message.
pub open spec fn parse_message(m: MessageView) -> Option<(Seq<char>, Seq<char>)> {
    let b = m.body();
    if m.msg_type != 80 {
        None
    } else {
        match zero_from(b, 0) {
            Some(n) => match zero_from(b, n + 1) {
                Some(s) => Some((lossy(b.subrange(0, n)), lossy(b.subrange(n + 1, s)))),
                None => None,
            },
            None => None,
        }
    }
}

/// Extract statement name and SQL from a Parse ('P') message.
/// Body: name (null-terminated) + query (null-terminated) + param count (i16) + param OIDs.
pub fn extract_parse(msg: &PgMessage) -> (r: Option<ParseMessage>)
    requires
        msg@.msg_type == 80 ==> msg@.framed(),
    ensures
        r is Some <==> parse_message(msg@) is Some,
        r matches Some(p) ==> parse_message(msg@) == Some((p.statement_name@, p.sql@)),
{
    if msg.msg_type != 80 {
        return None;
    }
    let body = msg.body();
    match find_zero(body, 0) {
        None => None,
        Some(n) => match find_zero(body, n + 1) {
            None => None,
            Some(s) => Some(
                ParseMessage {
                    statement_name: lossy_string(slice_subrange(body, 0, n)),
                    sql: lossy_string(slice_subrange(body, n + 1, s)),
                },
            ),
        },
    }
}

/// Parsed Bind ('B') message: portal name, statement name, parameter values.
#[derive(Debug, Clone)]
pub struct BindMessage {
    pub portal_name: String,
    pub statement_name: String,
    pub parameters: Vec<Option<Vec<u8>>>,
}

/// A field that a length in four bytes at `at` begins: NULL if the length is
/// -1, the bytes behind it otherwise, and the position behind the field.
pub open spec fn sized_field(b: Seq<u8>, at: int) -> Option<(Option<Seq<u8>>, int)> {
    if at + 4 > b.len() {
        None
    } else {
        let len = be_int(field(b, at, 4));
        if len == -1 {
            Some((None, at + 4))
        } else if len < 0 || at + 4 + len > b.len() {
            None
        } else {
            Some((Some(field(b, at + 4, len)), at + 4 + len))
        }
    }
}

/// The model of optional bytes.
pub open spec fn opt_bytes(v: Option<Vec<u8>>) -> Option<Seq<u8>> {
    match v {
        Some(b) => Some(b@),
        None => None,
    }
}

fn read_sized_field(b: &[u8], at: usize) -> (r: Option<(Option<Vec<u8>>, usize)>)
    requires
        at <= b@.len(),
    ensures
        r is Some <==> sized_field(b@, at as int) is Some,
        r matches Some(f) ==> sized_field(b@, at as int) == Some((opt_bytes(f.0), f.1 as int)) && at < f.1
            <= b@.len(),
{
    let n: usize = b.len();
    if n - at < 4 {
        return None;
    }
    let len = read_i32(b, at);
    let start: usize = at + 4;
    if len == -1 {
        return Some((None, start));
    }
    if len < 0 || n - start < (len as usize) {
        return None;
    }
    let end: usize = start + (len as usize);
    Some((Some(copy_bytes(slice_subrange(b, start, end))), end))
}

/// The first `n` fields from `at` on, as far as the bytes hold them.
pub open spec fn fields_while(b: Seq<u8>, at: int, n: int) -> Seq<Option<Seq<u8>>>
    decreases n,
{
    if n <= 0 {
        Seq::empty()
    } else {
        match sized_field(b, at) {
            Some((f, next)) => seq![f] + fields_while(b, next, n - 1),
            None => Seq::empty(),
        }
    }
}

/// The model of a Bind message.
pub struct BindView {
    pub portal_name: Seq<char>,
    pub statement_name: Seq<char>,
    pub parameters: Seq<Option<Seq<u8>>>,
}

/// The views of optional byte strings.
pub open spec fn bytes_views(v: Seq<Option<Vec<u8>>>) -> Seq<Option<Seq<u8>>> {
    Seq::new(v.len(), |i: int| opt_bytes(v[i]))
}

impl View for BindMessage {
    type V = BindView;

    open spec fn view(&self) -> BindView {
        BindView {
            portal_name: self.portal_name@,
            statement_name: self.statement_name@,
            parameters: bytes_views(self.parameters@),
        }
    }
}

/// What a Bind ('B') message says: portal, statement, a count of format codes
/// and the codes, a count of parameters and the parameters.
pub open spec fn bind_message(m: MessageView) -> Option<BindView> {
    let b = m.body();
    if m.msg_type != 66 {
        None
    } else {
        match zero_from(b, 0) {
            Some(p) => match zero_from(b, p + 1) {
                Some(s) => if s + 3 > b.len() {
                    None
                } else {
                    let formats = be_int(field(b, s + 1, 2));
                    let at = s + 3 + 2 * formats;
                    if formats < 0 || at + 2 > b.len() || be_int(field(b, at, 2)) < 0 {
                        None
                    } else {
                        Some(
                            BindView {
                                portal_name: lossy(b.subrange(0, p)),
                                statement_name: lossy(b.subrange(p + 1, s)),
                                parameters: fields_while(b, at + 2, be_int(field(b, at, 2))),
                            },
                        )
                    }
                },
                None => None,
            },
            None => None,
        }
    }
}

/// Extract portal name, statement name, and parameters from a Bind ('B') message.
/// Parameters that the message does not hold to their end are left out.
pub fn extract_bind(msg: &PgMessage) -> (r: Option<BindMessage>)
    requires
        msg@.msg_type == 66 ==> msg@.framed(),
    ensures
        r is Some <==> bind_message(msg@) is Some,
        r matches Some(b) ==> bind_message(msg@) == Some(b@),
{
    if msg.msg_type != 66 {
        return None;
    }
    let body = msg.body();
    let len: usize = body.len();
    let p = match find_zero(body, 0) {
        Some(p) => p,
        None => {
            return None;
        },
    };
    let s = match find_zero(body, p + 1) {
        Some(s) => s,
        None => {
            return None;
        },
    };
    if len - s < 3 {
        return None;
    }
    let formats = read_i16(body, s + 1);
    if formats < 0 || len - s - 3 < 2 * (formats as usize) {
        return None;
    }
    let at: usize = s + 3 + 2 * (formats as usize);
    if len - at < 2 {
        return None;
    }
    let count = read_i16(body, at);
    if count < 0 {
        return None;
    }
    let parameters = read_fields_while(body, at + 2, count as usize);
    Some(
        BindMessage {
            portal_name: lossy_string(slice_subrange(body, 0, p)),
            statement_name: lossy_string(slice_subrange(body, p + 1, s)),
            parameters,
        },
    )
}

fn read_fields_while(b: &[u8], at: usize, n: usize) -> (r: Vec<Option<Vec<u8>>>)
    requires
        at <= b@.len(),
    ensures
        bytes_views(r@) == fields_while(b@, at as int, n as int),
{
    let mut out: Vec<Option<Vec<u8>>> = Vec::new();
    let mut pos: usize = at;
    let ghost all = fields_while(b@, at as int, n as int);
    proof {
        assert(bytes_views(out@) + all =~= all);
    }
    for i in 0..n
        invariant
            pos <= b@.len(),
            all == bytes_views(out@) + fields_while(b@, pos as int, n - i),
            all == fields_while(b@, at as int, n as int),
    {
        match read_sized_field(b, pos) {
            Some((f, next)) => {
                let ghost rest = fields_while(b@, next as int, n - i - 1);
                let ghost before = bytes_views(out@);
                let ghost one = opt_bytes(f);
                out.push(f);
                pos = next;
                proof {
                    assert(bytes_views(out@) =~= before.push(one));
                    assert(before + (seq![one] + rest) =~= before.push(one) + rest);
                }
            },
            None => {
                proof {
                    assert(bytes_views(out@) + Seq::<Option<Seq<u8>>>::empty() =~= bytes_views(out@));
                }
                return out;
            },
        }
    }
    proof {
        assert(bytes_views(out@) + Seq::<Option<Seq<u8>>>::empty() =~= bytes_views(out@));
    }
    out
}

/// The tag of a CommandComplete ('C') message.
pub open spec fn command_tag(m: MessageView) -> Option<Seq<char>> {
    if m.msg_type != 67 {
        None
    } else {
        match zero_from(m.body(), 0) {
            Some(e) => Some(lossy(m.body().take(e))),
            None => Some(lossy(m.body())),
        }
    }
}

/// Extract the command tag from a CommandComplete ('C') message.
/// Body: tag string (null-terminated), e.g. "SELECT 5", "INSERT 0 1".
pub fn extract_command_complete(msg: &PgMessage) -> (r: Option<String>)
    requires
        msg@.msg_type == 67 ==> msg@.framed(),
    ensures
        opt_view(r) == command_tag(msg@),
{
    if msg.msg_type != 67 {
        return None;
    }
    let body = msg.body();
    match find_zero(body, 0) {
        Some(e) => {
            proof {
                assert(body@.subrange(0, e as int) =~= body@.take(e as int));
            }
            Some(lossy_string(slice_subrange(body, 0, e)))
        },
        None => Some(lossy_string(body)),
    }
}

/// The transaction state that a ReadyForQuery ('Z') message reports.
#[derive(Debug, Clone, Copy, PartialEq, Eq, Structural)]
pub enum TxnState {
    Idle,
    InTransaction,
    Failed,
}

/// The state in a ReadyForQuery ('Z') message.
pub open spec fn ready_state(m: MessageView) -> Option<TxnState> {
    if m.msg_type != 90 || m.body().len() == 0 {
        None
    } else if m.body()[0] == 73 {
        Some(TxnState::Idle)
    } else if m.body()[0] == 84 {
        Some(TxnState::InTransaction)
    } else if m.body()[0] == 69 {
        Some(TxnState::Failed)
    } else {
        None
    }
}

/// Extract the transaction state from a ReadyForQuery ('Z') message.
/// Body: single byte, 'I' (idle), 'T' (in transaction), 'E' (failed transaction).
pub fn extract_ready_for_query(msg: &PgMessage) -> (r: Option<TxnState>)
    requires
        msg@.msg_type == 90 ==> msg@.framed(),
    ensures
        r == ready_state(msg@),
{
    if msg.msg_type != 90 {
        return None;
    }
    let body = msg.body();
    if body.len() == 0 {
        return None;
    }
    match body[0] {
        73 => Some(TxnState::Idle),
        84 => Some(TxnState::InTransaction),
        69 => Some(TxnState::Failed),
        _ => None,
    }
}

/// The first 'M' field from `at` on: fields are a type byte and a
/// zero-terminated text; a zero type byte ends them.
pub open spec fn message_field(b: Seq<u8>, at: int) -> Option<Seq<u8>>
    decreases b.len() - at,
{
    if at < 0 || at >= b.len() || b[at] == 0 {
        None
    } else {
        match zero_from(b, at + 1) {
            Some(e) => if b[at] == 77 {
                Some(b.subrange(at + 1, e))
            } else if e <= at || e >= b.len() {
                None
            } else {
                message_field(b, e + 1)
            },
            None => None,
        }
    }
}

/// The message of an ErrorResponse ('E').
pub open spec fn error_message(m: MessageView) -> Option<Seq<char>> {
    if m.msg_type != 69 {
        None
    } else {
        match message_field(m.body(), 0) {
            Some(t) => Some(lossy(t)),
            None => None,
        }
    }
}

/// Extract error message from an ErrorResponse ('E') message.
/// Body: sequence of (type byte + null-terminated string) pairs, terminated by 0.
/// The 'M' (message) field is extracted.
pub fn extract_error_message(msg: &PgMessage) -> (r: Option<String>)
    requires
        msg@.msg_type == 69 ==> msg@.framed(),
    ensures
        opt_view(r) == error_message(msg@),
{
    if msg.msg_type != 69 {
        return None;
    }
    let body = msg.body();
    let mut at: usize = 0;
    while at < body.len()
        invariant
            body@ == msg@.body(),
            msg@.msg_type == 69,
            at <= body@.len(),
            message_field(body@, 0) == message_field(body@, at as int),
        decreases body@.len() - at,
    {
        let kind = body[at];
        if kind == 0 {
            return None;
        }
        match find_zero(body, at + 1) {
            None => {
                return None;
            },
            Some(e) => {
                if kind == 77 {
                    return Some(lossy_string(slice_subrange(body, at + 1, e)));
                }
                at = e + 1;
            },
        }
    }
    None
}

/// The fields of an error: severity, code and message, each with its type byte
/// and a zero byte behind it, and a zero byte that ends them.
pub open spec fn error_fields(severity: Seq<char>, code: Seq<char>, message: Seq<char>) -> Seq<u8> {
    seq![83u8] + encode_utf8(severity) + seq![0u8, 67u8] + encode_utf8(code) + seq![0u8, 77u8]
        + encode_utf8(message) + seq![0u8, 0u8]
}

/// The wire bytes of an ErrorResponse ('E').
pub fn build_error_response(severity: &str, code: &str, message: &str) -> (r: Vec<u8>)
    requires
        encode_utf8(severity@).len() + encode_utf8(code@).len() + encode_utf8(message@).len() + 11
            <= i32::MAX,
    ensures
        r@ == (MessageView {
            msg_type: 69,
            payload: payload_of(error_fields(severity@, code@, message@)),
        }).wire(),
{
    let mut body: Vec<u8> = Vec::new();
    body.push(83);
    append_bytes(&mut body, severity.as_bytes());
    body.push(0);
    body.push(67);
    append_bytes(&mut body, code.as_bytes());
    body.push(0);
    body.push(77);
    append_bytes(&mut body, message.as_bytes());
    body.push(0);
    body.push(0);
    proof {
        assert(body@ =~= error_fields(severity@, code@, message@));
    }
    let mut out: Vec<u8> = Vec::new();
    out.push(69);
    push_u32(&mut out, (body.len() + 4) as u32);
    append_bytes(&mut out, body.as_slice());
    proof {
        assert(out@ =~= (MessageView { msg_type: 69, payload: payload_of(body@) }).wire());
    }
    out
}

pub(crate) proof fn lemma_zero_at(b: Seq<u8>, from: int, at: int)
    requires
        0 <= from <= at < b.len(),
        b[at] == 0,
        forall|k: int| from <= k < at ==> b[k] != 0,
    ensures
        zero_from(b, from) == Some(at),
{
    lemma_zero_from(b, from);
}

proof fn lemma_skip_field(b: Seq<u8>, at: int, e: int)
    requires
        0 <= at < e < b.len(),
        b[at] != 0,
        b[at] != 77,
        zero_from(b, at + 1) == Some(e),
    ensures
        message_field(b, at) == message_field(b, e + 1),
{
}

proof fn lemma_error_layout(s: Seq<u8>, c: Seq<u8>, m: Seq<u8>)
    requires
        forall|i: int| 0 <= i < s.len() ==> s[i] != 0,
        forall|i: int| 0 <= i < c.len() ==> c[i] != 0,
        forall|i: int| 0 <= i < m.len() ==> m[i] != 0,
    ensures
        ({
            let b = seq![83u8] + s + seq![0u8, 67u8] + c + seq![0u8, 77u8] + m + seq![0u8, 0u8];
            let e1 = 1 + s.len() as int;
            let e2 = e1 + 2 + c.len() as int;
            let e3 = e2 + 2 + m.len() as int;
            &&& b.len() == e3 + 2
            &&& b[0] == 83 && b[e1 + 1] == 67 && b[e2 + 1] == 77
            &&& zero_from(b, 1) == Some(e1)
            &&& zero_from(b, e1 + 2) == Some(e2)
            &&& zero_from(b, e2 + 2) == Some(e3)
            &&& b.subrange(e2 + 2, e3) == m
        }),
{
    let b1 = seq![83u8] + s;
    let b2 = b1 + seq![0u8, 67u8];
    let b3 = b2 + c;
    let b4 = b3 + seq![0u8, 77u8];
    let b5 = b4 + m;
    let b = b5 + seq![0u8, 0u8];
    let e1 = 1 + s.len() as int;
    let e2 = e1 + 2 + c.len() as int;
    let e3 = e2 + 2 + m.len() as int;
    assert(b2.len() == e1 + 2);
    assert(b3.len() == e2);
    assert(b4.len() == e2 + 2);
    assert(b5.len() == e3);
    assert(b.take(e1) =~= b1);
    assert(b.take(e1 + 2) =~= b2);
    assert(b.take(e2) =~= b3);
    assert(b.take(e2 + 2) =~= b4);
    assert(b.take(e3) =~= b5);
    assert forall|k: int| 1 <= k < e1 implies b[k] != 0 by {
        assert(b.take(e1)[k] == s[k - 1]);
    }
    assert(b[e1] == b.take(e1 + 2)[e1]);
    assert(b[e1 + 1] == b.take(e1 + 2)[e1 + 1]);
    lemma_zero_at(b, 1, e1);
    assert forall|k: int| e1 + 2 <= k < e2 implies b[k] != 0 by {
        assert(b.take(e2)[k] == c[k - e1 - 2]);
    }
    assert(b[e2] == b.take(e2 + 2)[e2]);
    assert(b[e2 + 1] == b.take(e2 + 2)[e2 + 1]);
    lemma_zero_at(b, e1 + 2, e2);
    assert forall|k: int| e2 + 2 <= k < e3 implies b[k] != 0 by {
        assert(b.take(e3)[k] == m[k - e2 - 2]);
    }
    lemma_zero_at(b, e2 + 2, e3);
    assert(b.subrange(e2 + 2, e3) =~= m);
}

/// Whether a text has no zero byte in its UTF-8 form.
pub open spec fn without_nul(s: Seq<char>) -> bool {
    forall|i: int| 0 <= i < encode_utf8(s).len() ==> #[trigger] encode_utf8(s)[i] != 0
}

/// An error response carries the message it was built with, if its texts hold
/// no zero byte.
pub proof fn law_error_round_trip(severity: Seq<char>, code: Seq<char>, message: Seq<char>)
    requires
        encode_utf8(severity).len() + encode_utf8(code).len() + encode_utf8(message).len() + 11 <= i32::MAX,
        without_nul(severity),
        without_nul(code),
        without_nul(message),
    ensures
        error_message(
            MessageView { msg_type: 69, payload: payload_of(error_fields(severity, code, message)) },
        ) == Some(message),
{
    let b = error_fields(severity, code, message);
    law_payload_well_formed(69, b);
    let s = encode_utf8(severity);
    let c = encode_utf8(code);
    let m = encode_utf8(message);
    lemma_error_layout(s, c, m);
    let e1 = 1 + s.len() as int;
    let e2 = e1 + 2 + c.len() as int;
    lemma_skip_field(b, 0, e1);
    lemma_skip_field(b, e1 + 1, e2);
    encode_utf8_valid_utf8(message);
    encode_utf8_decode_utf8(message);
}

/// Process ID and secret of a BackendKeyData ('K') message.
pub open spec fn backend_key(m: MessageView) -> Option<(int, int)> {
    if m.msg_type != 75 || m.body().len() < 8 {
        None
    } else {
        Some((be_int(field(m.body(), 0, 4)), be_int(field(m.body(), 4, 4))))
    }
}

/// Extract the PID and secret key from a BackendKeyData ('K') message.
pub fn extract_backend_key_data(msg: &PgMessage) -> (r: Option<(i32, i32)>)
    requires
        msg@.msg_type == 75 ==> msg@.framed(),
    ensures
        r is Some <==> backend_key(msg@) is Some,
        r matches Some(k) ==> backend_key(msg@) == Some((k.0 as int, k.1 as int)),
{
    if msg.msg_type != 75 {
        return None;
    }
    let body = msg.body();
    if body.len() < 8 {
        return None;
    }
    Some((read_i32(body, 0), read_i32(body, 4)))
}

/// The names of `n` columns from `at` on: each zero-terminated, with 18 bytes
/// of description behind it.
pub open spec fn column_names(b: Seq<u8>, at: int, n: int) -> Option<Seq<Seq<char>>>
    decreases n,
{
    if n <= 0 {
        Some(Seq::empty())
    } else {
        match zero_from(b, at) {
            Some(e) => if e + 19 > b.len() {
                None
            } else {
                match column_names(b, e + 19, n - 1) {
                    Some(rest) => Some(seq![lossy(b.subrange(at, e))] + rest),
                    None => None,
                }
            },
            None => None,
        }
    }
}

/// The column names of a RowDescription ('T') message.
pub open spec fn row_description(m: MessageView) -> Option<Seq<Seq<char>>> {
    if m.msg_type != 84 || m.body().len() < 2 {
        None
    } else {
        column_names(m.body(), 2, be_uint(field(m.body(), 0, 2)) as int)
    }
}

/// Parse RowDescription ('T') message, returning the column names.
pub fn extract_row_description(msg: &PgMessage) -> (r: Option<Vec<String>>)
    requires
        msg@.msg_type == 84 ==> msg@.framed(),
    ensures
        r is Some <==> row_description(msg@) is Some,
        r matches Some(v) ==> row_description(msg@) == Some(views(v@)),
{
    if msg.msg_type != 84 {
        return None;
    }
    let body = msg.body();
    let len: usize = body.len();
    if len < 2 {
        return None;
    }
    let n: usize = read_u16(body, 0) as usize;
    let mut out: Vec<String> = Vec::new();
    let mut at: usize = 2;
    let ghost all = column_names(body@, 2, n as int);
    proof {
        assert(views(out@) =~= Seq::<Seq<char>>::empty());
        if let Some(x) = all {
            assert(views(out@) + x =~= x);
        }
    }
    for i in 0..n
        invariant
            len == body@.len(),
            at <= len,
            all == match column_names(body@, at as int, n - i) {
                Some(rest) => Some(views(out@) + rest),
                None => None,
            },
            row_description(msg@) == all,
    {
        match find_zero(body, at) {
            None => {
                return None;
            },
            Some(e) => {
                if len - e < 19 {
                    return None;
                }
                let name = lossy_string(slice_subrange(body, at, e));
                let ghost before = views(out@);
                let ghost one = name@;
                out.push(name);
                at = e + 19;
                proof {
                    assert(views(out@) =~= before.push(one));
                    if let Some(rest) = column_names(body@, at as int, n - i - 1) {
                        assert(before + (seq![one] + rest) =~= before.push(one) + rest);
                    }
                }
            },
        }
    }
    proof {
        assert(views(out@) + Seq::<Seq<char>>::empty() =~= views(out@));
    }
    Some(out)
}

/// The text of `n` fields from `at` on.
pub open spec fn row_values(b: Seq<u8>, at: int, n: int) -> Option<Seq<Option<Seq<char>>>>
    decreases n,
{
    if n <= 0 {
        Some(Seq::empty())
    } else {
        match sized_field(b, at) {
            Some((f, next)) => match row_values(b, next, n - 1) {
                Some(rest) => Some(
                    seq![match f {
                        Some(x) => Some(lossy(x)),
                        None => None,
                    }] + rest,
                ),
                None => None,
            },
            None => None,
        }
    }
}

/// The values of a DataRow ('D') message with the given number of columns.
pub open spec fn data_row(m: MessageView, columns: nat) -> Option<Seq<Option<Seq<char>>>> {
    if m.msg_type != 68 || m.body().len() < 2 || be_uint(field(m.body(), 0, 2)) != columns {
        None
    } else {
        row_values(m.body(), 2, columns as int)
    }
}

/// The views of optional strings.
pub open spec fn opt_views(v: Seq<Option<String>>) -> Seq<Option<Seq<char>>> {
    Seq::new(v.len(), |i: int| opt_view(v[i]))
}

/// Parse DataRow ('D') message, returning the column values as text strings.
pub fn extract_data_row(msg: &PgMessage, num_columns: usize) -> (r: Option<Vec<Option<String>>>)
    requires
        msg@.msg_type == 68 ==> msg@.framed(),
    ensures
        r is Some <==> data_row(msg@, num_columns as nat) is Some,
        r matches Some(v) ==> data_row(msg@, num_columns as nat) == Some(opt_views(v@)),
{
    if msg.msg_type != 68 {
        return None;
    }
    let body = msg.body();
    if body.len() < 2 {
        return None;
    }
    let n: usize = read_u16(body, 0) as usize;
    if n != num_columns {
        return None;
    }
    let mut out: Vec<Option<String>> = Vec::new();
    let mut at: usize = 2;
    let ghost all = row_values(body@, 2, n as int);
    proof {
        assert(opt_views(out@) =~= Seq::<Option<Seq<char>>>::empty());
        if let Some(x) = all {
            assert(opt_views(out@) + x =~= x);
        }
    }
    for i in 0..n
        invariant
            at <= body@.len(),
            all == match row_values(body@, at as int, n - i) {
                Some(rest) => Some(opt_views(out@) + rest),
                None => None,
            },
            data_row(msg@, num_columns as nat) == all,
    {
        match read_sized_field(body, at) {
            None => {
                return None;
            },
            Some((f, next)) => {
                let value = match f {
                    Some(bytes) => Some(lossy_string(bytes.as_slice())),
                    None => None,
                };
                let ghost before = opt_views(out@);
                let ghost one = opt_view(value);
                out.push(value);
                at = next;
                proof {
                    assert(opt_views(out@) =~= before.push(one));
                    if let Some(rest) = row_values(body@, at as int, n - i - 1) {
                        assert(before + (seq![one] + rest) =~= before.push(one) + rest);
                    }
                }
            },
        }
    }
    proof {
        assert(opt_views(out@) + Seq::<Option<Seq<char>>>::empty() =~= opt_views(out@));
    }
    Some(out)
}

/// The text that stands for a bind parameter: NULL, a quoted text, or the size
/// of bytes that are not text.
pub open spec fn bind_param_text(p: Option<Seq<u8>>) -> Seq<char> {
    match p {
        None => "NULL"@,
        Some(b) => if valid_utf8(b) {
            quoted(quotes_doubled(decode_utf8(b)))
        } else {
            "'<binary "@ + decimal(b.len()) + " bytes>'"@
        },
    }
}

fn format_bind_param(p: &Option<Vec<u8>>) -> (r: String)
    ensures
        r@ == bind_param_text(opt_bytes(*p)),
{
    let mut out = String::new();
    match p {
        None => {
            out.push_str("NULL");
            proof {
                assert(out@ =~= "NULL"@);
            }
            out
        },
        Some(bytes) => match from_utf8(bytes.as_slice()) {
            Some(s) => sql_quote_text(s.as_str()),
            None => {
                out.push_str("'<binary ");
                push_decimal(&mut out, bytes.len() as u64);
                out.push_str(" bytes>'");
                proof {
                    assert(out@ =~= "'<binary "@ + decimal(bytes@.len()) + " bytes>'"@);
                }
                out
            },
        },
    }
}

/// Format parameter values from a Bind message as strings for capture.
/// Text parameters are converted to strings; binary params shown as description.
/// NULL parameters become the string "NULL".
pub fn format_bind_params(params: &[Option<Vec<u8>>]) -> (r: Vec<String>)
    ensures
        r@.len() == params@.len(),
        forall|i: int| 0 <= i < r@.len() ==> (#[trigger] r@[i])@ == bind_param_text(opt_bytes(params@[i])),
{
    let mut out: Vec<String> = Vec::new();
    for i in 0..params.len()
        invariant
            out@.len() == i,
            forall|k: int| 0 <= k < i ==> (#[trigger] out@[k])@ == bind_param_text(opt_bytes(params@[k])),
    {
        out.push(format_bind_param(&params[i]));
    }
    out
}

/// Parameters with their numbers, which count from one.
pub open spec fn numbered(params: Seq<Seq<char>>) -> Seq<(nat, Seq<char>)> {
    Seq::new(params.len(), |i: int| ((i + 1) as nat, params[i]))
}

/// Inline bind parameters into a SQL template, replacing its placeholders $1,
/// $2, etc. What a parameter holds is not searched for placeholders.
pub fn inline_bind_params(sql: &str, params: &[String]) -> (r: String)
    ensures
        r@ == filled(sql@, numbered(views(params@))),
{
    let mut all: Vec<(usize, String)> = Vec::new();
    let n: usize = params.len();
    for i in 0..n
        invariant
            n == params@.len(),
            all@.len() == i,
            forall|k: int| 0 <= k < i ==> (#[trigger] all@[k]).0 == k + 1 && all@[k].1@ == params@[k]@,
    {
        all.push((i + 1, copy_string(params[i].as_str())));
    }
    proof {
        assert(numbered_views(all@) =~= numbered(views(params@)));
    }
    fill(sql, all.as_slice())
}

} // verus!
