//! Laws of PostgreSQL's wire messages: what is read is what was written.

use crate::number::decimal;
use crate::proxy::pg_binary::quotes_doubled;
use crate::proxy::protocol::{
    backend_key, bind_message, bind_param_text, column_names, command_tag, data_row, fields_while, frame_of,
    lemma_zero_at, numbered, parse_message, ready_state, row_description, row_values, sized_field,
    startup_message_params, startup_params, startup_type, without_nul, BindView, FrameError, MessageView,
    StartupParams, StartupType, TxnState,
};
use crate::proxy::wire::{
    be_bytes4, be_int, be_uint, field, law_be_bytes4_round_trip, lemma_be_uint_2, lemma_be_uint_4, zero_from,
};
use crate::text::lossy;
use vstd::prelude::*;
use vstd::utf8::{encode_utf8, encode_utf8_decode_utf8, encode_utf8_valid_utf8, valid_utf8};

verus! {

// ── Numbers ─────────────────────────────────────────────────────────

/// Two and four bytes hold a number with the most significant byte first, a
/// signed one in two's complement.
pub proof fn law_big_endian(a: u8, b: u8, c: u8, d: u8)
    ensures
        be_uint(seq![a, b]) == 256 * a + b,
        be_int(seq![a, b]) == 256 * a + b - (if a >= 128 { 65536int } else { 0int }),
        be_uint(seq![a, b, c, d]) == 16777216 * a + 65536 * b + 256 * c + d,
        be_int(seq![a, b, c, d]) == 16777216 * a + 65536 * b + 256 * c + d - (if a >= 128 {
            4294967296int
        } else {
            0int
        }),
{
    lemma_be_uint_2(seq![a, b]);
    lemma_be_uint_4(seq![a, b, c, d]);
}

// ── Texts ───────────────────────────────────────────────────────────

/// Whether the UTF-8 form of a text and a zero byte behind it stand at `at`.
pub open spec fn text_stands(b: Seq<u8>, at: int, s: Seq<char>) -> bool {
    let t = encode_utf8(s);
    &&& 0 <= at
    &&& at + t.len() < b.len()
    &&& without_nul(s)
    &&& b.subrange(at, at + t.len()) == t
    &&& b[at + t.len()] == 0
}

proof fn lemma_text(b: Seq<u8>, at: int, s: Seq<char>)
    requires
        text_stands(b, at, s),
    ensures
        zero_from(b, at) == Some(at + encode_utf8(s).len()),
        lossy(b.subrange(at, at + encode_utf8(s).len())) == s,
        lossy(encode_utf8(s)) == s,
{
    let t = encode_utf8(s);
    let e = at + t.len();
    encode_utf8_valid_utf8(s);
    encode_utf8_decode_utf8(s);
    assert forall|k: int| at <= k < e implies b[k] != 0 by {
        assert(b.subrange(at, e)[k - at] == b[k]);
        assert(t[k - at] != 0);
    }
    lemma_zero_at(b, at, e);
}

/// A Parse message is read with the name and the SQL that it holds.
pub proof fn law_parse_is_read(m: MessageView, name: Seq<char>, sql: Seq<char>)
    requires
        m.msg_type == 80,
        text_stands(m.body(), 0, name),
        text_stands(m.body(), encode_utf8(name).len() as int + 1, sql),
    ensures
        parse_message(m) == Some((name, sql)),
{
    lemma_text(m.body(), 0, name);
    lemma_text(m.body(), encode_utf8(name).len() as int + 1, sql);
}

/// A command's tag is read up to its zero byte.
pub proof fn law_command_tag_is_read(m: MessageView, tag: Seq<char>)
    requires
        m.msg_type == 67,
        text_stands(m.body(), 0, tag),
    ensures
        command_tag(m) == Some(tag),
{
    lemma_text(m.body(), 0, tag);
    assert(m.body().take(encode_utf8(tag).len() as int) =~= m.body().subrange(0, encode_utf8(tag).len() as int));
}

// ── Fields ──────────────────────────────────────────────────────────

/// Fields as they are sent: the length in four bytes and the bytes, a length of
/// -1 for NULL.
pub open spec fn sent_fields(fs: Seq<Option<Seq<u8>>>) -> Seq<u8>
    decreases fs.len(),
{
    if fs.len() == 0 {
        Seq::empty()
    } else {
        (match fs[0] {
            Some(v) => be_bytes4(v.len()) + v,
            None => seq![255u8, 255u8, 255u8, 255u8],
        }) + sent_fields(fs.skip(1))
    }
}

/// Whether no field is longer than its length can say.
pub open spec fn lengths_fit(fs: Seq<Option<Seq<u8>>>) -> bool {
    forall|i: int| 0 <= i < fs.len() ==> ((#[trigger] fs[i]) matches Some(v) ==> v.len() < 2147483648)
}

proof fn lemma_field(b: Seq<u8>, at: int, f: Option<Seq<u8>>, rest: Seq<u8>)
    requires
        0 <= at,
        f matches Some(v) ==> v.len() < 2147483648,
        ({
            let sent = (match f {
                Some(v) => be_bytes4(v.len()) + v,
                None => seq![255u8, 255u8, 255u8, 255u8],
            }) + rest;
            at + sent.len() <= b.len() && b.subrange(at, at + sent.len()) == sent
        }),
    ensures
        ({
            let next = at + 4 + (match f {
                Some(v) => v.len() as int,
                None => 0,
            });
            &&& sized_field(b, at) == Some((f, next))
            &&& next + rest.len() <= b.len()
            &&& b.subrange(next, next + rest.len()) == rest
        }),
{
    let head = match f {
        Some(v) => be_bytes4(v.len()) + v,
        None => seq![255u8, 255u8, 255u8, 255u8],
    };
    let sent = head + rest;
    let whole = b.subrange(at, at + sent.len());
    let next = at + head.len();
    assert(b.subrange(next, next + rest.len()) =~= rest) by {
        assert forall|k: int| 0 <= k < rest.len() implies b[next + k] == rest[k] by {
            assert(whole[head.len() + k] == sent[head.len() + k]);
        }
    }
    assert(field(b, at, 4) =~= head.take(4)) by {
        assert forall|k: int| 0 <= k < 4 implies b[at + k] == head[k] by {
            assert(whole[k] == sent[k]);
        }
    }
    match f {
        Some(v) => {
            assert(head.take(4) =~= be_bytes4(v.len()));
            law_be_bytes4_round_trip(v.len());
            assert(field(b, at + 4, v.len() as int) =~= v) by {
                assert forall|k: int| 0 <= k < v.len() implies b[at + 4 + k] == v[k] by {
                    assert(whole[4 + k] == sent[4 + k]);
                }
            }
        },
        None => {
            assert(head.take(4) =~= seq![255u8, 255u8, 255u8, 255u8]);
            law_big_endian(255, 255, 255, 255);
        },
    }
}

/// The text of a field.
pub open spec fn as_text() -> spec_fn(Option<Seq<u8>>) -> Option<Seq<char>> {
    |f: Option<Seq<u8>>|
        match f {
            Some(v) => Some(lossy(v)),
            None => None,
        }
}

/// Fields are read as they were sent, NULL and empty ones told apart.
pub proof fn law_fields_are_read(b: Seq<u8>, at: int, fs: Seq<Option<Seq<u8>>>)
    requires
        0 <= at,
        lengths_fit(fs),
        at + sent_fields(fs).len() <= b.len(),
        b.subrange(at, at + sent_fields(fs).len()) == sent_fields(fs),
    ensures
        fields_while(b, at, fs.len() as int) == fs,
        row_values(b, at, fs.len() as int) == Some(fs.map_values(as_text())),
    decreases fs.len(),
{
    if fs.len() == 0 {
        assert(fields_while(b, at, 0) =~= fs);
        assert(fs.map_values(as_text()) =~= Seq::<Option<Seq<char>>>::empty());
    } else {
        let rest = fs.skip(1);
        assert(lengths_fit(rest)) by {
            assert forall|i: int| 0 <= i < rest.len() implies ((#[trigger] rest[i]) matches Some(v) ==> v.len()
                < 2147483648) by {
                assert(rest[i] == fs[i + 1]);
            }
        }
        assert(fs[0] matches Some(v) ==> v.len() < 2147483648);
        lemma_field(b, at, fs[0], sent_fields(rest));
        let next = at + 4 + (match fs[0] {
            Some(v) => v.len() as int,
            None => 0,
        });
        law_fields_are_read(b, next, rest);
        assert(seq![fs[0]] + rest =~= fs);
        assert(seq![as_text()(fs[0])] + rest.map_values(as_text()) =~= fs.map_values(as_text()));
    }
}

/// A Bind message is read with its portal, its statement and all its parameters,
/// whatever format codes stand before them.
pub proof fn law_bind_is_read(
    m: MessageView,
    portal: Seq<char>,
    statement: Seq<char>,
    formats: int,
    ps: Seq<Option<Seq<u8>>>,
)
    requires
        m.msg_type == 66,
        text_stands(m.body(), 0, portal),
        text_stands(m.body(), encode_utf8(portal).len() as int + 1, statement),
        0 <= formats,
        lengths_fit(ps),
        ({
            let b = m.body();
            let s = encode_utf8(portal).len() as int + 1 + encode_utf8(statement).len();
            let at = s + 3 + 2 * formats;
            &&& at + 2 + sent_fields(ps).len() <= b.len()
            &&& be_int(field(b, s + 1, 2)) == formats
            &&& be_int(field(b, at, 2)) == ps.len()
            &&& b.subrange(at + 2, at + 2 + sent_fields(ps).len()) == sent_fields(ps)
        }),
    ensures
        bind_message(m) == Some(BindView { portal_name: portal, statement_name: statement, parameters: ps }),
{
    let b = m.body();
    lemma_text(b, 0, portal);
    lemma_text(b, encode_utf8(portal).len() as int + 1, statement);
    let s = encode_utf8(portal).len() as int + 1 + encode_utf8(statement).len();
    let at = s + 3 + 2 * formats;
    law_fields_are_read(b, at + 2, ps);
}

/// A data row is read with all its values, if it has as many as there are
/// columns.
pub proof fn law_data_row_is_read(m: MessageView, vs: Seq<Option<Seq<u8>>>, columns: nat)
    requires
        m.msg_type == 68,
        lengths_fit(vs),
        m.body().len() >= 2 + sent_fields(vs).len(),
        be_uint(field(m.body(), 0, 2)) == vs.len(),
        m.body().subrange(2, 2 + sent_fields(vs).len() as int) == sent_fields(vs),
    ensures
        columns == vs.len() ==> data_row(m, columns) == Some(vs.map_values(as_text())),
        columns != vs.len() ==> data_row(m, columns) is None,
{
    law_fields_are_read(m.body(), 2, vs);
}

/// Whether columns stand at `at`: each name with a zero byte and 18 bytes behind
/// it.
pub open spec fn columns_stand(b: Seq<u8>, at: int, names: Seq<Seq<char>>) -> bool
    decreases names.len(),
{
    if names.len() == 0 {
        true
    } else {
        let e = at + encode_utf8(names[0]).len();
        text_stands(b, at, names[0]) && e + 19 <= b.len() && columns_stand(b, e + 19, names.skip(1))
    }
}

proof fn lemma_columns(b: Seq<u8>, at: int, names: Seq<Seq<char>>)
    requires
        columns_stand(b, at, names),
    ensures
        column_names(b, at, names.len() as int) == Some(names),
    decreases names.len(),
{
    if names.len() == 0 {
        assert(names =~= Seq::<Seq<char>>::empty());
    } else {
        lemma_text(b, at, names[0]);
        lemma_columns(b, at + encode_utf8(names[0]).len() + 19, names.skip(1));
        assert(seq![names[0]] + names.skip(1) =~= names);
    }
}

/// A row description is read with all its column names, in order.
pub proof fn law_row_description_is_read(m: MessageView, names: Seq<Seq<char>>)
    requires
        m.msg_type == 84,
        m.body().len() >= 2,
        be_uint(field(m.body(), 0, 2)) == names.len(),
        columns_stand(m.body(), 2, names),
    ensures
        row_description(m) == Some(names),
{
    lemma_columns(m.body(), 2, names);
}

// ── Other messages ──────────────────────────────────────────────────

/// The state of a transaction is told by `I`, `T` or `E`.
pub proof fn law_ready_states(m: MessageView)
    requires
        m.msg_type == 90,
        m.body().len() > 0,
    ensures
        m.body()[0] == 0x49 <==> ready_state(m) == Some(TxnState::Idle),
        m.body()[0] == 0x54 <==> ready_state(m) == Some(TxnState::InTransaction),
        m.body()[0] == 0x45 <==> ready_state(m) == Some(TxnState::Failed),
{
}

/// A message of another type is read as nothing.
pub proof fn law_types_are_told_apart(m: MessageView, columns: nat)
    ensures
        m.msg_type != 0x50 ==> parse_message(m) is None,
        m.msg_type != 0x42 ==> bind_message(m) is None,
        m.msg_type != 0x43 ==> command_tag(m) is None,
        m.msg_type != 0x5A ==> ready_state(m) is None,
        m.msg_type != 0x54 ==> row_description(m) is None,
        m.msg_type != 0x44 ==> data_row(m, columns) is None,
        m.msg_type != 0x4B ==> backend_key(m) is None,
{
}

/// The first message tells by its code what it asks for: the two halves of the
/// code for TLS and for a cancellation, and the version of the protocol.
pub proof fn law_startup_codes(m: MessageView)
    requires
        m.payload.len() >= 8,
    ensures
        field(m.payload, 4, 4) == seq![4u8, 210u8, 22u8, 47u8] ==> startup_type(m) == StartupType::SslRequest,
        field(m.payload, 4, 4) == seq![4u8, 210u8, 22u8, 46u8] ==> startup_type(m) == StartupType::CancelRequest,
        field(m.payload, 4, 4) == seq![0u8, 3u8, 0u8, 0u8] ==> startup_type(m) == StartupType::StartupMessage,
{
    law_big_endian(4, 210, 22, 47);
    law_big_endian(4, 210, 22, 46);
    law_big_endian(0, 3, 0, 0);
}

/// The user and the database of a startup message are read whatever other
/// parameters stand before, between and behind them: a further key and value
/// changes just what it names.
pub proof fn law_startup_parameter_is_read(b: Seq<u8>, at: int, key: Seq<char>, value: Seq<char>, known: StartupParams)
    requires
        key.len() > 0,
        encode_utf8(key).len() > 0,
        text_stands(b, at, key),
        text_stands(b, at + encode_utf8(key).len() + 1, value),
    ensures
        ({
            let next = at + encode_utf8(key).len() + 1 + encode_utf8(value).len() + 1;
            let k = encode_utf8(key);
            &&& k == seq![0x75u8, 0x73u8, 0x65u8, 0x72u8] ==> startup_params(b, at, known) == startup_params(
                b,
                next,
                StartupParams { user: Some(value), database: known.database },
            )
            &&& k == seq![0x64u8, 0x61u8, 0x74u8, 0x61u8, 0x62u8, 0x61u8, 0x73u8, 0x65u8] ==> startup_params(
                b,
                at,
                known,
            ) == startup_params(b, next, StartupParams { user: known.user, database: Some(value) })
            &&& k != seq![0x75u8, 0x73u8, 0x65u8, 0x72u8] && k != seq![
                0x64u8,
                0x61u8,
                0x74u8,
                0x61u8,
                0x62u8,
                0x61u8,
                0x73u8,
                0x65u8,
            ] ==> startup_params(b, at, known) == startup_params(b, next, known)
        }),
{
    lemma_text(b, at, key);
    lemma_text(b, at + encode_utf8(key).len() + 1, value);
    let k = encode_utf8(key);
    assert(seq![0x75u8, 0x73u8, 0x65u8, 0x72u8] =~= crate::proxy::protocol::user_key());
    assert(seq![0x64u8, 0x61u8, 0x74u8, 0x61u8, 0x62u8, 0x61u8, 0x73u8, 0x65u8]
        =~= crate::proxy::protocol::database_key());
}

/// A zero byte in place of a key ends the parameters, which are nothing at
/// first.
pub proof fn law_startup_parameters_end(b: Seq<u8>, at: int, known: StartupParams, m: MessageView)
    ensures
        0 <= at < b.len() && b[at] == 0 ==> startup_params(b, at, known) == known,
        m.body().len() >= 4 ==> startup_message_params(m) == startup_params(
            m.body(),
            4,
            StartupParams { user: None, database: None },
        ),
        m.body().len() < 4 ==> startup_message_params(m).user is None && startup_message_params(m).database is None,
{
}

/// A frame is as many bytes as its length says, with the four bytes of the
/// length; fewer bytes, or a length below four, are an error.
pub proof fn law_frame_has_its_length(b: Seq<u8>, n: nat)
    requires
        n < 2147483648,
        b.len() >= 4,
        b.take(4) == be_bytes4(n),
    ensures
        n < 4 ==> frame_of(b) == Err::<Seq<u8>, FrameError>(FrameError::InvalidLength(n as i32)),
        4 <= n <= b.len() ==> frame_of(b) == Ok::<Seq<u8>, FrameError>(b.take(n as int)),
        n >= 4 && n > b.len() ==> frame_of(b) == Err::<Seq<u8>, FrameError>(FrameError::UnexpectedEof),
{
    law_be_bytes4_round_trip(n);
}

// ── Bind parameters ─────────────────────────────────────────────────

/// A parameter that is text stands in quotes, a missing one is NULL, and bytes
/// that are no text are told by their number; parameters are numbered from one.
pub proof fn law_bind_parameters(s: Seq<char>, b: Seq<u8>, ps: Seq<Seq<char>>, i: int)
    ensures
        bind_param_text(Some(encode_utf8(s))) == seq!['\''] + quotes_doubled(s) + seq!['\''],
        bind_param_text(None) == "NULL"@,
        !valid_utf8(b) ==> bind_param_text(Some(b)) == "'<binary "@ + decimal(b.len()) + " bytes>'"@,
        numbered(ps).len() == ps.len(),
        0 <= i < ps.len() ==> numbered(ps)[i].0 == i + 1 && numbered(ps)[i].1 == ps[i],
{
    encode_utf8_valid_utf8(s);
    encode_utf8_decode_utf8(s);
}

/// In a quoted text every quote is doubled and every other character stays.
pub proof fn law_quotes_are_doubled(a: Seq<char>, b: Seq<char>, x: char)
    ensures
        quotes_doubled(a + b) == quotes_doubled(a) + quotes_doubled(b),
        x != '\'' ==> quotes_doubled(seq![x]) == seq![x],
        quotes_doubled(seq!['\'']) == seq!['\'', '\''],
        quotes_doubled(Seq::<char>::empty()) == Seq::<char>::empty(),
    decreases b.len(),
{
    assert(seq![x].drop_last() =~= Seq::<char>::empty());
    assert(seq!['\''].drop_last() =~= Seq::<char>::empty());
    assert(quotes_doubled(Seq::<char>::empty()) =~= Seq::<char>::empty());
    assert(quotes_doubled(seq![x]) =~= (if x == '\'' { seq!['\'', '\''] } else { seq![x] }));
    assert(quotes_doubled(seq!['\'']) =~= seq!['\'', '\'']);
    if b.len() == 0 {
        assert(a + b =~= a);
        assert(quotes_doubled(a) + quotes_doubled(b) =~= quotes_doubled(a));
    } else {
        law_quotes_are_doubled(a, b.drop_last(), x);
        assert((a + b).drop_last() =~= a + b.drop_last());
        assert(quotes_doubled(a + b) =~= quotes_doubled(a) + quotes_doubled(b));
    }
}

} // verus!
