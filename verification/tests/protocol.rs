use pg_retest::proxy::protocol::{
    body_len, build_error_response, build_query_message, classify_startup, extract_backend_key_data,
    extract_bind, extract_command_complete, extract_data_row, extract_error_message, extract_parse,
    extract_query_sql, extract_ready_for_query, extract_row_description, format_bind_params,
    inline_bind_params, parse_startup_params, read_message, read_startup_message, write_message,
    FrameError, PgMessage, StartupType, TxnState, PROTOCOL_VERSION_3, SSL_REQUEST_CODE,
};

fn make_message(msg_type: u8, body: &[u8]) -> Vec<u8> {
    let len = (body.len() + 4) as i32;
    let mut buf = Vec::new();
    buf.push(msg_type);
    buf.extend_from_slice(&len.to_be_bytes());
    buf.extend_from_slice(body);
    buf
}

#[test]
fn test_read_message_query() {
    let sql = b"SELECT 1\0";
    let wire = make_message(b'Q', sql);
    let msg = read_message(&wire).unwrap().unwrap();
    assert_eq!(msg.msg_type, b'Q');
    assert_eq!(msg.body(), sql);
}

#[test]
fn test_read_message_eof() {
    let msg = read_message(&[]).unwrap();
    assert!(msg.is_none());
}

#[test]
fn test_read_startup_message_ssl_request() {
    let mut buf = Vec::new();
    buf.extend_from_slice(&8i32.to_be_bytes()); // length = 8
    buf.extend_from_slice(&SSL_REQUEST_CODE.to_be_bytes());
    let msg = read_startup_message(&buf).unwrap().unwrap();
    assert_eq!(msg.msg_type, 0);
    assert_eq!(classify_startup(&msg), StartupType::SslRequest);
}

#[test]
fn test_read_startup_message_v3() {
    let mut buf = Vec::new();
    let params = b"user\0app\0database\0mydb\0\0";
    let total_len = (4 + 4 + params.len()) as i32;
    buf.extend_from_slice(&total_len.to_be_bytes());
    buf.extend_from_slice(&PROTOCOL_VERSION_3.to_be_bytes());
    buf.extend_from_slice(params);
    let msg = read_startup_message(&buf).unwrap().unwrap();
    assert_eq!(classify_startup(&msg), StartupType::StartupMessage);
    let (user, db) = parse_startup_params(&msg);
    assert_eq!(user.as_deref(), Some("app"));
    assert_eq!(db.as_deref(), Some("mydb"));
}

#[test]
fn test_write_message_roundtrip() {
    let sql = b"SELECT 1\0";
    let wire = make_message(b'Q', sql);
    let msg = read_message(&wire).unwrap().unwrap();

    let output = write_message(&msg);

    // Re-read from output
    let msg2 = read_message(&output).unwrap().unwrap();
    assert_eq!(msg2.msg_type, b'Q');
    assert_eq!(msg2.body(), sql);
}

#[test]
fn test_read_startup_eof() {
    let msg = read_startup_message(&[]).unwrap();
    assert!(msg.is_none());
}

#[test]
fn test_extract_query_sql() {
    let body = b"SELECT * FROM users\0";
    let msg = PgMessage {
        msg_type: b'Q',
        payload: {
            let len = (body.len() + 4) as i32;
            let mut p = Vec::new();
            p.extend_from_slice(&len.to_be_bytes());
            p.extend_from_slice(body);
            p
        },
    };
    assert_eq!(extract_query_sql(&msg).unwrap(), "SELECT * FROM users");
}

#[test]
fn test_extract_parse() {
    let mut body = Vec::new();
    body.extend_from_slice(b"stmt1\0");
    body.extend_from_slice(b"SELECT * FROM t WHERE id = $1\0");
    body.extend_from_slice(&0i16.to_be_bytes());
    let msg = PgMessage {
        msg_type: b'P',
        payload: {
            let len = (body.len() + 4) as i32;
            let mut p = Vec::new();
            p.extend_from_slice(&len.to_be_bytes());
            p.extend_from_slice(&body);
            p
        },
    };
    let parsed = extract_parse(&msg).unwrap();
    assert_eq!(parsed.statement_name, "stmt1");
    assert_eq!(parsed.sql, "SELECT * FROM t WHERE id = $1");
}

#[test]
fn test_extract_bind() {
    let mut body = Vec::new();
    body.extend_from_slice(b"\0"); // portal name (empty)
    body.extend_from_slice(b"stmt1\0"); // statement name
    body.extend_from_slice(&0i16.to_be_bytes()); // 0 format codes
    body.extend_from_slice(&2i16.to_be_bytes()); // 2 parameters
    body.extend_from_slice(&2i32.to_be_bytes()); // Param 1: "42" (len=2)
    body.extend_from_slice(b"42");
    body.extend_from_slice(&(-1i32).to_be_bytes()); // Param 2: NULL
    let msg = PgMessage {
        msg_type: b'B',
        payload: {
            let len = (body.len() + 4) as i32;
            let mut p = Vec::new();
            p.extend_from_slice(&len.to_be_bytes());
            p.extend_from_slice(&body);
            p
        },
    };
    let bind = extract_bind(&msg).unwrap();
    assert_eq!(bind.statement_name, "stmt1");
    assert_eq!(bind.parameters.len(), 2);
    assert_eq!(bind.parameters[0].as_deref(), Some(b"42".as_slice()));
    assert!(bind.parameters[1].is_none());
}

#[test]
fn test_extract_command_complete() {
    let body = b"SELECT 5\0";
    let msg = PgMessage {
        msg_type: b'C',
        payload: {
            let len = (body.len() + 4) as i32;
            let mut p = Vec::new();
            p.extend_from_slice(&len.to_be_bytes());
            p.extend_from_slice(body);
            p
        },
    };
    assert_eq!(extract_command_complete(&msg).unwrap(), "SELECT 5");
}

#[test]
fn test_extract_ready_for_query() {
    let msg = PgMessage {
        msg_type: b'Z',
        payload: {
            let mut p = Vec::new();
            p.extend_from_slice(&5i32.to_be_bytes());
            p.push(b'I');
            p
        },
    };
    assert_eq!(extract_ready_for_query(&msg).unwrap(), TxnState::Idle);
}

#[test]
fn test_extract_error_message() {
    let mut body = Vec::new();
    body.push(b'S');
    body.extend_from_slice(b"ERROR\0");
    body.push(b'M');
    body.extend_from_slice(b"relation \"foo\" does not exist\0");
    body.push(0);
    let msg = PgMessage {
        msg_type: b'E',
        payload: {
            let len = (body.len() + 4) as i32;
            let mut p = Vec::new();
            p.extend_from_slice(&len.to_be_bytes());
            p.extend_from_slice(&body);
            p
        },
    };
    assert_eq!(
        extract_error_message(&msg).unwrap(),
        "relation \"foo\" does not exist"
    );
}

#[test]
fn test_inline_bind_params() {
    let sql = "SELECT * FROM users WHERE id = $1 AND name = $2";
    let params = vec!["42".to_string(), "'alice'".to_string()];
    let result = inline_bind_params(sql, &params);
    assert_eq!(
        result,
        "SELECT * FROM users WHERE id = 42 AND name = 'alice'"
    );
}

#[test]
fn test_format_bind_params() {
    let params = vec![Some(b"hello".to_vec()), None, Some(b"42".to_vec())];
    let formatted = format_bind_params(&params);
    assert_eq!(formatted[0], "'hello'");
    assert_eq!(formatted[1], "NULL");
    assert_eq!(formatted[2], "'42'");
}

/// Helper to build a RowDescription column entry (name + 18 bytes of field metadata).
fn row_desc_column(name: &str) -> Vec<u8> {
    let mut col = Vec::new();
    col.extend_from_slice(name.as_bytes());
    col.push(0); // null terminator
    col.extend_from_slice(&[0u8; 18]); // table_oid(4) + col_num(2) + type_oid(4) + type_size(2) + type_mod(4) + format(2)
    col
}

/// Helper to build a PgMessage from type byte and body bytes.
fn make_pg_message(msg_type: u8, body: &[u8]) -> PgMessage {
    let len = (body.len() + 4) as i32;
    let mut p = Vec::new();
    p.extend_from_slice(&len.to_be_bytes());
    p.extend_from_slice(body);
    PgMessage {
        msg_type,
        payload: p,
    }
}

#[test]
fn test_extract_row_description_single_column() {
    let mut body = Vec::new();
    body.extend_from_slice(&1u16.to_be_bytes()); // 1 column
    body.extend_from_slice(&row_desc_column("id"));
    let msg = make_pg_message(b'T', &body);
    let cols = extract_row_description(&msg).unwrap();
    assert_eq!(cols, vec!["id"]);
}

#[test]
fn test_extract_row_description_two_columns() {
    let mut body = Vec::new();
    body.extend_from_slice(&2u16.to_be_bytes()); // 2 columns
    body.extend_from_slice(&row_desc_column("id"));
    body.extend_from_slice(&row_desc_column("name"));
    let msg = make_pg_message(b'T', &body);
    let cols = extract_row_description(&msg).unwrap();
    assert_eq!(cols, vec!["id", "name"]);
}

#[test]
fn test_extract_data_row_single_value() {
    let mut body = Vec::new();
    body.extend_from_slice(&1u16.to_be_bytes()); // 1 column
    body.extend_from_slice(&2i32.to_be_bytes()); // length 2
    body.extend_from_slice(b"42");
    let msg = make_pg_message(b'D', &body);
    let values = extract_data_row(&msg, 1).unwrap();
    assert_eq!(values, vec![Some("42".to_string())]);
}

#[test]
fn test_extract_data_row_null_value() {
    let mut body = Vec::new();
    body.extend_from_slice(&1u16.to_be_bytes()); // 1 column
    body.extend_from_slice(&(-1i32).to_be_bytes()); // NULL
    let msg = make_pg_message(b'D', &body);
    let values = extract_data_row(&msg, 1).unwrap();
    assert_eq!(values, vec![None]);
}

#[test]
fn test_extract_data_row_wrong_type() {
    let msg = make_pg_message(b'Q', b"SELECT 1\0");
    assert!(extract_data_row(&msg, 1).is_none());
}

#[test]
fn frames_with_errors() {
    // a length below four
    assert!(matches!(read_message(&[b'Q', 0, 0, 0, 3]), Err(FrameError::InvalidLength(3))));
    // the message is cut off
    assert!(matches!(read_message(&[b'Q', 0, 0, 0, 9, 1]), Err(FrameError::UnexpectedEof)));
    assert!(matches!(read_message(b"Q\0\0"), Err(FrameError::UnexpectedEof)));
    assert!(matches!(body_len(&[255, 255, 255, 255]), Err(FrameError::InvalidLength(-1))));
    assert!(matches!(body_len(&[0, 0, 1, 4]), Ok(256)));
}

#[test]
fn broken_text_is_replaced() {
    let msg = make_pg_message(b'Q', b"SELECT \xff\0");
    assert_eq!(extract_query_sql(&msg), Some("SELECT \u{fffd}".to_string()));
}

#[test]
fn built_messages_are_read_back() {
    let msg = build_query_message("SELECT 'é'");
    assert_eq!(extract_query_sql(&msg), Some("SELECT 'é'".to_string()));
    let read = read_message(&write_message(&msg)).unwrap().unwrap();
    assert_eq!(read.payload, msg.payload);
    assert_eq!(msg.wire_len(), write_message(&msg).len());
    let wire = build_error_response("FATAL", "53300", "too many connections");
    let error = read_message(&wire).unwrap().unwrap();
    assert_eq!(extract_error_message(&error), Some("too many connections".to_string()));
}

#[test]
fn other_messages_give_nothing() {
    let msg = make_pg_message(b'X', b"");
    assert!(extract_query_sql(&msg).is_none());
    assert!(extract_parse(&msg).is_none());
    assert!(extract_bind(&msg).is_none());
    assert!(extract_command_complete(&msg).is_none());
    assert!(extract_ready_for_query(&msg).is_none());
    assert!(extract_error_message(&msg).is_none());
    assert!(extract_row_description(&msg).is_none());
    assert!(extract_backend_key_data(&msg).is_none());
    let key = make_pg_message(b'K', &[0, 0, 0, 7, 255, 255, 255, 255]);
    assert_eq!(extract_backend_key_data(&key), Some((7, -1)));
    // a Bind message that is cut off: in its counts, in its parameters
    assert!(extract_bind(&make_pg_message(b'B', b"\0s\0\0\0\0")).is_none());
    let cut = extract_bind(&make_pg_message(b'B', b"\0s\0\0\0\0\x01\0")).unwrap();
    assert!(cut.parameters.is_empty());
    assert_eq!(extract_ready_for_query(&make_pg_message(b'Z', b"T")), Some(TxnState::InTransaction));
    assert_eq!(extract_ready_for_query(&make_pg_message(b'Z', b"E")), Some(TxnState::Failed));
    let cancel = PgMessage { msg_type: 0, payload: vec![0, 0, 0, 16, 4, 210, 22, 46] };
    assert_eq!(classify_startup(&cancel), StartupType::CancelRequest);
    let short = PgMessage { msg_type: 0, payload: vec![0, 0, 0, 4] };
    assert_eq!(classify_startup(&short), StartupType::Unknown);
}

#[test]
fn bind_parameters_are_quoted_and_inlined() {
    let formatted = format_bind_params(&[Some(b"it's".to_vec()), Some(vec![0xff])]);
    assert_eq!(formatted[0], "'it''s'");
    let params: Vec<String> = (1..=10).map(|n| format!("<{n}>")).collect();
    assert_eq!(inline_bind_params("$1 $10", &params), "<1> <10>");
}

#[test]
fn bind_parameters_are_not_searched_for_placeholders() {
    let params = vec!["'a'".to_string(), "'$1'".to_string()];
    assert_eq!(inline_bind_params("SELECT $1, $2", &params), "SELECT 'a', '$1'");
    assert_eq!(inline_bind_params("SELECT $2, $1, $3", &params), "SELECT '$1', 'a', $3");
    assert_eq!(inline_bind_params("SELECT $0, $", &params), "SELECT $0, $");
    assert_eq!(inline_bind_params("SELECT $01, $001, $1", &params), "SELECT $01, $001, 'a'");
}

#[test]
fn messages_of_another_type_are_not_read() {
    let empty = PgMessage { msg_type: b'X', payload: vec![] };
    assert_eq!(extract_query_sql(&empty), None);
    assert!(extract_parse(&empty).is_none());
    assert!(extract_bind(&empty).is_none());
    assert_eq!(extract_command_complete(&empty), None);
    assert_eq!(extract_ready_for_query(&empty), None);
    assert_eq!(extract_error_message(&empty), None);
    assert_eq!(extract_backend_key_data(&empty), None);
    assert_eq!(extract_row_description(&empty), None);
    assert_eq!(extract_data_row(&empty, 1), None);
}
