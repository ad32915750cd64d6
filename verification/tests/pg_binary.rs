use pg_retest::proxy::pg_binary::{
    binary_to_sql_literal, binary_to_sql_literal_ext, compress_ipv6, f16_to_f32, pg_array_quote,
    sql_quote_text, ExtensionOids, FloatBits, Literal,
};
use pg_retest::sql::lex::{tokenize, TokenKind};

fn rendered(literal: Literal) -> String {
    let texts: Vec<String> = literal
        .floats()
        .iter()
        .map(|f| match f {
            FloatBits::Single(bits) => f32::from_bits(*bits).to_string(),
            FloatBits::Double(bits) => f64::from_bits(*bits).to_string(),
        })
        .collect();
    literal.render(&texts).unwrap()
}

fn literal(oid: u32, bytes: &[u8]) -> Option<String> {
    binary_to_sql_literal(oid, bytes).map(rendered)
}

fn literal_ext(oid: u32, bytes: &[u8], ext: &ExtensionOids) -> Option<String> {
    binary_to_sql_literal_ext(oid, bytes, ext).map(rendered)
}

fn half(bits: u16) -> f32 {
    f32::from_bits(f16_to_f32(bits))
}

#[test]
fn test_int4() {
    let bytes = 42_i32.to_be_bytes();
    assert_eq!(literal(23, &bytes), Some("'42'".into()));
    let bytes = (-1_i32).to_be_bytes();
    assert_eq!(literal(23, &bytes), Some("'-1'".into()));
}

#[test]
fn test_int8() {
    let bytes = 1_234_567_890_123_i64.to_be_bytes();
    assert_eq!(
        literal(20, &bytes),
        Some("'1234567890123'".into())
    );
}

#[test]
fn test_int2() {
    let bytes = 12345_i16.to_be_bytes();
    assert_eq!(literal(21, &bytes), Some("'12345'".into()));
}

#[test]
fn test_bool() {
    assert_eq!(literal(16, &[0]), Some("'f'".into()));
    assert_eq!(literal(16, &[1]), Some("'t'".into()));
}

#[test]
fn test_text() {
    assert_eq!(literal(25, b"hello"), Some("'hello'".into()));
    assert_eq!(literal(25, b"it's"), Some("'it''s'".into()));
}

#[test]
fn test_uuid() {
    // f47ac10b-58cc-4372-a567-0e02b2c3d479
    let bytes = [
        0xf4, 0x7a, 0xc1, 0x0b, 0x58, 0xcc, 0x43, 0x72, 0xa5, 0x67, 0x0e, 0x02, 0xb2, 0xc3,
        0xd4, 0x79,
    ];
    assert_eq!(
        literal(2950, &bytes),
        Some("'f47ac10b-58cc-4372-a567-0e02b2c3d479'".into())
    );
}

#[test]
fn test_float4() {
    let bytes = 1.5_f32.to_be_bytes();
    let out = literal(700, &bytes).unwrap();
    assert_eq!(out, "'1.5'");
}

#[test]
fn test_float8() {
    let bytes = 1.25_f64.to_be_bytes();
    let out = literal(701, &bytes).unwrap();
    assert_eq!(out, "'1.25'");
}

#[test]
fn test_bytea() {
    assert_eq!(
        literal(17, &[0xde, 0xad, 0xbe, 0xef]),
        Some("E'\\\\xdeadbeef'".into())
    );
}

#[test]
fn test_date() {
    // 0 days since PG epoch = 2000-01-01
    let bytes = 0_i32.to_be_bytes();
    assert_eq!(
        literal(1082, &bytes),
        Some("'2000-01-01'::date".into())
    );
    // 366 days = 2001-01-01 (2000 is a leap year)
    let bytes = 366_i32.to_be_bytes();
    assert_eq!(
        literal(1082, &bytes),
        Some("'2001-01-01'::date".into())
    );
}

#[test]
fn test_timestamp() {
    // 0 micros = 2000-01-01 00:00:00
    let bytes = 0_i64.to_be_bytes();
    assert_eq!(
        literal(1114, &bytes),
        Some("'2000-01-01 00:00:00'::timestamp".into())
    );
}

#[test]
fn test_timestamptz() {
    let bytes = 0_i64.to_be_bytes();
    assert_eq!(
        literal(1184, &bytes),
        Some("'2000-01-01 00:00:00+00'::timestamptz".into())
    );
}

#[test]
fn test_numeric_zero() {
    // ndigits=0, weight=0, sign=0, dscale=0
    let bytes = [0, 0, 0, 0, 0, 0, 0, 0];
    assert_eq!(literal(1700, &bytes), Some("'0'".into()));
}

#[test]
fn test_numeric_integer() {
    // Value: 42 → ndigits=1, weight=0, sign=0, dscale=0, digits=[42]
    let bytes = [0, 1, 0, 0, 0, 0, 0, 0, 0, 42];
    assert_eq!(literal(1700, &bytes), Some("'42'".into()));
}

#[test]
fn test_numeric_negative() {
    // Value: -12345 → ndigits=2, weight=1, sign=0x4000, dscale=0, digits=[1, 2345]
    let mut bytes = Vec::new();
    bytes.extend_from_slice(&2_i16.to_be_bytes()); // ndigits
    bytes.extend_from_slice(&1_i16.to_be_bytes()); // weight
    bytes.extend_from_slice(&0x4000_u16.to_be_bytes()); // sign (negative)
    bytes.extend_from_slice(&0_i16.to_be_bytes()); // dscale
    bytes.extend_from_slice(&1_u16.to_be_bytes()); // digit[0]
    bytes.extend_from_slice(&2345_u16.to_be_bytes()); // digit[1]
    assert_eq!(literal(1700, &bytes), Some("'-12345'".into()));
}

#[test]
fn test_numeric_with_fraction() {
    // Value: 3.14 → ndigits=2, weight=0, sign=0, dscale=2, digits=[3, 1400]
    let mut bytes = Vec::new();
    bytes.extend_from_slice(&2_i16.to_be_bytes());
    bytes.extend_from_slice(&0_i16.to_be_bytes());
    bytes.extend_from_slice(&0_u16.to_be_bytes());
    bytes.extend_from_slice(&2_i16.to_be_bytes());
    bytes.extend_from_slice(&3_u16.to_be_bytes());
    bytes.extend_from_slice(&1400_u16.to_be_bytes());
    assert_eq!(literal(1700, &bytes), Some("'3.14'".into()));
}

#[test]
fn test_numeric_nan() {
    // sign=0xC000
    let bytes = [0, 0, 0, 0, 0xC0, 0, 0, 0];
    assert_eq!(literal(1700, &bytes), Some("'NaN'".into()));
}

#[test]
fn test_jsonb() {
    let mut bytes = vec![1]; // version
    bytes.extend_from_slice(b"{\"k\":1}");
    assert_eq!(
        literal(3802, &bytes),
        Some("'{\"k\":1}'::jsonb".into())
    );
}

#[test]
fn test_unknown_oid_returns_none() {
    assert_eq!(literal(9999, b"whatever"), None);
}

#[test]
fn test_wrong_length_returns_none() {
    // int4 with 3 bytes
    assert_eq!(literal(23, &[0, 0, 0]), None);
}

// ── Further types ───────────────────────────────────────────────────

#[test]
fn test_xml() {
    assert_eq!(
        literal(142, b"<root>hi</root>"),
        Some("'<root>hi</root>'::xml".into())
    );
}

#[test]
fn test_money() {
    // $12.34 = 1234 cents
    let bytes = 1234_i64.to_be_bytes();
    assert_eq!(
        literal(790, &bytes),
        Some("'12.34'::money".into())
    );
    // negative: -$0.05 = -5 cents
    let bytes = (-5_i64).to_be_bytes();
    assert_eq!(
        literal(790, &bytes),
        Some("'-0.05'::money".into())
    );
}

#[test]
fn test_interval_zero() {
    let bytes = [0u8; 16];
    assert_eq!(
        literal(1186, &bytes),
        Some("'0'::interval".into())
    );
}

#[test]
fn test_interval_full() {
    // 2 months, 5 days, 1h 2m 3.456789s
    let mut bytes = Vec::new();
    let micros: i64 = (3600 + 2 * 60 + 3) * 1_000_000 + 456_789;
    bytes.extend_from_slice(&micros.to_be_bytes());
    bytes.extend_from_slice(&5_i32.to_be_bytes()); // days
    bytes.extend_from_slice(&2_i32.to_be_bytes()); // months
    assert_eq!(
        literal(1186, &bytes),
        Some("'2 mons 5 days 01:02:03.456789'::interval".into())
    );
}

#[test]
fn test_timetz_utc() {
    // 12:00:00 at UTC
    let mut bytes = Vec::new();
    bytes.extend_from_slice(&((12_i64 * 3600) * 1_000_000).to_be_bytes());
    bytes.extend_from_slice(&0_i32.to_be_bytes()); // offset 0
    assert_eq!(
        literal(1266, &bytes),
        Some("'12:00:00+00'::timetz".into())
    );
}

#[test]
fn test_timetz_est() {
    // 09:30:00 EST — PG stores offset as seconds WEST of UTC, so EST = +18000
    let mut bytes = Vec::new();
    let micros: i64 = ((9_i64 * 3600) + (30 * 60)) * 1_000_000;
    bytes.extend_from_slice(&micros.to_be_bytes());
    bytes.extend_from_slice(&18000_i32.to_be_bytes());
    assert_eq!(
        literal(1266, &bytes),
        Some("'09:30:00-05'::timetz".into())
    );
}

#[test]
fn test_bit_string() {
    // 6-bit string 010101
    let mut bytes = Vec::new();
    bytes.extend_from_slice(&6_i32.to_be_bytes()); // bit_count
    bytes.push(0b0101_0100); // 6 bits packed MSB-first into a byte (top 6 bits valid)
    assert_eq!(
        literal(1560, &bytes),
        Some("B'010101'".into())
    );
}

#[test]
fn test_inet_v4() {
    // 192.168.1.5/24
    let bytes = vec![2, 24, 0, 4, 192, 168, 1, 5];
    assert_eq!(
        literal(869, &bytes),
        Some("'192.168.1.5/24'::inet".into())
    );
}

#[test]
fn test_inet_v4_host() {
    // 10.0.0.1 with default /32 → bare host, no /bits
    let bytes = vec![2, 32, 0, 4, 10, 0, 0, 1];
    assert_eq!(
        literal(869, &bytes),
        Some("'10.0.0.1'::inet".into())
    );
}

#[test]
fn test_cidr_v4() {
    // 10.0.0.0/8
    let bytes = vec![2, 8, 1, 4, 10, 0, 0, 0];
    assert_eq!(
        literal(650, &bytes),
        Some("'10.0.0.0/8'::cidr".into())
    );
}

#[test]
fn test_inet_v6() {
    // 2001:db8::1 (bits 128 → no /bits)
    let mut bytes = vec![3, 128, 0, 16];
    bytes.extend_from_slice(&[
        0x20, 0x01, 0x0d, 0xb8, 0, 0, 0, 0, 0, 0, 0, 0, 0, 0, 0, 0x01,
    ]);
    assert_eq!(
        literal(869, &bytes),
        Some("'2001:db8::1'::inet".into())
    );
}

#[test]
fn test_macaddr() {
    let bytes = vec![0xaa, 0xbb, 0xcc, 0xdd, 0xee, 0xff];
    assert_eq!(
        literal(829, &bytes),
        Some("'aa:bb:cc:dd:ee:ff'::macaddr".into())
    );
}

#[test]
fn test_macaddr8() {
    let bytes = vec![0x01, 0x02, 0x03, 0x04, 0x05, 0x06, 0x07, 0x08];
    assert_eq!(
        literal(774, &bytes),
        Some("'01:02:03:04:05:06:07:08'::macaddr8".into())
    );
}

// ── Array tests ─────────────────────────────────────────────────────

fn array_header(elem_oid: u32, dim_len: i32) -> Vec<u8> {
    let mut h = Vec::new();
    h.extend_from_slice(&1_i32.to_be_bytes()); // ndims
    h.extend_from_slice(&0_i32.to_be_bytes()); // flags (no nulls)
    h.extend_from_slice(&elem_oid.to_be_bytes());
    h.extend_from_slice(&dim_len.to_be_bytes()); // dim_len
    h.extend_from_slice(&1_i32.to_be_bytes()); // lower_bound
    h
}

fn push_elem(out: &mut Vec<u8>, data: &[u8]) {
    out.extend_from_slice(&(data.len() as i32).to_be_bytes());
    out.extend_from_slice(data);
}

#[test]
fn test_array_int4() {
    let mut bytes = array_header(23, 3);
    push_elem(&mut bytes, &1_i32.to_be_bytes());
    push_elem(&mut bytes, &2_i32.to_be_bytes());
    push_elem(&mut bytes, &3_i32.to_be_bytes());
    assert_eq!(
        literal(1007, &bytes),
        Some("'{1,2,3}'::int4[]".into())
    );
}

#[test]
fn test_array_int4_with_null() {
    let mut bytes = Vec::new();
    bytes.extend_from_slice(&1_i32.to_be_bytes());
    bytes.extend_from_slice(&1_i32.to_be_bytes()); // flags: has_nulls
    bytes.extend_from_slice(&23_u32.to_be_bytes());
    bytes.extend_from_slice(&3_i32.to_be_bytes());
    bytes.extend_from_slice(&1_i32.to_be_bytes());
    push_elem(&mut bytes, &1_i32.to_be_bytes());
    bytes.extend_from_slice(&(-1_i32).to_be_bytes()); // NULL element
    push_elem(&mut bytes, &3_i32.to_be_bytes());
    assert_eq!(
        literal(1007, &bytes),
        Some("'{1,NULL,3}'::int4[]".into())
    );
}

#[test]
fn test_array_text_with_quoting() {
    let mut bytes = array_header(25, 3);
    push_elem(&mut bytes, b"simple");
    push_elem(&mut bytes, b"has space");
    push_elem(&mut bytes, b"has,comma");
    assert_eq!(
        literal(1009, &bytes),
        Some(r#"'{simple,"has space","has,comma"}'::text[]"#.into())
    );
}

#[test]
fn test_array_text_with_backslash_and_quote() {
    let mut bytes = array_header(25, 1);
    push_elem(&mut bytes, b"a\"b\\c");
    // Both " and \ are escaped with a backslash inside the double quotes.
    assert_eq!(
        literal(1009, &bytes),
        Some(r#"'{"a\"b\\c"}'::text[]"#.into())
    );
}

#[test]
fn test_array_uuid() {
    let u = [
        0xf4, 0x7a, 0xc1, 0x0b, 0x58, 0xcc, 0x43, 0x72, 0xa5, 0x67, 0x0e, 0x02, 0xb2, 0xc3,
        0xd4, 0x79,
    ];
    let mut bytes = array_header(2950, 1);
    push_elem(&mut bytes, &u);
    assert_eq!(
        literal(2951, &bytes),
        Some("'{f47ac10b-58cc-4372-a567-0e02b2c3d479}'::uuid[]".into())
    );
}

#[test]
fn test_array_empty() {
    // ndims=0 → empty array regardless of element type
    let mut bytes = Vec::new();
    bytes.extend_from_slice(&0_i32.to_be_bytes()); // ndims
    bytes.extend_from_slice(&0_i32.to_be_bytes()); // flags
    bytes.extend_from_slice(&23_u32.to_be_bytes()); // elem_oid
    assert_eq!(
        literal(1007, &bytes),
        Some("'{}'::int4[]".into())
    );
}

#[test]
fn test_array_multidim_rejected() {
    // 2-D arrays return None → caller falls back to placeholder
    let mut bytes = Vec::new();
    bytes.extend_from_slice(&2_i32.to_be_bytes()); // ndims
    bytes.extend_from_slice(&0_i32.to_be_bytes());
    bytes.extend_from_slice(&23_u32.to_be_bytes());
    // rest doesn't matter
    bytes.extend_from_slice(&[0; 32]);
    assert_eq!(literal(1007, &bytes), None);
}

#[test]
fn test_array_non_one_lower_bound_rejected() {
    // Arrays with lower_bound != 1 bail to placeholder
    let mut bytes = Vec::new();
    bytes.extend_from_slice(&1_i32.to_be_bytes());
    bytes.extend_from_slice(&0_i32.to_be_bytes());
    bytes.extend_from_slice(&23_u32.to_be_bytes());
    bytes.extend_from_slice(&2_i32.to_be_bytes()); // dim_len
    bytes.extend_from_slice(&0_i32.to_be_bytes()); // lower_bound = 0
    assert_eq!(literal(1007, &bytes), None);
}

#[test]
fn test_pg_array_quote() {
    assert_eq!(pg_array_quote("simple"), "simple");
    assert_eq!(pg_array_quote("has space"), "\"has space\"");
    assert_eq!(pg_array_quote(""), "\"\"");
    assert_eq!(pg_array_quote("null"), "\"null\""); // case-insensitive NULL guard
    assert_eq!(pg_array_quote("a\\b"), "\"a\\\\b\"");
}

// ── pgvector extension types (dynamic OIDs) ─────────────────────────

#[test]
fn test_vector_3d() {
    // dim=3, [1.5, 2.5, -3.5]
    let mut bytes = Vec::new();
    bytes.extend_from_slice(&3_i16.to_be_bytes());
    bytes.extend_from_slice(&0_i16.to_be_bytes()); // reserved
    bytes.extend_from_slice(&1.5_f32.to_be_bytes());
    bytes.extend_from_slice(&2.5_f32.to_be_bytes());
    bytes.extend_from_slice(&(-3.5_f32).to_be_bytes());
    // Extension OIDs map the pgvector type to some dynamic value (we pick 99999)
    let ext = ExtensionOids {
        vector: Some(99999),
        ..ExtensionOids::default()
    };
    assert_eq!(
        literal_ext(99999, &bytes, &ext),
        Some("'[1.5,2.5,-3.5]'::vector".into())
    );
}

#[test]
fn test_vector_ignored_without_ext_oids() {
    // Same bytes, but without the OID registered → falls back to None
    let mut bytes = Vec::new();
    bytes.extend_from_slice(&1_i16.to_be_bytes());
    bytes.extend_from_slice(&0_i16.to_be_bytes());
    bytes.extend_from_slice(&1.0_f32.to_be_bytes());
    assert_eq!(literal(99999, &bytes), None);
}

#[test]
fn test_halfvec() {
    // dim=2, values 1.0 and 2.0 as IEEE-754 binary16
    // f16 bits: 1.0 = 0x3c00, 2.0 = 0x4000
    let mut bytes = Vec::new();
    bytes.extend_from_slice(&2_i16.to_be_bytes());
    bytes.extend_from_slice(&0_i16.to_be_bytes());
    bytes.extend_from_slice(&0x3c00_u16.to_be_bytes());
    bytes.extend_from_slice(&0x4000_u16.to_be_bytes());
    let ext = ExtensionOids {
        halfvec: Some(88888),
        ..ExtensionOids::default()
    };
    assert_eq!(
        literal_ext(88888, &bytes, &ext),
        Some("'[1,2]'::halfvec".into())
    );
}

#[test]
fn test_f16_to_f32_zero_and_special() {
    assert_eq!(half(0x0000), 0.0);
    assert_eq!(half(0x8000), -0.0);
    assert_eq!(half(0x3c00), 1.0);
    assert_eq!(half(0xbc00), -1.0);
    // Inf
    assert!(half(0x7c00).is_infinite() && half(0x7c00) > 0.0);
    // -Inf
    assert!(half(0xfc00).is_infinite() && half(0xfc00) < 0.0);
    // NaN
    assert!(half(0x7e00).is_nan());
}

#[test]
fn test_sparsevec() {
    // dim=10, nnz=2, indices=[3,7], values=[0.5, 0.25]
    let mut bytes = Vec::new();
    bytes.extend_from_slice(&10_i32.to_be_bytes());
    bytes.extend_from_slice(&2_i32.to_be_bytes());
    bytes.extend_from_slice(&0_i32.to_be_bytes()); // reserved
    bytes.extend_from_slice(&3_i32.to_be_bytes());
    bytes.extend_from_slice(&7_i32.to_be_bytes());
    bytes.extend_from_slice(&0.5_f32.to_be_bytes());
    bytes.extend_from_slice(&0.25_f32.to_be_bytes());
    let ext = ExtensionOids {
        sparsevec: Some(77777),
        ..ExtensionOids::default()
    };
    assert_eq!(
        literal_ext(77777, &bytes, &ext),
        Some("'{3:0.5,7:0.25}/10'::sparsevec".into())
    );
}

#[test]
fn test_compress_ipv6() {
    // All zeros → ::
    assert_eq!(compress_ipv6(&[0; 8]), "::");
    // Single zero run
    assert_eq!(
        compress_ipv6(&[0x2001, 0xdb8, 0, 0, 0, 0, 0, 1]),
        "2001:db8::1"
    );
    // No zeros
    assert_eq!(compress_ipv6(&[1, 2, 3, 4, 5, 6, 7, 8]), "1:2:3:4:5:6:7:8");
}

// ── Edges ───────────────────────────────────────────────────────────

#[test]
fn half_precision_is_widened_exactly() {
    // the smallest subnormal is 2^-24, the greatest number 65504
    assert_eq!(half(0x0001), 2.0_f32.powi(-24));
    assert_eq!(half(0x03ff), 1023.0 * 2.0_f32.powi(-24));
    assert_eq!(half(0x0400), 2.0_f32.powi(-14));
    assert_eq!(half(0x7bff), 65504.0);
    assert_eq!(half(0x3555), 0.333_251_95);
}

#[test]
fn numeric_below_one() {
    // 0.0042: ndigits=1, weight=-1, dscale=4, digits=[42]
    let mut bytes = Vec::new();
    bytes.extend_from_slice(&1_i16.to_be_bytes());
    bytes.extend_from_slice(&(-1_i16).to_be_bytes());
    bytes.extend_from_slice(&0_u16.to_be_bytes());
    bytes.extend_from_slice(&4_i16.to_be_bytes());
    bytes.extend_from_slice(&42_u16.to_be_bytes());
    assert_eq!(literal(1700, &bytes), Some("'0.0042'".into()));
}

#[test]
fn dates_before_the_epoch_and_fractions() {
    assert_eq!(literal(1082, &(-1_i32).to_be_bytes()), Some("'1999-12-31'::date".into()));
    assert_eq!(
        literal(1114, &(-1_i64).to_be_bytes()),
        Some("'1999-12-31 23:59:59.999999'::timestamp".into())
    );
}

#[test]
fn quotes_in_literals_are_doubled() {
    assert_eq!(sql_quote_text("a'b"), "'a''b'");
    let mut bytes = array_header(25, 1);
    push_elem(&mut bytes, b"o'k");
    assert_eq!(literal(1009, &bytes), Some("'{o''k}'::text[]".into()));
    assert_eq!(literal(25, &[0xff]), None);
}

#[test]
fn texts_for_floats_must_be_complete() {
    let l = binary_to_sql_literal(700, &1.5_f32.to_be_bytes()).unwrap();
    assert_eq!(l.floats(), vec![FloatBits::Single(0x3fc0_0000)]);
    assert_eq!(l.render(&[]), None);
    assert_eq!(l.render(&["x".to_string()]), Some("'x'".to_string()));
}

#[test]
fn ipv6_shortens_the_first_longest_run() {
    assert_eq!(compress_ipv6(&[1, 0, 0, 2, 0, 0, 0, 3]), "1:0:0:2::3");
    assert_eq!(compress_ipv6(&[1, 0, 0, 2, 3, 0, 0, 4]), "1::2:3:0:0:4");
    assert_eq!(compress_ipv6(&[1, 0, 2, 3, 4, 5, 6, 7]), "1:0:2:3:4:5:6:7");
}

#[test]
fn quoted_text_is_one_literal() {
    for text in ["", "'", "a'b", "''; DROP TABLE t; --", "é\n$$"] {
        let quoted = sql_quote_text(text);
        let tokens = tokenize(&quoted);
        assert_eq!(tokens.len(), 1);
        assert_eq!(tokens[0].kind, TokenKind::StringLiteral);
        assert_eq!(tokens[0].text, quoted);
    }
}

#[test]
fn numeric_with_several_groups() {
    // 12_0003.0405: weight 1, groups 12, 3, 405
    let mut bytes = Vec::new();
    bytes.extend_from_slice(&3_i16.to_be_bytes());
    bytes.extend_from_slice(&1_i16.to_be_bytes());
    bytes.extend_from_slice(&0_u16.to_be_bytes());
    bytes.extend_from_slice(&4_i16.to_be_bytes());
    for group in [12_u16, 3, 405] {
        bytes.extend_from_slice(&group.to_be_bytes());
    }
    assert_eq!(literal(1700, &bytes), Some("'120003.0405'".into()));
}
