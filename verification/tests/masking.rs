use pg_retest::capture::masking::mask_sql_literals;

#[test]
fn test_mask_single_quoted_strings() {
    assert_eq!(
        mask_sql_literals("SELECT * FROM users WHERE name = 'Alice'"),
        "SELECT * FROM users WHERE name = $S"
    );
}

#[test]
fn test_mask_escaped_quotes() {
    assert_eq!(
        mask_sql_literals("INSERT INTO t (s) VALUES ('it''s a test')"),
        "INSERT INTO t (s) VALUES ($S)"
    );
}

#[test]
fn test_mask_numeric_literals() {
    assert_eq!(
        mask_sql_literals("SELECT * FROM users WHERE id = 42"),
        "SELECT * FROM users WHERE id = $N"
    );
}

#[test]
fn test_mask_decimal_numbers() {
    assert_eq!(
        mask_sql_literals("SELECT * FROM t WHERE price > 19.99"),
        "SELECT * FROM t WHERE price > $N"
    );
}

#[test]
fn test_preserve_identifiers_with_numbers() {
    assert_eq!(
        mask_sql_literals("SELECT col1, col2 FROM table3"),
        "SELECT col1, col2 FROM table3"
    );
}

#[test]
fn test_mask_dollar_quoted_strings() {
    assert_eq!(mask_sql_literals("SELECT $$hello world$$"), "SELECT $S");
}

#[test]
fn test_mask_multiple_values() {
    assert_eq!(
        mask_sql_literals("INSERT INTO t (a, b) VALUES ('hello', 42)"),
        "INSERT INTO t (a, b) VALUES ($S, $N)"
    );
}

#[test]
fn test_preserve_double_quoted_identifiers() {
    assert_eq!(
        mask_sql_literals("SELECT \"column1\" FROM \"table2\" WHERE id = 5"),
        "SELECT \"column1\" FROM \"table2\" WHERE id = $N"
    );
}

#[test]
fn test_no_literals() {
    assert_eq!(
        mask_sql_literals("SELECT count(*) FROM users"),
        "SELECT count(*) FROM users"
    );
}

#[test]
fn test_negative_number() {
    assert_eq!(
        mask_sql_literals("SELECT * FROM t WHERE x = -5"),
        "SELECT * FROM t WHERE x = $N"
    );
}

#[test]
fn masking_hides_every_literal() {
    assert_eq!(
        mask_sql_literals("SELECT $tag$x$tag$, 1.5e3, a1 -- 'c' 7"),
        "SELECT $S, $N, a1 -- 'c' 7"
    );
    assert_eq!(mask_sql_literals("'open"), "$S");
    assert_eq!(mask_sql_literals(""), "");
}

#[test]
fn a_value_does_not_show() {
    let masked = |value: &str| mask_sql_literals(&format!("SELECT a FROM t WHERE b = '{value}' AND c = -1"));
    assert_eq!(masked("secret"), "SELECT a FROM t WHERE b = $S AND c = $N");
    for value in ["", "1", "it''s", "-- x", "/*", "$$", "a\"b", "\\"] {
        assert_eq!(masked(value), masked("secret"));
    }
    // a quote inside a comment opens no literal
    assert_eq!(mask_sql_literals("-- it's 1\n2"), "-- it's 1\n$N");
}
