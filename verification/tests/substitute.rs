use dashmap::DashMap;
use pg_retest::correlate::map::IdMap;
use pg_retest::correlate::substitute::substitute_ids;
use std::borrow::Cow;

fn make_map(entries: &[(&str, &str)]) -> DashMap<String, String> {
    let map = DashMap::new();
    for (k, v) in entries {
        map.insert(k.to_string(), v.to_string());
    }
    map
}

#[test]
fn test_integer_in_where() {
    let map = make_map(&[("42", "1001")]);
    let (r, c) = substitute_ids("SELECT * FROM t WHERE id = 42", &map);
    assert_eq!(r, "SELECT * FROM t WHERE id = 1001");
    assert_eq!(c, 1);
}
#[test]
fn test_integer_in_and() {
    let map = make_map(&[("1", "2001"), ("42", "1001")]);
    let (r, c) = substitute_ids("SELECT * FROM t WHERE a = 1 AND b = 42", &map);
    assert_eq!(r, "SELECT * FROM t WHERE a = 2001 AND b = 1001");
    assert_eq!(c, 2);
}
#[test]
fn test_integer_in_values() {
    let map = make_map(&[("42", "1001")]);
    let (r, c) = substitute_ids("INSERT INTO t (id, name) VALUES (42, 'foo')", &map);
    assert_eq!(r, "INSERT INTO t (id, name) VALUES (1001, 'foo')");
    assert_eq!(c, 1);
}
#[test]
fn test_integer_in_set() {
    let map = make_map(&[("42", "1001")]);
    let (r, _c) = substitute_ids("UPDATE t SET order_id = 42 WHERE 1=1", &map);
    assert!(r.contains("order_id = 1001"));
}
#[test]
fn test_integer_in_in_list() {
    let map = make_map(&[("42", "1001"), ("43", "1002"), ("44", "1003")]);
    let (r, c) = substitute_ids("SELECT * FROM t WHERE id IN (42, 43, 44)", &map);
    assert_eq!(r, "SELECT * FROM t WHERE id IN (1001, 1002, 1003)");
    assert_eq!(c, 3);
}
#[test]
fn test_no_substitute_in_limit() {
    let map = make_map(&[("42", "1001")]);
    let (r, _) = substitute_ids("SELECT * FROM t LIMIT 42", &map);
    assert_eq!(r, "SELECT * FROM t LIMIT 42");
}
#[test]
fn test_no_substitute_in_offset() {
    let map = make_map(&[("10", "999")]);
    let (r, _) = substitute_ids("SELECT * FROM t LIMIT 5 OFFSET 10", &map);
    assert_eq!(r, "SELECT * FROM t LIMIT 5 OFFSET 10");
}
#[test]
fn test_no_substitute_partial_match() {
    let map = make_map(&[("42", "1001")]);
    let (r, c) = substitute_ids("SELECT * FROM t WHERE id = 420", &map);
    assert_eq!(r, "SELECT * FROM t WHERE id = 420");
    assert_eq!(c, 0);
}
#[test]
fn test_no_substitute_in_string() {
    let map = make_map(&[("42", "1001")]);
    let (r, c) = substitute_ids("SELECT * FROM t WHERE name = 'item42'", &map);
    assert_eq!(r, "SELECT * FROM t WHERE name = 'item42'");
    assert_eq!(c, 0);
}
#[test]
fn test_no_substitute_in_identifier() {
    let map = make_map(&[("42", "1001")]);
    let (r, c) = substitute_ids("SELECT col42 FROM t", &map);
    assert_eq!(r, "SELECT col42 FROM t");
    assert_eq!(c, 0);
}
#[test]
fn test_uuid_in_where() {
    let src = "550e8400-e29b-41d4-a716-446655440000";
    let dst = "aaaabbbb-cccc-dddd-eeee-ffffffffffff";
    let map = make_map(&[(src, dst)]);
    let sql = format!("SELECT * FROM t WHERE uuid = '{}'", src);
    let (r, c) = substitute_ids(&sql, &map);
    assert_eq!(r, format!("SELECT * FROM t WHERE uuid = '{}'", dst));
    assert_eq!(c, 1);
}
#[test]
fn test_no_map_entries() {
    let map = DashMap::new();
    let (r, c) = substitute_ids("SELECT * FROM t WHERE id = 42", &map);
    assert_eq!(r, "SELECT * FROM t WHERE id = 42");
    assert_eq!(c, 0);
}
#[test]
fn test_multiple_substitutions() {
    let map = make_map(&[("42", "1001"), ("43", "1002"), ("44", "1003")]);
    let (_r, c) = substitute_ids("SELECT * FROM t WHERE id IN (42, 43, 44)", &map);
    assert_eq!(c, 3);
}
#[test]
fn test_dollar_quoted_string() {
    let map = make_map(&[("42", "1001")]);
    let (r, c) = substitute_ids("SELECT $$contains 42$$", &map);
    assert_eq!(r, "SELECT $$contains 42$$");
    assert_eq!(c, 0);
}
#[test]
fn test_escaped_quotes() {
    let map = make_map(&[("42", "1001")]);
    let (r, c) = substitute_ids("WHERE name = 'it''s 42'", &map);
    assert_eq!(r, "WHERE name = 'it''s 42'");
    assert_eq!(c, 0);
}
#[test]
fn test_subquery_with_limit() {
    let map = make_map(&[("42", "1001"), ("5", "999"), ("99", "2002")]);
    let sql =
        "SELECT * FROM t WHERE id = 42 AND status IN (SELECT s FROM t2 LIMIT 5) AND x = 99";
    let (r, c) = substitute_ids(sql, &map);
    assert!(r.contains("id = 1001"));
    assert!(r.contains("LIMIT 5")); // 5 NOT substituted
    assert!(r.contains("x = 2002"));
    assert_eq!(c, 2);
}
#[test]
fn test_eligibility_resets_after_literal() {
    let map = make_map(&[("5", "999"), ("42", "1001")]);
    let sql = "SELECT * FROM t LIMIT 5 WHERE id = 42";
    let (r, _) = substitute_ids(sql, &map);
    assert!(r.contains("LIMIT 5"));
    assert!(r.contains("= 1001"));
}

#[test]
fn test_numeric_substitution_rejects_injection() {
    // A replacement value with SQL injection should be rejected
    let map = make_map(&[("42", "1; DROP TABLE users")]);
    let (r, c) = substitute_ids("SELECT * FROM t WHERE id = 42", &map);
    assert_eq!(r, "SELECT * FROM t WHERE id = 42");
    assert_eq!(c, 0);
}

#[test]
fn test_tagged_dollar_quote() {
    let map = make_map(&[("42", "1001")]);
    let (r, c) = substitute_ids("SELECT $fn$contains 42$fn$", &map);
    assert_eq!(r, "SELECT $fn$contains 42$fn$");
    assert_eq!(c, 0);
}

#[test]
fn unchanged_text_is_borrowed() {
    let map = make_map(&[("42", "1001")]);
    let (r, _) = substitute_ids("SELECT 1 FROM t", &map);
    assert!(matches!(r, Cow::Borrowed(_)));
    let (r, _) = substitute_ids("SELECT * FROM t WHERE id = 42", &map);
    assert!(matches!(r, Cow::Owned(_)));
}

// ── The map ─────────────────────────────────────────────────────────

#[test]
fn test_register_and_lookup() {
    let mut map = IdMap::new();
    map.register("42".into(), "1001".into());
    assert_eq!(map.get("42"), Some("1001".into()));
    assert_eq!(map.get("99"), None);
}

#[test]
fn test_map_len() {
    let mut map = IdMap::new();
    assert!(map.is_empty());
    map.register("42".into(), "1001".into());
    map.register("43".into(), "1002".into());
    assert_eq!(map.len(), 2);
}

#[test]
fn the_last_registration_counts() {
    let mut map = IdMap::new();
    map.register("42".into(), "1001".into());
    map.register("42".into(), "7".into());
    assert_eq!(map.len(), 1);
    let (r, c) = map.substitute("DELETE FROM t WHERE id = 42");
    assert_eq!(r, "DELETE FROM t WHERE id = 7");
    assert_eq!(c, 1);
}
