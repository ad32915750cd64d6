use pg_retest::correlate::capture::TablePk;
use pg_retest::sql::ast::{has_returning, inject_returning, might_have_returning, AstError, StmtNode};

type Parsed = Result<Vec<StmtNode>, String>;

fn insert(schema: &str, table: &str, returning: bool) -> Parsed {
    Ok(vec![StmtNode::Insert {
        returning,
        target: Some((schema.to_string(), table.to_string())),
        ctes: vec![],
    }])
}

fn select(ctes: Vec<StmtNode>) -> Parsed {
    Ok(vec![StmtNode::Select { ctes }])
}

fn update(returning: bool) -> Parsed {
    Ok(vec![StmtNode::Update { returning, ctes: vec![] }])
}

fn delete(returning: bool) -> Parsed {
    Ok(vec![StmtNode::Delete { returning, ctes: vec![] }])
}

#[test]
fn prefilter_skips_select() {
    assert!(!might_have_returning("SELECT * FROM users"));
}

#[test]
fn prefilter_catches_insert() {
    assert!(might_have_returning("INSERT INTO t VALUES (1)"));
    assert!(might_have_returning("  INSERT INTO t VALUES (1)"));
    assert!(might_have_returning("insert into t values (1)"));
}

#[test]
fn prefilter_catches_with_cte() {
    assert!(might_have_returning("WITH x AS (SELECT 1) SELECT * FROM x"));
}

#[test]
fn prefilter_catches_update_delete_merge() {
    assert!(might_have_returning("UPDATE t SET a = 1"));
    assert!(might_have_returning("DELETE FROM t"));
    assert!(might_have_returning("MERGE INTO t USING s ON t.id = s.id"));
}

#[test]
fn prefilter_skips_leading_line_comment() {
    assert!(!might_have_returning("-- comment\nSELECT 1"));
}

#[test]
fn prefilter_skips_leading_block_comment() {
    assert!(!might_have_returning("/* block */ SELECT 1"));
}

#[test]
fn prefilter_catches_insert_after_comment() {
    assert!(might_have_returning(
        "-- inserting\nINSERT INTO t VALUES (1)"
    ));
}

#[test]
fn ast_has_returning_simple() {
    assert!(has_returning("INSERT INTO t VALUES (1) RETURNING id", &insert("", "t", true)).unwrap());
    assert!(!has_returning("INSERT INTO t VALUES (1)", &insert("", "t", false)).unwrap());
}

#[test]
fn ast_has_returning_update_delete() {
    assert!(has_returning("UPDATE t SET a = 1 RETURNING id", &update(true)).unwrap());
    assert!(has_returning("DELETE FROM t WHERE id = 1 RETURNING id", &delete(true)).unwrap());
    assert!(!has_returning("UPDATE t SET a = 1", &update(false)).unwrap());
}

#[test]
fn ast_has_returning_cte_wrapped() {
    let sql = "WITH new_order AS (INSERT INTO orders (customer_id) VALUES (42) RETURNING id) SELECT * FROM new_order";
    let parsed = select(insert("", "orders", true).unwrap());
    assert!(has_returning(sql, &parsed).unwrap());
}

#[test]
fn ast_has_returning_cte_no_returning_inside() {
    let sql = "WITH x AS (SELECT 1) INSERT INTO t SELECT * FROM x";
    assert!(!has_returning(sql, &insert("", "t", false)).unwrap());
}

#[test]
fn ast_has_returning_returning_as_column_alias() {
    // A column named "returning" must NOT trigger true.
    let sql = "SELECT col AS \"returning\" FROM t";
    assert!(!has_returning(sql, &select(vec![])).unwrap());
}

#[test]
fn ast_has_returning_returning_in_comment() {
    assert!(!has_returning("-- RETURNING\nSELECT 1", &select(vec![])).unwrap());
    assert!(!has_returning("/* RETURNING id */ SELECT 1", &select(vec![])).unwrap());
}

#[test]
fn ast_has_returning_invalid_sql() {
    // Unparseable returns Err — callers map to safe default.
    let result = has_returning("INSERT INTO", &Err("syntax error at end of input".to_string()));
    assert!(result.is_err(), "expected parse error for truncated INSERT");
    assert_eq!(
        result.unwrap_err().message(),
        "pg_query parse failed: syntax error at end of input"
    );
}

#[test]
fn ast_has_returning_string_contains_returning() {
    let sql = "INSERT INTO t (s) VALUES ('it has RETURNING in it')";
    assert!(!has_returning(sql, &insert("", "t", false)).unwrap());
}

fn pk_orders() -> Vec<TablePk> {
    vec![TablePk {
        schema: "public".into(),
        table: "orders".into(),
        columns: vec!["id".into()],
    }]
}

#[test]
fn ast_inject_simple() {
    let pk = pk_orders();
    assert_eq!(
        inject_returning(
            "INSERT INTO orders (name) VALUES ('test')",
            &pk,
            &insert("", "orders", false)
        )
        .unwrap(),
        Some("INSERT INTO orders (name) VALUES ('test') RETURNING id".into())
    );
}

#[test]
fn ast_inject_already_has_returning() {
    let pk = pk_orders();
    assert_eq!(
        inject_returning(
            "INSERT INTO orders (name) VALUES ('test') RETURNING id",
            &pk,
            &insert("", "orders", true)
        )
        .unwrap(),
        None
    );
}

#[test]
fn ast_inject_unknown_table() {
    let pk = pk_orders();
    assert_eq!(
        inject_returning(
            "INSERT INTO unknown (name) VALUES ('test')",
            &pk,
            &insert("", "unknown", false)
        )
        .unwrap(),
        None
    );
}

#[test]
fn ast_inject_on_conflict_splice_before() {
    // RETURNING appears AFTER ON CONFLICT per PG grammar
    // (INSERT ... ON CONFLICT ... RETURNING ...).
    let pk = pk_orders();
    assert_eq!(
        inject_returning(
            "INSERT INTO orders (id, name) VALUES (1, 'test') ON CONFLICT DO NOTHING",
            &pk,
            &insert("", "orders", false)
        )
        .unwrap(),
        Some(
            "INSERT INTO orders (id, name) VALUES (1, 'test') ON CONFLICT DO NOTHING RETURNING id"
                .into()
        )
    );
}

#[test]
fn ast_inject_on_conflict_do_update() {
    let pk = pk_orders();
    assert_eq!(
        inject_returning(
            "INSERT INTO orders (id, name) VALUES (1, 'test') ON CONFLICT (id) DO UPDATE SET name = EXCLUDED.name",
            &pk,
            &insert("", "orders", false)
        )
        .unwrap(),
        Some(
            "INSERT INTO orders (id, name) VALUES (1, 'test') ON CONFLICT (id) DO UPDATE SET name = EXCLUDED.name RETURNING id"
                .into()
        )
    );
}

#[test]
fn ast_inject_multi_row_values() {
    let pk = pk_orders();
    assert_eq!(
        inject_returning(
            "INSERT INTO orders (name) VALUES ('a'), ('b'), ('c')",
            &pk,
            &insert("", "orders", false)
        )
        .unwrap(),
        Some("INSERT INTO orders (name) VALUES ('a'), ('b'), ('c') RETURNING id".into())
    );
}

#[test]
fn ast_inject_insert_select() {
    let pk = pk_orders();
    assert_eq!(
        inject_returning(
            "INSERT INTO orders (id, name) SELECT id, name FROM staging",
            &pk,
            &insert("", "orders", false)
        )
        .unwrap(),
        Some("INSERT INTO orders (id, name) SELECT id, name FROM staging RETURNING id".into())
    );
}

#[test]
fn ast_inject_trailing_semicolon() {
    let pk = pk_orders();
    assert_eq!(
        inject_returning(
            "INSERT INTO orders (name) VALUES ('x');",
            &pk,
            &insert("", "orders", false)
        )
        .unwrap(),
        Some("INSERT INTO orders (name) VALUES ('x') RETURNING id;".into())
    );
}

#[test]
fn ast_inject_trailing_comment() {
    let pk = pk_orders();
    assert_eq!(
        inject_returning(
            "INSERT INTO orders (name) VALUES ('x') -- trailing",
            &pk,
            &insert("", "orders", false)
        )
        .unwrap(),
        Some("INSERT INTO orders (name) VALUES ('x') RETURNING id -- trailing".into())
    );
}

#[test]
fn ast_inject_cte_wrapped_returns_none() {
    // CTE-wrapped inserts return None (splice semantics ambiguous).
    let pk = pk_orders();
    let sql = "WITH new_order AS (INSERT INTO orders (name) VALUES ('x')) SELECT * FROM new_order";
    let parsed = select(insert("", "orders", false).unwrap());
    assert_eq!(inject_returning(sql, &pk, &parsed).unwrap(), None);
}

#[test]
fn ast_inject_schema_qualified() {
    let pk = vec![TablePk {
        schema: "analytics".into(),
        table: "events".into(),
        columns: vec!["event_id".into()],
    }];
    assert_eq!(
        inject_returning(
            "INSERT INTO analytics.events (name) VALUES ('x')",
            &pk,
            &insert("analytics", "events", false)
        )
        .unwrap(),
        Some("INSERT INTO analytics.events (name) VALUES ('x') RETURNING event_id".into())
    );
}

#[test]
fn ast_inject_not_insert() {
    let pk = pk_orders();
    // UPDATE / DELETE aren't injected even if they target known-PK tables.
    assert_eq!(
        inject_returning("UPDATE orders SET name = 'x' WHERE id = 1", &pk, &update(false)).unwrap(),
        None
    );
    assert_eq!(
        inject_returning("DELETE FROM orders WHERE id = 1", &pk, &delete(false)).unwrap(),
        None
    );
}

#[test]
fn statement_errors_and_comments() {
    let pk = pk_orders();
    let failed: Parsed = Err("no".to_string());
    assert!(matches!(
        inject_returning("INSERT INTO orders", &pk, &failed),
        Err(AstError::Parse(_))
    ));
    // what cannot return anything is not looked at further
    assert!(!has_returning("SELECT 1", &failed).unwrap());
    assert_eq!(inject_returning("SELECT 1", &pk, &failed).unwrap(), None);
    assert_eq!(AstError::Shape("x".to_string()).message(), "unexpected AST shape: x");
    assert_eq!(
        inject_returning(
            "INSERT INTO orders (s) VALUES ('é') /* a */ ; -- b",
            &pk,
            &insert("", "orders", false)
        )
        .unwrap(),
        Some("INSERT INTO orders (s) VALUES ('é') RETURNING id /* a */ ; -- b".into())
    );
    let merge = StmtNode::Merge { returning: true, ctes: vec![] };
    assert!(has_returning("MERGE INTO t", &Ok(vec![merge])).unwrap());
}

#[test]
fn queries_under_a_write_count() {
    let sql = "WITH d AS (DELETE FROM a RETURNING id) INSERT INTO orders SELECT id FROM d";
    let with = |returning: bool| StmtNode::Delete { returning, ctes: vec![] };
    let parsed = |returning: bool| -> Parsed {
        Ok(vec![StmtNode::Insert {
            returning: false,
            target: Some((String::new(), "orders".to_string())),
            ctes: vec![with(returning)],
        }])
    };
    assert!(has_returning(sql, &parsed(true)).unwrap());
    assert_eq!(inject_returning(sql, &pk_orders(), &parsed(true)).unwrap(), None);
    assert!(!has_returning(sql, &parsed(false)).unwrap());
    let update = StmtNode::Update { returning: false, ctes: vec![with(true)] };
    assert!(has_returning("WITH d AS (DELETE FROM a RETURNING id) UPDATE b SET x = 1", &Ok(vec![update])).unwrap());
    let deep = StmtNode::Merge {
        returning: false,
        ctes: vec![StmtNode::Delete { returning: false, ctes: vec![with(true)] }],
    };
    assert!(has_returning("WITH d AS (SELECT 1) MERGE INTO b", &Ok(vec![deep])).unwrap());
}
