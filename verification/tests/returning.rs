use pg_retest::correlate::capture::{
    group_primary_keys, has_returning, inject_returning, is_currval_or_lastval, PkColumn, TablePk,
};
use pg_retest::correlate::IdMode;

#[test]
fn test_has_returning_simple() {
    assert!(has_returning("INSERT INTO t (a) VALUES (1) RETURNING id"));
}

#[test]
fn test_has_returning_case_insensitive() {
    assert!(has_returning("INSERT INTO t VALUES (1) returning id"));
    assert!(has_returning("INSERT INTO t VALUES (1) Returning id, name"));
}

#[test]
fn test_has_returning_absent() {
    assert!(!has_returning("INSERT INTO t VALUES (1)"));
    assert!(!has_returning("SELECT * FROM t"));
    assert!(!has_returning("UPDATE t SET a = 1"));
}

#[test]
fn test_has_returning_inside_string_literal() {
    assert!(!has_returning("INSERT INTO t (a) VALUES ('RETURNING id')"));
    assert!(!has_returning(
        "INSERT INTO t (a) VALUES ('has RETURNING clause')"
    ));
}

#[test]
fn test_inject_returning() {
    let pk_map = vec![TablePk {
        schema: "public".into(),
        table: "orders".into(),
        columns: vec!["id".into()],
    }];
    assert_eq!(
        inject_returning("INSERT INTO orders (name) VALUES ('test')", &pk_map),
        Some("INSERT INTO orders (name) VALUES ('test') RETURNING id".into())
    );
}

#[test]
fn test_inject_returning_already_has() {
    let pk_map = vec![TablePk {
        schema: "public".into(),
        table: "orders".into(),
        columns: vec!["id".into()],
    }];
    assert!(inject_returning(
        "INSERT INTO orders (name) VALUES ('test') RETURNING id",
        &pk_map
    )
    .is_none());
}

#[test]
fn test_inject_returning_unknown_table() {
    let pk_map = vec![TablePk {
        schema: "public".into(),
        table: "orders".into(),
        columns: vec!["id".into()],
    }];
    assert!(inject_returning("INSERT INTO unknown (name) VALUES ('test')", &pk_map).is_none());
}

#[test]
fn test_detect_currval() {
    assert!(is_currval_or_lastval("SELECT currval('orders_id_seq')"));
    assert!(is_currval_or_lastval("SELECT lastval()"));
    assert!(!is_currval_or_lastval("SELECT * FROM orders"));
}

#[test]
fn test_inject_returning_on_conflict() {
    let pk_map = vec![TablePk {
        schema: "public".into(),
        table: "orders".into(),
        columns: vec!["id".into()],
    }];
    // RETURNING must come BEFORE ON CONFLICT
    assert_eq!(
        inject_returning(
            "INSERT INTO orders (id, name) VALUES (1, 'test') ON CONFLICT DO NOTHING",
            &pk_map
        ),
        Some(
            "INSERT INTO orders (id, name) VALUES (1, 'test') RETURNING id ON CONFLICT DO NOTHING"
                .into()
        )
    );
}

#[test]
fn test_inject_returning_on_conflict_do_update() {
    let pk_map = vec![TablePk {
        schema: "public".into(),
        table: "orders".into(),
        columns: vec!["id".into()],
    }];
    assert_eq!(
        inject_returning(
            "INSERT INTO orders (id, name) VALUES (1, 'test') ON CONFLICT (id) DO UPDATE SET name = EXCLUDED.name",
            &pk_map
        ),
        Some(
            "INSERT INTO orders (id, name) VALUES (1, 'test') RETURNING id ON CONFLICT (id) DO UPDATE SET name = EXCLUDED.name"
                .into()
        )
    );
}

#[test]
fn test_inject_returning_empty_sql() {
    let pk_map = vec![TablePk {
        schema: "public".into(),
        table: "orders".into(),
        columns: vec!["id".into()],
    }];
    assert!(inject_returning("", &pk_map).is_none());
}

#[test]
fn test_inject_returning_insert_select() {
    let pk_map = vec![TablePk {
        schema: "public".into(),
        table: "orders".into(),
        columns: vec!["id".into()],
    }];
    assert_eq!(
        inject_returning(
            "INSERT INTO orders (id, name) SELECT id, name FROM staging",
            &pk_map
        ),
        Some("INSERT INTO orders (id, name) SELECT id, name FROM staging RETURNING id".into())
    );
}

#[test]
fn primary_keys_are_grouped_by_table() {
    let col = |t: &str, c: &str| PkColumn {
        schema: "public".into(),
        table: t.into(),
        column: c.into(),
    };
    let pks = group_primary_keys(&[col("a", "x"), col("b", "id"), col("a", "y")]);
    assert_eq!(pks.len(), 2);
    assert_eq!(pks[0].table, "a");
    assert_eq!(pks[0].columns, vec!["x".to_string(), "y".to_string()]);
    assert_eq!(pks[1].columns, vec!["id".to_string()]);
}

#[test]
fn injected_statements_are_not_injected_again() {
    let pk_map = vec![TablePk {
        schema: "public".into(),
        table: "orders".into(),
        columns: vec!["id".into(), "part".into()],
    }];
    let once = inject_returning("insert into orders values (1);", &pk_map).unwrap();
    assert!(has_returning(&once));
    assert!(once.contains("id, part"));
    assert_eq!(inject_returning(&once, &pk_map), None);
    assert!(is_currval_or_lastval("  select LASTVAL()"));
    assert!(!is_currval_or_lastval("INSERT INTO t VALUES (lastval())"));
}

#[test]
fn words_end_where_letters_and_digits_do() {
    assert!(!has_returning("INSERT INTO t VALUES (1) éRETURNING id"));
    assert!(!has_returning("INSERT INTO t VALUES (1) RETURNING٣ id"));
    assert!(has_returning("INSERT INTO t VALUES (1)…RETURNING id"));
    assert!(has_returning("INSERT INTO ſ VALUES (1) returning id"));
}

#[test]
fn id_modes() {
    assert_eq!(IdMode::default(), IdMode::Off);
    assert!(IdMode::Full.needs_sequences() && IdMode::Full.needs_correlation());
    assert!(IdMode::Sequence.needs_sequences() && !IdMode::Sequence.needs_correlation());
    assert!(!IdMode::Correlate.needs_sequences() && IdMode::Correlate.needs_correlation());
    assert!(!IdMode::Off.needs_sequences() && !IdMode::Off.needs_correlation());
}

#[test]
fn words_are_found_whole_and_outside_of_quotes() {
    assert!(!has_returning("INSERT INTO t (is_returning) VALUES (1)"));
    assert!(!has_returning("INSERT INTO t (returning_at) VALUES (1)"));
    assert!(!has_returning("INSERT INTO t (\"returning\") VALUES (1)"));
    assert!(!has_returning("INSERT INTO t VALUES (1) -- RETURNING id"));
    assert!(has_returning("INSERT INTO t VALUES (1)RETURNING id"));
    assert!(!is_currval_or_lastval("SELECT currvalue FROM t"));
    assert!(!is_currval_or_lastval("SELECT lastval FROM t"));
    assert!(!is_currval_or_lastval("SELECT 'currval(x)'"));
    assert!(!is_currval_or_lastval("SELECT my_lastval()"));
    assert!(is_currval_or_lastval("SELECT currval ('s')"));
    assert!(is_currval_or_lastval("SELECT a, lastval() FROM t"));
}

#[test]
fn the_clause_stands_where_the_statement_ends() {
    let pk_map = vec![TablePk { schema: "public".into(), table: "t".into(), columns: vec!["id".into()] }];
    let inject = |sql: &str| inject_returning(sql, &pk_map);
    let cases = [
        ("INSERT INTO t VALUES (1) --x", "INSERT INTO t VALUES (1) RETURNING id --x"),
        ("INSERT INTO t VALUES (1); -- x", "INSERT INTO t VALUES (1) RETURNING id; -- x"),
        ("INSERT INTO t VALUES (1) /* x */ ;", "INSERT INTO t VALUES (1) RETURNING id /* x */ "),
        ("INSERT INTO t VALUES (1) /* x", "INSERT INTO t VALUES (1) RETURNING id /* x"),
        ("INSERT INTO t VALUES (1)\n;;", "INSERT INTO t VALUES (1)\n RETURNING id"),
        ("INSERT INTO t VALUES ($$;$$);\n", "INSERT INTO t VALUES ($$;$$) RETURNING id"),
        // INTO and ON CONFLICT count outside of literals and comments
        (
            "INSERT INTO t VALUES ('x ON CONFLICT y')",
            "INSERT INTO t VALUES ('x ON CONFLICT y') RETURNING id",
        ),
        (
            "INSERT INTO t VALUES ('a ON CONFLICT') ON CONFLICT DO NOTHING",
            "INSERT INTO t VALUES ('a ON CONFLICT') RETURNING id ON CONFLICT DO NOTHING",
        ),
        (
            "INSERT INTO t VALUES (1) -- ON CONFLICT\n ON CONFLICT DO NOTHING",
            "INSERT INTO t VALUES (1) -- ON CONFLICT\n RETURNING id ON CONFLICT DO NOTHING",
        ),
        ("INSERT /* INTO x */ INTO t VALUES (1)", "INSERT /* INTO x */ INTO t VALUES (1) RETURNING id"),
    ];
    for (sql, expected) in cases {
        let once = inject(sql).unwrap();
        assert_eq!(once, expected);
        assert!(has_returning(&once));
        assert_eq!(inject(&once), None);
    }
    // behind an open literal or quoted name there is no place for a clause
    for sql in ["INSERT INTO t VALUES ('x", "INSERT INTO t VALUES ($$ x", "INSERT INTO t (\"x"] {
        assert_eq!(inject(sql), None);
    }
}

#[test]
fn quoted_functions_are_called_too() {
    assert!(is_currval_or_lastval("SELECT \"currval\"('s')"));
    assert!(!is_currval_or_lastval("SELECT \"currval\" FROM t"));
}
