use keymouse_monitor::schema::{flatten_old_documents, mongo_date_conditions, OldDocument, export_queries, migrate_old_rows, schema_action, validate_identifier, SchemaAction};

#[test]
fn identifiers() {
    assert!(validate_identifier("daily_stats", "table name").is_ok());
    assert!(validate_identifier("_t9", "table name").is_ok());
    assert_eq!(validate_identifier("", "table name").err().unwrap(), "SQLite table name must not be empty");
    assert_eq!(
        validate_identifier("9t", "table name").err().unwrap(),
        "SQLite table name '9t' must start with a letter or underscore"
    );
    assert_eq!(
        validate_identifier("a-b", "table name").err().unwrap(),
        "SQLite table name 'a-b' contains invalid character '-'"
    );
    let long = "a".repeat(65);
    assert_eq!(
        validate_identifier(&long, "table name").err().unwrap(),
        format!("SQLite table name '{}' exceeds 64 characters", long)
    );
    assert!(validate_identifier(&"a".repeat(64), "table name").is_ok());
    let wide = "é".repeat(33);
    assert!(validate_identifier(&wide, "x").err().unwrap().ends_with("exceeds 64 characters"));
}

#[test]
fn schema_actions() {
    assert_eq!(schema_action(false, &vec![]), SchemaAction::Create);
    assert_eq!(schema_action(true, &vec!["date".to_string(), "data".to_string()]), SchemaAction::Migrate);
    assert_eq!(schema_action(true, &vec!["date".to_string(), "key".to_string(), "count".to_string()]), SchemaAction::Keep);
}

#[test]
fn old_rows_migrate() {
    let rows = migrate_old_rows(&vec![
        ("2026-06-22".to_string(), r#"{"b":2,"a":1}"#.to_string()),
        ("2026-06-23".to_string(), "broken".to_string()),
    ]);
    assert_eq!(
        rows,
        vec![
            ("2026-06-22".to_string(), "a".to_string(), 1),
            ("2026-06-22".to_string(), "b".to_string(), 2)
        ]
    );
}

#[test]
fn export_query_texts() {
    let q = export_queries("daily_stats", Some("2026-01-01"), Some("2026-02-01"));
    assert_eq!(q.select, "SELECT date, key, count FROM daily_stats WHERE date >= ?1 AND date <= ?2 ORDER BY date, key");
    assert_eq!(q.count, "SELECT COUNT(*) FROM daily_stats WHERE date >= ?1 AND date <= ?2");
    assert_eq!(q.params, vec!["2026-01-01".to_string(), "2026-02-01".to_string()]);
    let q = export_queries("t", None, Some("2026-02-01"));
    assert_eq!(q.select, "SELECT date, key, count FROM t WHERE date <= ?1 ORDER BY date, key");
    assert_eq!(q.params, vec!["2026-02-01".to_string()]);
    let q = export_queries("t", None, None);
    assert_eq!(q.count, "SELECT COUNT(*) FROM t");
    assert!(q.params.is_empty());
}

#[test]
fn old_mongodb_documents_become_rows() {
    let docs = vec![
        OldDocument {
            date: Some("2026-01-01".to_string()),
            data: Some(vec![("a".to_string(), Some(3)), ("b".to_string(), None), ("c".to_string(), Some(-1))]),
        },
        OldDocument { date: None, data: Some(vec![("x".to_string(), Some(1))]) },
        OldDocument { date: Some("2026-01-02".to_string()), data: None },
        OldDocument { date: Some("2026-01-03".to_string()), data: Some(vec![("d".to_string(), Some(7))]) },
    ];
    assert_eq!(
        flatten_old_documents(&docs),
        vec![
            ("2026-01-01".to_string(), "a".to_string(), 3),
            ("2026-01-01".to_string(), "c".to_string(), -1),
            ("2026-01-03".to_string(), "d".to_string(), 7),
        ]
    );
}

#[test]
fn mongo_export_conditions_follow_the_given_bounds() {
    assert!(mongo_date_conditions(None, None).is_empty());
    assert_eq!(mongo_date_conditions(Some("2026-06-02"), None), vec![("$gte", "2026-06-02".to_string())]);
    assert_eq!(mongo_date_conditions(None, Some("2026-06-05")), vec![("$lte", "2026-06-05".to_string())]);
    assert_eq!(
        mongo_date_conditions(Some("a"), Some("b")),
        vec![("$gte", "a".to_string()), ("$lte", "b".to_string())]
    );
}
