use mdby::{parse, parse_multi, Column, DataType, Expr, Literal, OrderDirection, Statement};

#[test]
fn test_parse_select() {
    let stmt = parse("SELECT * FROM todos").unwrap();
    assert!(matches!(stmt, Statement::Select(_)));
}

#[test]
fn lib_test_parse_select_with_where() {
    let stmt = parse("SELECT title, done FROM todos WHERE done = false").unwrap();
    if let Statement::Select(select) = stmt {
        assert_eq!(select.from, "todos");
        assert!(select.where_clause.is_some());
    } else {
        panic!("Expected Select statement");
    }
}

#[test]
fn lib_test_parse_insert() {
    let stmt = parse("INSERT INTO todos (id, title) VALUES ('t1', 'Test')").unwrap();
    assert!(matches!(stmt, Statement::Insert(_)));
}

#[test]
fn test_parse_update() {
    let stmt = parse("UPDATE todos SET done = true WHERE id = 'task-1'").unwrap();
    assert!(matches!(stmt, Statement::Update(_)));
}

#[test]
fn test_parse_delete() {
    let stmt = parse("DELETE FROM todos WHERE done = true").unwrap();
    assert!(matches!(stmt, Statement::Delete(_)));
}

#[test]
fn lib_test_parse_create_view() {
    let stmt = parse("CREATE VIEW active AS SELECT * FROM todos WHERE done = false TEMPLATE 'list.html'").unwrap();
    assert!(matches!(stmt, Statement::CreateView(_)));
}

#[test]
fn test_parse_simple_select() {
    let stmt = parse("SELECT * FROM todos").unwrap();
    if let Statement::Select(s) = stmt {
        assert_eq!(s.from, "todos");
        assert!(matches!(s.columns[0], Column::Star));
    } else {
        panic!("Expected Select");
    }
}

#[test]
fn parser_test_parse_select_with_where() {
    let stmt = parse("SELECT title, done FROM todos WHERE done = false").unwrap();
    if let Statement::Select(s) = stmt {
        assert_eq!(s.columns.len(), 2);
        assert!(s.where_clause.is_some());
    } else {
        panic!("Expected Select");
    }
}

#[test]
fn parser_test_parse_insert() {
    let stmt = parse("INSERT INTO todos (id, title, done) VALUES ('task-1', 'Buy milk', false)").unwrap();
    if let Statement::Insert(i) = stmt {
        assert_eq!(i.into, "todos");
        assert_eq!(i.columns.len(), 3);
        assert_eq!(i.values.len(), 3);
    } else {
        panic!("Expected Insert");
    }
}

#[test]
fn test_parse_create_collection() {
    let stmt = parse("CREATE COLLECTION todos (title STRING REQUIRED, done BOOL DEFAULT false)").unwrap();
    if let Statement::CreateCollection(c) = stmt {
        assert_eq!(c.name, "todos");
        assert_eq!(c.columns.len(), 2);
    } else {
        panic!("Expected CreateCollection");
    }
}

#[test]
fn parser_test_parse_create_view() {
    let stmt = parse("CREATE VIEW active AS SELECT * FROM todos WHERE done = false TEMPLATE 'list.html'").unwrap();
    if let Statement::CreateView(v) = stmt {
        assert_eq!(v.name, "active");
        assert_eq!(v.template, Some("list.html".to_string()));
    } else {
        panic!("Expected CreateView");
    }
}

#[test]
fn test_parse_contains() {
    let stmt = parse("SELECT * FROM notes WHERE CONTAINS('meeting')").unwrap();
    if let Statement::Select(s) = stmt {
        assert!(matches!(s.where_clause, Some(Expr::Contains { .. })));
    } else {
        panic!("Expected Select");
    }
}

#[test]
fn test_parse_has_tag() {
    let stmt = parse("SELECT * FROM todos WHERE HAS TAG 'urgent'").unwrap();
    if let Statement::Select(s) = stmt {
        assert!(matches!(s.where_clause, Some(Expr::HasTag { .. })));
    } else {
        panic!("Expected Select");
    }
}

#[test]
fn trailing_content_is_an_error() {
    assert!(parse("SELECT * FROM todos;;  ").is_ok());
    assert!(parse("  select * from todos  ").is_ok());
    assert!(parse("SELECT * FROM todos garbage").is_err());
    assert!(parse("SELECT * FROM todos; ;").is_ok());
    assert!(parse("SELECT * FROM todos; x").is_err());
    assert!(parse("").is_err());
    let e = parse("SELECT * FROM t x").unwrap_err();
    assert!(e.message.contains("Unexpected trailing content: x"));
    assert!(e.to_text().starts_with("Parse error: "));
}

#[test]
fn parse_multi_splits_on_semicolons() {
    let stmts = parse_multi("SELECT * FROM a;; DELETE FROM b ; ").unwrap();
    assert_eq!(stmts.len(), 2);
    assert!(matches!(stmts[1], Statement::Delete(_)));
    assert!(parse_multi("SELECT * FROM a; nonsense").is_err());
    assert_eq!(parse_multi("  ;; ").unwrap().len(), 0);
}

#[test]
fn select_clauses_and_literals() {
    let stmt = parse("SELECT @id, title FROM t WHERE x >= -3 ORDER BY a DESC, b LIMIT 5 OFFSET 2").unwrap();
    let Statement::Select(s) = stmt else { panic!("Expected Select") };
    assert_eq!(s.columns.len(), 2);
    assert_eq!(s.order_by.len(), 2);
    assert_eq!(s.order_by[0].direction, OrderDirection::Desc);
    assert_eq!(s.order_by[1].direction, OrderDirection::Asc);
    assert_eq!(s.limit, Some(5));
    assert_eq!(s.offset, Some(2));
    match s.where_clause {
        Some(Expr::BinaryOp { right, .. }) => assert!(matches!(*right, Expr::Literal(Literal::Int(-3)))),
        _ => panic!("Expected a comparison"),
    }
}

#[test]
fn string_literal_escapes() {
    let stmt = parse("INSERT INTO t (id, a, b, c) VALUES ('x', 'it''s', \"q\\\"\\n\", [1, 2.5, NULL])").unwrap();
    let Statement::Insert(i) = stmt else { panic!("Expected Insert") };
    assert!(matches!(&i.values[1], Literal::String(s) if s == "it's"));
    assert!(matches!(&i.values[2], Literal::String(s) if s == "q\"\n"));
    match &i.values[3] {
        Literal::Array(items) => {
            assert_eq!(items.len(), 3);
            assert!(matches!(items[1], Literal::Float(d) if d.units == 2_500_000_000_000_000_000));
        }
        _ => panic!("Expected an array"),
    }
}

#[test]
fn column_types_in_declared_order() {
    let stmt = parse("CREATE IF NOT EXISTS COLLECTION t (a ARRAY<STRING>, b REF<users> UNIQUE INDEXED)").unwrap();
    let Statement::CreateCollection(c) = stmt else { panic!("Expected CreateCollection") };
    assert!(c.if_not_exists);
    assert!(matches!(&c.columns[0].data_type, DataType::Array(inner) if matches!(**inner, DataType::String)));
    assert!(matches!(&c.columns[1].data_type, DataType::Ref(n) if n == "users"));
    assert_eq!(c.columns[1].constraints.len(), 2);
    assert!(parse("CREATE COLLECTION e (d DATETIME)").is_err());
}

#[test]
fn expression_forms() {
    let q = "SELECT * FROM t WHERE NOT a IS NOT NULL OR b LIKE 'x%' AND c IN (1, 2) OR d BETWEEN 1 AND 5";
    let Statement::Select(s) = parse(q).unwrap() else { panic!("Expected Select") };
    assert!(matches!(s.where_clause, Some(Expr::BinaryOp { .. })));
    assert!(parse("DROP COLLECTION todos").is_ok());
    assert!(matches!(parse("DROP VIEW v").unwrap(), Statement::DropView(n) if n == "v"));
}

#[test]
fn or_binds_looser_than_and() {
    let Statement::Select(s) = parse("select * from t where a = 1 or b = 2 and not c = 3").unwrap() else {
        panic!("Expected Select")
    };
    match s.where_clause {
        Some(Expr::BinaryOp { op: mdby::BinaryOp::Or, right, .. }) => match *right {
            Expr::BinaryOp { op: mdby::BinaryOp::And, right, .. } => {
                assert!(matches!(*right, Expr::UnaryOp { op: mdby::UnaryOp::Not, .. }))
            }
            _ => panic!("Expected AND on the right of OR"),
        },
        _ => panic!("Expected OR at the top"),
    }
}

#[test]
fn parse_multi_skips_empty_statements() {
    assert_eq!(parse_multi(" ; ; ").unwrap().len(), 0);
    let stmts = parse_multi("SELECT * FROM a ; ; ; DELETE FROM b").unwrap();
    assert_eq!(stmts.len(), 2);
    assert!(matches!(stmts[0], Statement::Select(_)));
    assert!(matches!(stmts[1], Statement::Delete(_)));
}
