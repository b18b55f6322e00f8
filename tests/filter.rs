use mdby::filter::{evaluate_expr, values_equal, ExprResult};
use mdby::{evaluate, BinaryOp, Column, Decimal, Document, Expr, Literal, SpecialField, UnaryOp, Value};

fn make_doc() -> Document {
    let mut doc = Document::new("test-1");
    doc.set("title", Value::String("Test Document".into()));
    doc.set("priority", Value::Int(5));
    doc.set("done", Value::Bool(false));
    doc.set("tags", Value::Array(vec![Value::String("rust".into()), Value::String("database".into())]));
    doc.body = "This is the body content.".into();
    doc
}

fn field(name: &str) -> Box<Expr> {
    Box::new(Expr::Column(Column::Field(name.into())))
}

fn lit(l: Literal) -> Box<Expr> {
    Box::new(Expr::Literal(l))
}

#[test]
fn test_equality() {
    let doc = make_doc();
    let expr = Expr::BinaryOp { left: field("title"), op: BinaryOp::Eq, right: lit(Literal::String("Test Document".into())) };
    assert!(evaluate(&expr, &doc));
}

#[test]
fn test_comparison() {
    let doc = make_doc();
    let expr = Expr::BinaryOp { left: field("priority"), op: BinaryOp::Gt, right: lit(Literal::Int(3)) };
    assert!(evaluate(&expr, &doc));
}

#[test]
fn test_contains() {
    let doc = make_doc();
    let expr = Expr::Contains { text: "body content".into() };
    assert!(evaluate(&expr, &doc));
}

#[test]
fn test_has_tag() {
    let doc = make_doc();
    let expr = Expr::HasTag { tag: "rust".into(), column: None };
    assert!(evaluate(&expr, &doc));
    let expr2 = Expr::HasTag { tag: "python".into(), column: None };
    assert!(!evaluate(&expr2, &doc));
}

#[test]
fn test_and_or() {
    let doc = make_doc();
    let left = Box::new(Expr::BinaryOp { left: field("done"), op: BinaryOp::Eq, right: lit(Literal::Bool(false)) });
    let right = Box::new(Expr::BinaryOp { left: field("priority"), op: BinaryOp::Gt, right: lit(Literal::Int(3)) });
    let expr = Expr::BinaryOp { left, op: BinaryOp::And, right };
    assert!(evaluate(&expr, &doc));
}

#[test]
fn field_equals_literal_with_nulls() {
    let doc = make_doc();
    let missing_is_null = Expr::BinaryOp { left: field("nope"), op: BinaryOp::Eq, right: lit(Literal::Null) };
    assert!(evaluate(&missing_is_null, &doc));
    let missing_not_value = Expr::BinaryOp { left: field("nope"), op: BinaryOp::Eq, right: lit(Literal::Int(0)) };
    assert!(!evaluate(&missing_not_value, &doc));
    let wrong_type = Expr::BinaryOp { left: field("priority"), op: BinaryOp::Eq, right: lit(Literal::String("5".into())) };
    assert!(!evaluate(&wrong_type, &doc));
}

#[test]
fn contains_ignores_case() {
    let doc = make_doc();
    assert!(evaluate(&Expr::Contains { text: "BODY Content".into() }, &doc));
    assert!(!evaluate(&Expr::Contains { text: "absent".into() }, &doc));
}

#[test]
fn like_patterns() {
    let doc = make_doc();
    let like = |p: &str, negated: bool| Expr::Like { expr: field("title"), pattern: p.into(), negated };
    assert!(evaluate(&like("Test%", false), &doc));
    assert!(evaluate(&like("Test_Document", false), &doc));
    assert!(!evaluate(&like("Test", false), &doc));
    assert!(evaluate(&like("Test", true), &doc));
    assert!(!evaluate(&Expr::Like { expr: field("priority"), pattern: "%".into(), negated: false }, &doc));
}

#[test]
fn in_between_is_null() {
    let doc = make_doc();
    let inx = Expr::In { expr: field("priority"), values: vec![Expr::Literal(Literal::Int(1)), Expr::Literal(Literal::Int(5))], negated: false };
    assert!(evaluate(&inx, &doc));
    let between = Expr::Between { expr: field("priority"), low: lit(Literal::Int(5)), high: lit(Literal::Int(9)), negated: false };
    assert!(evaluate(&between, &doc));
    let half = Decimal { units: 4_500_000_000_000_000_000 };
    let above = Expr::BinaryOp { left: field("priority"), op: BinaryOp::Gt, right: lit(Literal::Float(half)) };
    assert!(evaluate(&above, &doc));
    let isnull = Expr::IsNull { expr: field("missing"), negated: false };
    assert!(evaluate(&isnull, &doc));
    let not_null = Expr::UnaryOp { op: UnaryOp::Not, expr: Box::new(Expr::IsNull { expr: field("title"), negated: true }) };
    assert!(!evaluate(&not_null, &doc));
    let by_id = Expr::BinaryOp { left: Box::new(Expr::Column(Column::Special(SpecialField::Id))), op: BinaryOp::Eq, right: lit(Literal::String("test-1".into())) };
    assert!(evaluate(&by_id, &doc));
    let non_bool = Expr::Literal(Literal::Int(1));
    assert!(!evaluate(&non_bool, &doc));
}

#[test]
fn arithmetic_and_concat() {
    let doc = make_doc();
    let div0 = Expr::BinaryOp { left: field("priority"), op: BinaryOp::Div, right: lit(Literal::Int(0)) };
    assert!(matches!(evaluate_expr(&div0, &doc), ExprResult::Value(Value::Int(0))));
    let modx = Expr::BinaryOp { left: lit(Literal::Int(7)), op: BinaryOp::Mod, right: lit(Literal::Int(3)) };
    assert!(matches!(evaluate_expr(&modx, &doc), ExprResult::Value(Value::Int(1))));
    let cat = Expr::BinaryOp { left: field("title"), op: BinaryOp::Concat, right: field("priority") };
    assert!(matches!(evaluate_expr(&cat, &doc), ExprResult::Value(Value::String(s)) if s == "Test Document5"));
    let cat2 = Expr::BinaryOp { left: lit(Literal::Float(Decimal { units: 2_500_000_000_000_000_000 })), op: BinaryOp::Concat, right: field("done") };
    assert!(matches!(evaluate_expr(&cat2, &doc), ExprResult::Value(Value::String(s)) if s == "2.5false"));
    let neg = Expr::UnaryOp { op: UnaryOp::Neg, expr: field("priority") };
    assert!(matches!(evaluate_expr(&neg, &doc), ExprResult::Value(Value::Int(-5))));
    let f = Expr::Function { name: "upper".into(), args: vec![] };
    assert!(matches!(evaluate_expr(&f, &doc), ExprResult::Null));
}

#[test]
fn missing_id_field_reads_null() {
    let doc = make_doc();
    let by_field = Expr::BinaryOp { left: field("id"), op: BinaryOp::Eq, right: lit(Literal::String("test-1".into())) };
    assert!(!evaluate(&by_field, &doc));
    assert!(evaluate(&Expr::IsNull { expr: field("id"), negated: false }, &doc));
}

#[test]
fn decimal_arithmetic() {
    let doc = make_doc();
    let d = |u: i128| Literal::Float(Decimal { units: u });
    let one: i128 = 1_000_000_000_000_000_000;
    let run = |l: Literal, op: BinaryOp, r: Literal| match evaluate_expr(&Expr::BinaryOp { left: lit(l), op, right: lit(r) }, &doc) {
        ExprResult::Value(Value::Float(x)) => Some(x.units),
        ExprResult::Null => None,
        other => panic!("unexpected {:?}", other),
    };
    assert_eq!(run(Literal::Int(3), BinaryOp::Mul, d(5 * one / 2)), Some(15 * one / 2));
    assert_eq!(run(d(10 * one), BinaryOp::Div, Literal::Int(4)), Some(5 * one / 2));
    assert_eq!(run(d(15 * one / 2), BinaryOp::Div, d(5 * one / 2)), Some(3 * one));
    assert_eq!(run(d(3 * one / 2), BinaryOp::Mul, d(2 * one)), Some(3 * one));
    assert_eq!(run(d(15 * one / 2), BinaryOp::Mod, Literal::Int(2)), Some(3 * one / 2));
    assert_eq!(run(Literal::Int(1), BinaryOp::Sub, d(one / 2)), Some(one / 2));
    assert_eq!(run(d(one), BinaryOp::Div, d(0)), None);
    assert_eq!(run(d(one), BinaryOp::Div, Literal::Int(0)), None);
}

#[test]
fn objects_compare_as_maps() {

    let o = |e: Vec<(&str, i64)>| Value::Object(e.into_iter().map(|(k, v)| (k.to_string(), Value::Int(v))).collect());
    assert!(values_equal(&o(vec![("a", 1), ("b", 2)]), &o(vec![("b", 2), ("a", 1)])));
    assert!(!values_equal(&o(vec![("a", 1), ("b", 2)]), &o(vec![("a", 1), ("b", 3)])));
    assert!(!values_equal(&o(vec![("a", 1)]), &o(vec![("a", 1), ("b", 2)])));
    assert!(!values_equal(&o(vec![("a", 1), ("b", 2)]), &o(vec![("a", 1)])));
}
