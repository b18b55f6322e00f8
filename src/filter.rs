//! Evaluation of expressions against a document, for `WHERE` and `SET`.
use vstd::prelude::*;
use crate::ast::{BinaryOp, Column, Expr, SpecialField, UnaryOp};
use crate::document::{
    decimal_text, first_entry_at, like_matches, lookup, lookup_model, model_eq, obj_get, Decimal, Document, Value, ValueModel,
    DECIMAL_ONE,
};
use crate::text::{chars_of, int_text, lower_of, seq_contains};

verus! {

/// What an expression evaluates to: a value, a truth value, or null.
pub enum Outcome {
    Value(ValueModel),
    Bool(bool),
    Null,
}

/// The executable form of [`Outcome`].
#[derive(Debug)]
pub enum ExprResult {
    Value(Value),
    Bool(bool),
    Null,
}

impl View for ExprResult {
    type V = Outcome;

    open spec fn view(&self) -> Outcome {
        match self {
            ExprResult::Value(v) => Outcome::Value(v@),
            ExprResult::Bool(b) => Outcome::Bool(*b),
            ExprResult::Null => Outcome::Null,
        }
    }
}

/// Only `true`, bare or as a value, is truthy.
pub open spec fn truthy(o: Outcome) -> bool {
    match o {
        Outcome::Bool(b) => b,
        Outcome::Value(ValueModel::Bool(b)) => b,
        _ => false,
    }
}

/// Equality of outcomes: like-typed values compare with [`model_eq`], both forms of
/// null are equal to each other, and a truth value equals the same boolean value.
pub open spec fn outcomes_equal(a: Outcome, b: Outcome) -> bool {
    match (a, b) {
        (Outcome::Null, Outcome::Null) => true,
        (Outcome::Value(ValueModel::Null), Outcome::Null) => true,
        (Outcome::Null, Outcome::Value(ValueModel::Null)) => true,
        (Outcome::Bool(x), Outcome::Bool(y)) => x == y,
        (Outcome::Value(x), Outcome::Value(y)) => model_eq(x, y),
        (Outcome::Bool(x), Outcome::Value(ValueModel::Bool(y))) => x == y,
        (Outcome::Value(ValueModel::Bool(x)), Outcome::Bool(y)) => x == y,
        _ => false,
    }
}

/// -1, 0 or 1 as `x` is below, equal to or above `y`.
pub open spec fn sign_cmp(x: int, y: int) -> int {
    if x < y { -1 } else if x > y { 1 } else { 0 }
}

/// Lexicographic order of character sequences, by code point.
pub open spec fn text_cmp(a: Seq<char>, b: Seq<char>) -> int
    decreases a.len(),
{
    if a.len() == 0 && b.len() == 0 {
        0
    } else if a.len() == 0 {
        -1
    } else if b.len() == 0 {
        1
    } else if a[0] < b[0] {
        -1
    } else if a[0] > b[0] {
        1
    } else {
        text_cmp(a.drop_first(), b.drop_first())
    }
}

/// The ordering comparator: integers, decimals and strings among themselves,
/// integers against decimals by value; any other pairing counts as equal.
pub open spec fn compare(a: Outcome, b: Outcome) -> int {
    match (a, b) {
        (Outcome::Value(ValueModel::Int(x)), Outcome::Value(ValueModel::Int(y))) => sign_cmp(x as int, y as int),
        (Outcome::Value(ValueModel::Float(x)), Outcome::Value(ValueModel::Float(y))) => sign_cmp(x, y),
        (Outcome::Value(ValueModel::String(x)), Outcome::Value(ValueModel::String(y))) => text_cmp(x, y),
        (Outcome::Value(ValueModel::Int(x)), Outcome::Value(ValueModel::Float(y))) => sign_cmp(x * DECIMAL_ONE, y),
        (Outcome::Value(ValueModel::Float(x)), Outcome::Value(ValueModel::Int(y))) => sign_cmp(x, y * DECIMAL_ONE),
        _ => 0,
    }
}

/// Integer arithmetic: wrapping on overflow, and 0 for division or remainder by zero.
pub open spec fn int_arith(op: BinaryOp, x: i64, y: i64) -> i64 {
    match op {
        BinaryOp::Add => x.wrapping_add(y),
        BinaryOp::Sub => x.wrapping_sub(y),
        BinaryOp::Mul => x.wrapping_mul(y),
        BinaryOp::Div => if y == 0 {
            0
        } else {
            match x.checked_div(y) {
                Some(q) => q,
                None => x,
            }
        },
        _ => if y == 0 {
            0
        } else {
            match x.checked_rem(y) {
                Some(m) => m,
                None => 0,
            }
        },
    }
}

/// Decimal arithmetic on units (10^-18 each), truncating toward zero:
/// sum, difference, `x·y / 10^18`, `x·10^18 / y`, and the remainder of the
/// units. A result or intermediate product that does not fit in `i128`, or a
/// zero divisor, gives `None`.
pub open spec fn decimal_op(op: BinaryOp, x: i128, y: i128) -> Option<i128> {
    match op {
        BinaryOp::Add => x.checked_add(y),
        BinaryOp::Sub => x.checked_sub(y),
        BinaryOp::Mul => match x.checked_mul(y) {
            Some(p) => p.checked_div(DECIMAL_ONE),
            None => None,
        },
        BinaryOp::Div => if y == 0 {
            None
        } else {
            match x.checked_mul(DECIMAL_ONE) {
                Some(p) => p.checked_div(y),
                None => None,
            }
        },
        _ => x.checked_rem(y),
    }
}

/// An integer `x` with a decimal `y`: a product is `x·y` units; the other
/// operators work on `x` scaled to units.
pub open spec fn int_decimal_op(op: BinaryOp, x: i64, y: i128) -> Option<i128> {
    if op == BinaryOp::Mul {
        (x as i128).checked_mul(y)
    } else {
        decimal_op(op, (x * DECIMAL_ONE) as i128, y)
    }
}

/// A decimal `x` with an integer `y`: a product is `x·y` units and a quotient
/// `x / y` units; the other operators work on `y` scaled to units.
pub open spec fn decimal_int_op(op: BinaryOp, x: i128, y: i64) -> Option<i128> {
    if op == BinaryOp::Mul {
        x.checked_mul(y as i128)
    } else if op == BinaryOp::Div {
        if y == 0 { None } else { x.checked_div(y as i128) }
    } else {
        decimal_op(op, x, (y * DECIMAL_ONE) as i128)
    }
}

/// A decimal result as an outcome: null when there is none.
pub open spec fn decimal_outcome(r: Option<i128>) -> Outcome {
    match r {
        Some(u) => Outcome::Value(ValueModel::Float(u as int)),
        None => Outcome::Null,
    }
}

/// Arithmetic: integers stay integers; a decimal on either side makes the
/// result decimal; anything else gives null.
pub open spec fn arith(op: BinaryOp, a: Outcome, b: Outcome) -> Outcome {
    match (a, b) {
        (Outcome::Value(ValueModel::Int(x)), Outcome::Value(ValueModel::Int(y))) => Outcome::Value(ValueModel::Int(int_arith(op, x, y))),
        (Outcome::Value(ValueModel::Float(x)), Outcome::Value(ValueModel::Float(y))) => decimal_outcome(
            decimal_op(op, x as i128, y as i128),
        ),
        (Outcome::Value(ValueModel::Int(x)), Outcome::Value(ValueModel::Float(y))) => decimal_outcome(
            int_decimal_op(op, x, y as i128),
        ),
        (Outcome::Value(ValueModel::Float(x)), Outcome::Value(ValueModel::Int(y))) => decimal_outcome(
            decimal_int_op(op, x as i128, y),
        ),
        _ => Outcome::Null,
    }
}

/// `true` or `false` as text.
pub open spec fn bool_text(b: bool) -> Seq<char> {
    if b { seq!['t', 'r', 'u', 'e'] } else { seq!['f', 'a', 'l', 's', 'e'] }
}

/// The text an outcome contributes to a concatenation.
pub open spec fn outcome_text(o: Outcome) -> Seq<char> {
    match o {
        Outcome::Value(ValueModel::String(s)) => s,
        Outcome::Value(ValueModel::Int(i)) => int_text(i as int),
        Outcome::Value(ValueModel::Float(u)) => decimal_text(u),
        Outcome::Value(ValueModel::Bool(b)) => bool_text(b),
        Outcome::Bool(b) => bool_text(b),
        _ => Seq::empty(),
    }
}

/// A binary operator applied to two evaluated operands.
pub open spec fn binary(op: BinaryOp, a: Outcome, b: Outcome) -> Outcome {
    match op {
        BinaryOp::And => Outcome::Bool(truthy(a) && truthy(b)),
        BinaryOp::Or => Outcome::Bool(truthy(a) || truthy(b)),
        BinaryOp::Eq => Outcome::Bool(outcomes_equal(a, b)),
        BinaryOp::Ne => Outcome::Bool(!outcomes_equal(a, b)),
        BinaryOp::Lt => Outcome::Bool(compare(a, b) < 0),
        BinaryOp::Le => Outcome::Bool(compare(a, b) <= 0),
        BinaryOp::Gt => Outcome::Bool(compare(a, b) > 0),
        BinaryOp::Ge => Outcome::Bool(compare(a, b) >= 0),
        BinaryOp::Concat => Outcome::Value(ValueModel::String(outcome_text(a) + outcome_text(b))),
        _ => arith(op, a, b),
    }
}

/// The field `HAS TAG` looks in when the query names none.
pub open spec fn default_tag_field() -> Seq<char> {
    seq!['t', 'a', 'g', 's']
}

/// Whether the array field `key` of `d` holds the string `tag`.
pub open spec fn has_tag(d: Document, key: Seq<char>, tag: Seq<char>) -> bool {
    match lookup_model(d.fields@, key) {
        Some(ValueModel::Array(items)) => exists|i: int| 0 <= i < items.len() && items[i] == ValueModel::String(tag),
        _ => false,
    }
}

/// The value of a column reference in a document: a field reads the field
/// map (null when missing); `@id`, `@body` and `@path` read the document.
pub open spec fn column_value(c: Column, d: Document) -> Outcome {
    match c {
        Column::Field(name) => match lookup_model(d.fields@, name@) {
            Some(v) => Outcome::Value(v),
            None => Outcome::Null,
        },
        Column::Special(SpecialField::Id) => Outcome::Value(ValueModel::String(d.id@)),
        Column::Special(SpecialField::Body) => Outcome::Value(ValueModel::String(d.body@)),
        Column::Special(SpecialField::Path) => Outcome::Value(ValueModel::String(d.path@)),
        _ => Outcome::Null,
    }
}

/// `b` when not negated, `!b` when negated.
pub open spec fn flip(b: bool, negated: bool) -> bool {
    if negated { !b } else { b }
}

/// Whether some expression of `values` evaluates to an outcome equal to `t`.
pub open spec fn any_equal(t: Outcome, values: Seq<Expr>, d: Document) -> bool
    decreases values,
{
    if values.len() == 0 {
        false
    } else {
        outcomes_equal(t, eval(values[0], d)) || any_equal(t, values.subrange(1, values.len() as int), d)
    }
}

/// What expression `e` evaluates to against document `d`.
pub open spec fn eval(e: Expr, d: Document) -> Outcome
    decreases e,
{
    match e {
        Expr::Literal(l) => Outcome::Value(l@),
        Expr::Column(c) => match c {
            Column::Expr { expr, .. } => eval(*expr, d),
            _ => column_value(c, d),
        },
        Expr::BinaryOp { left, op, right } => binary(op, eval(*left, d), eval(*right, d)),
        Expr::UnaryOp { op, expr } => match op {
            UnaryOp::Not => Outcome::Bool(!truthy(eval(*expr, d))),
            UnaryOp::Neg => match eval(*expr, d) {
                Outcome::Value(ValueModel::Int(i)) => Outcome::Value(ValueModel::Int(0i64.wrapping_sub(i))),
                Outcome::Value(ValueModel::Float(u)) => if u == i128::MIN {
                    Outcome::Null
                } else {
                    Outcome::Value(ValueModel::Float(-u))
                },
                _ => Outcome::Null,
            },
        },
        Expr::Contains { text } => Outcome::Bool(seq_contains(lower_of(d.body@), lower_of(text@))),
        Expr::HasTag { tag, column } => Outcome::Bool(
            has_tag(d, match column { Some(c) => c@, None => default_tag_field() }, tag@),
        ),
        Expr::Like { expr, pattern, negated } => Outcome::Bool(
            flip(
                match eval(*expr, d) {
                    Outcome::Value(v) => like_matches(v, pattern@),
                    _ => false,
                },
                negated,
            ),
        ),
        Expr::In { expr, values, negated } => Outcome::Bool(
            flip(any_equal(eval(*expr, d), values@, d), negated),
        ),
        Expr::IsNull { expr, negated } => Outcome::Bool(
            flip(
                match eval(*expr, d) {
                    Outcome::Null => true,
                    Outcome::Value(ValueModel::Null) => true,
                    _ => false,
                },
                negated,
            ),
        ),
        Expr::Between { expr, low, high, negated } => Outcome::Bool(
            flip(
                compare(eval(*expr, d), eval(*low, d)) >= 0 && compare(eval(*expr, d), eval(*high, d)) <= 0,
                negated,
            ),
        ),
        Expr::Function { .. } => Outcome::Null,
    }
}

/// Whether document `d` satisfies the filter `e`.
pub open spec fn satisfies(e: Expr, d: Document) -> bool {
    truthy(eval(e, d))
}

} // verus!

verus! {

/// Whether two values are equal (see [`model_eq`]).
pub fn values_equal(a: &Value, b: &Value) -> (r: bool)
    ensures
        r == model_eq(a@, b@),
    decreases a,
{
    match (a, b) {
        (Value::Null, Value::Null) => true,
        (Value::Bool(x), Value::Bool(y)) => *x == *y,
        (Value::Int(x), Value::Int(y)) => *x == *y,
        (Value::Float(x), Value::Float(y)) => x.units == y.units,
        (Value::String(x), Value::String(y)) => *x == *y,
        (Value::Array(xs), Value::Array(ys)) => {
            if xs.len() != ys.len() {
                return false;
            }
            let mut i: usize = 0;
            while i < xs.len()
                invariant
                    *a is Array,
                    a->Array_0 == *xs,
                    *b is Array,
                    b->Array_0 == *ys,
                    xs@.len() == ys@.len(),
                    i <= xs@.len(),
                    forall|j: int| 0 <= j < i ==> model_eq((#[trigger] xs@[j])@, ys@[j]@),
                decreases xs@.len() - i,
            {
                proof {
                    let ghost me: Value = *a;
                    broadcast use vstd::std_specs::vec::axiom_vec_index_decreases;
                    assert(decreases_to!(me => me->Array_0));
                    assert(decreases_to!(me->Array_0 => me->Array_0[i as int]));
                }
                if !values_equal(&xs[i], &ys[i]) {
                    assert(a@->Array_0[i as int] == xs@[i as int]@);
                    assert(b@->Array_0[i as int] == ys@[i as int]@);
                    return false;
                }
                i = i + 1;
            }
            assert forall|j: int| 0 <= j < a@->Array_0.len() implies model_eq(a@->Array_0[j], #[trigger] b@->Array_0[j]) by {
                assert(a@->Array_0[j] == xs@[j]@);
                assert(b@->Array_0[j] == ys@[j]@);
            }
            true
        },
        (Value::Object(xs), Value::Object(ys)) => {
            let ghost xm = a@->Object_0;
            let ghost ym = b@->Object_0;
            let mut i: usize = 0;
            while i < xs.len()
                invariant
                    *a is Object,
                    a->Object_0 == *xs,
                    *b is Object,
                    b->Object_0 == *ys,
                    xm == a@->Object_0,
                    ym == b@->Object_0,
                    i <= xs@.len(),
                    forall|t: int|
                        0 <= t < i ==> (#[trigger] first_entry_at(xm, xm[t].0, t) ==> (obj_get(ym, xm[t].0) matches Some(w)
                            && model_eq(xm[t].1, w))),
                decreases xs@.len() - i,
            {
                proof {
                    let ghost me: Value = *a;
                    broadcast use vstd::std_specs::vec::axiom_vec_index_decreases;
                    assert(decreases_to!(me => me->Object_0));
                    assert(decreases_to!(me->Object_0 => me->Object_0[i as int]));
                    assert(decreases_to!(me->Object_0[i as int] => me->Object_0[i as int].1));
                    assert(xm[i as int] == (xs@[i as int].0@, xs@[i as int].1@));
                }
                let key = xs[i].0.as_str();
                let first = crate::document::find_field(xs, key);
                proof {
                    lemma_first_entry_model(xs@, xm, key@);
                    lemma_first_entry_model(ys@, ym, key@);
                }
                match first {
                    Some(f) => {
                        if f == i {
                            match crate::document::find_field(ys, key) {
                                None => {
                                    assert(first_entry_at(xm, xm[i as int].0, i as int));
                                    return false;
                                },
                                Some(g) => {
                                    assert(ym[g as int] == (ys@[g as int].0@, ys@[g as int].1@));
                                    if !values_equal(&xs[i].1, &ys[g].1) {
                                        assert(first_entry_at(xm, xm[i as int].0, i as int));
                                        return false;
                                    }
                                },
                            }
                        } else {
                            assert(!first_entry_at(xm, xm[i as int].0, i as int)) by {
                                if first_entry_at(xm, xm[i as int].0, i as int) {
                                    assert(xs@[f as int].0@ == key@);
                                    if f < i {
                                        assert(xm[f as int].0 == key@);
                                    }
                                }
                            }
                        }
                    },
                    None => {
                        assert(xs@[i as int].0@ == key@);
                    },
                }
                i = i + 1;
            }
            let mut j: usize = 0;
            while j < ys.len()
                invariant
                    *a is Object,
                    a->Object_0 == *xs,
                    *b is Object,
                    b->Object_0 == *ys,
                    xm == a@->Object_0,
                    ym == b@->Object_0,
                    j <= ys@.len(),
                    forall|t: int|
                        0 <= t < xs@.len() ==> (#[trigger] first_entry_at(xm, xm[t].0, t) ==> (obj_get(ym, xm[t].0) matches Some(w)
                            && model_eq(xm[t].1, w))),
                    forall|t: int| 0 <= t < j ==> #[trigger] obj_get(xm, ym[t].0) is Some,
                decreases ys@.len() - j,
            {
                let key = ys[j].0.as_str();
                proof {
                    lemma_first_entry_model(xs@, xm, key@);
                    assert(ym[j as int] == (ys@[j as int].0@, ys@[j as int].1@));
                }
                if crate::document::find_field(xs, key).is_none() {
                    assert(obj_get(xm, ym[j as int].0) is None);
                    return false;
                }
                j = j + 1;
            }
            true
        },
        _ => false,
    }
}

/// Lookups in an object agree with lookups in its model.
proof fn lemma_first_entry_model(es: Seq<(String, Value)>, m: Seq<(Seq<char>, ValueModel)>, k: Seq<char>)
    requires
        m.len() == es.len(),
        forall|i: int| 0 <= i < es.len() ==> #[trigger] m[i] == (es[i].0@, es[i].1@),
    ensures
        forall|i: int| crate::document::first_key_at(es, k, i) <==> #[trigger] first_entry_at(m, k, i),
        match lookup(es, k) {
            Some(v) => obj_get(m, k) == Some(v@),
            None => obj_get(m, k) is None,
        },
{
    assert forall|i: int| crate::document::first_key_at(es, k, i) <==> #[trigger] first_entry_at(m, k, i) by {
        if 0 <= i < es.len() {
            assert(m[i].0 == es[i].0@);
            if crate::document::first_key_at(es, k, i) {
                assert forall|j: int| 0 <= j < i implies m[j].0 != k by { assert(m[j].0 == es[j].0@); }
            }
            if first_entry_at(m, k, i) {
                assert forall|j: int| 0 <= j < i implies es[j].0@ != k by { assert(m[j].0 == es[j].0@); }
            }
        }
    }
    if exists|i: int| crate::document::first_key_at(es, k, i) {
        let i = choose|i: int| crate::document::first_key_at(es, k, i);
        assert(first_entry_at(m, k, i));
        let c = choose|c: int| first_entry_at(m, k, c);
        assert(c == i) by {
            if c < i {
                assert(m[c].0 != k);
            } else if c > i {
                assert(m[i].0 != k);
            }
        };
        assert(m[i].1 == es[i].1@);
    } else if exists|c: int| first_entry_at(m, k, c) {
        let c = choose|c: int| first_entry_at(m, k, c);
        assert(crate::document::first_key_at(es, k, c));
    }
}

/// Whether two evaluation results are equal in the sense of `=`.
pub fn results_equal(a: &ExprResult, b: &ExprResult) -> (r: bool)
    ensures
        r == outcomes_equal(a@, b@),
{
    match (a, b) {
        (ExprResult::Null, ExprResult::Null) => true,
        (ExprResult::Value(Value::Null), ExprResult::Null) => true,
        (ExprResult::Null, ExprResult::Value(Value::Null)) => true,
        (ExprResult::Bool(x), ExprResult::Bool(y)) => *x == *y,
        (ExprResult::Value(x), ExprResult::Value(y)) => values_equal(x, y),
        (ExprResult::Bool(x), ExprResult::Value(Value::Bool(y))) => *x == *y,
        (ExprResult::Value(Value::Bool(x)), ExprResult::Bool(y)) => *x == *y,
        _ => false,
    }
}

proof fn lemma_text_cmp_step(a: Seq<char>, b: Seq<char>, i: int)
    requires
        0 <= i < a.len(),
        i < b.len(),
        a[i] == b[i],
    ensures
        text_cmp(a.subrange(i, a.len() as int), b.subrange(i, b.len() as int)) == text_cmp(
            a.subrange(i + 1, a.len() as int),
            b.subrange(i + 1, b.len() as int),
        ),
{
    let sa = a.subrange(i, a.len() as int);
    let sb = b.subrange(i, b.len() as int);
    assert(sa.drop_first() =~= a.subrange(i + 1, a.len() as int));
    assert(sb.drop_first() =~= b.subrange(i + 1, b.len() as int));
}

/// Lexicographic comparison of two texts by code point: -1, 0 or 1.
pub fn text_compare(a: &str, b: &str) -> (r: i32)
    ensures
        -1 <= r <= 1,
        r as int == text_cmp(a@, b@),
{
    let x = chars_of(a);
    let y = chars_of(b);
    let mut i: usize = 0;
    assert(x@.subrange(0, x@.len() as int) =~= x@);
    assert(y@.subrange(0, y@.len() as int) =~= y@);
    while i < x.len() && i < y.len()
        invariant
            x@ == a@,
            y@ == b@,
            i <= x@.len(),
            i <= y@.len(),
            text_cmp(a@, b@) == text_cmp(
                x@.subrange(i as int, x@.len() as int),
                y@.subrange(i as int, y@.len() as int),
            ),
        decreases x@.len() - i,
    {
        let c = x[i];
        let d = y[i];
        if c != d {
            if c < d {
                return -1;
            } else {
                return 1;
            }
        }
        proof {
            lemma_text_cmp_step(x@, y@, i as int);
        }
        i = i + 1;
    }
    if i < x.len() {
        1
    } else if i < y.len() {
        -1
    } else {
        0
    }
}

fn sign_of(x: i128, y: i128) -> (r: i32)
    ensures
        r as int == sign_cmp(x as int, y as int),
{
    if x < y {
        -1
    } else if x > y {
        1
    } else {
        0
    }
}

/// The ordering comparator of `<`, `>`, `BETWEEN`: -1, 0 or 1.
pub fn compare_results(a: &ExprResult, b: &ExprResult) -> (r: i32)
    ensures
        r as int == compare(a@, b@),
{
    match (a, b) {
        (ExprResult::Value(Value::Int(x)), ExprResult::Value(Value::Int(y))) => sign_of(*x as i128, *y as i128),
        (ExprResult::Value(Value::Float(x)), ExprResult::Value(Value::Float(y))) => sign_of(x.units, y.units),
        (ExprResult::Value(Value::String(x)), ExprResult::Value(Value::String(y))) => text_compare(x.as_str(), y.as_str()),
        (ExprResult::Value(Value::Int(x)), ExprResult::Value(Value::Float(y))) => sign_of(*x as i128 * DECIMAL_ONE, y.units),
        (ExprResult::Value(Value::Float(x)), ExprResult::Value(Value::Int(y))) => sign_of(x.units, *y as i128 * DECIMAL_ONE),
        _ => 0,
    }
}

fn int_arith_exec(op: BinaryOp, x: i64, y: i64) -> (r: i64)
    requires
        op == BinaryOp::Add || op == BinaryOp::Sub || op == BinaryOp::Mul || op == BinaryOp::Div
            || op == BinaryOp::Mod,
    ensures
        r == int_arith(op, x, y),
{
    match op {
        BinaryOp::Add => x.wrapping_add(y),
        BinaryOp::Sub => x.wrapping_sub(y),
        BinaryOp::Mul => x.wrapping_mul(y),
        BinaryOp::Div => if y == 0 {
            0
        } else {
            match x.checked_div(y) {
                Some(q) => q,
                None => x,
            }
        },
        _ => if y == 0 {
            0
        } else {
            match x.checked_rem(y) {
                Some(m) => m,
                None => 0,
            }
        },
    }
}

fn decimal_op_exec(op: BinaryOp, x: i128, y: i128) -> (r: Option<i128>)
    ensures
        r == decimal_op(op, x, y),
{
    match op {
        BinaryOp::Add => x.checked_add(y),
        BinaryOp::Sub => x.checked_sub(y),
        BinaryOp::Mul => match x.checked_mul(y) {
            Some(p) => p.checked_div(DECIMAL_ONE),
            None => None,
        },
        BinaryOp::Div => if y == 0 {
            None
        } else {
            match x.checked_mul(DECIMAL_ONE) {
                Some(p) => p.checked_div(y),
                None => None,
            }
        },
        _ => x.checked_rem(y),
    }
}

fn decimal_result(r: Option<i128>) -> (e: ExprResult)
    ensures
        e@ == decimal_outcome(r),
{
    match r {
        Some(u) => ExprResult::Value(Value::Float(Decimal { units: u })),
        None => ExprResult::Null,
    }
}

/// Arithmetic on two evaluated operands.
pub fn arithmetic(op: BinaryOp, a: &ExprResult, b: &ExprResult) -> (r: ExprResult)
    requires
        op == BinaryOp::Add || op == BinaryOp::Sub || op == BinaryOp::Mul || op == BinaryOp::Div
            || op == BinaryOp::Mod,
    ensures
        r@ == arith(op, a@, b@),
{
    match (a, b) {
        (ExprResult::Value(Value::Int(x)), ExprResult::Value(Value::Int(y))) => ExprResult::Value(Value::Int(int_arith_exec(op, *x, *y))),
        (ExprResult::Value(Value::Float(x)), ExprResult::Value(Value::Float(y))) => decimal_result(
            decimal_op_exec(op, x.units, y.units),
        ),
        (ExprResult::Value(Value::Int(x)), ExprResult::Value(Value::Float(y))) => {
            let r = if let BinaryOp::Mul = op {
                (*x as i128).checked_mul(y.units)
            } else {
                decimal_op_exec(op, *x as i128 * DECIMAL_ONE, y.units)
            };
            decimal_result(r)
        },
        (ExprResult::Value(Value::Float(x)), ExprResult::Value(Value::Int(y))) => {
            let r = if let BinaryOp::Mul = op {
                x.units.checked_mul(*y as i128)
            } else if let BinaryOp::Div = op {
                if *y == 0 { None } else { x.units.checked_div(*y as i128) }
            } else {
                decimal_op_exec(op, x.units, *y as i128 * DECIMAL_ONE)
            };
            decimal_result(r)
        },
        _ => ExprResult::Null,
    }
}

fn bool_to_text(b: bool) -> (r: String)
    ensures
        r@ == bool_text(b),
{
    let mut r = String::new();
    if b {
        crate::text::push_text(&mut r, "true");
        proof { reveal_strlit("true"); }
        assert(r@ =~= bool_text(b));
    } else {
        crate::text::push_text(&mut r, "false");
        proof { reveal_strlit("false"); }
        assert(r@ =~= bool_text(b));
    }
    r
}

/// The text a result contributes to `||` concatenation.
pub fn result_text(o: &ExprResult) -> (r: String)
    ensures
        r@ == outcome_text(o@),
{
    match o {
        ExprResult::Value(Value::String(s)) => s.clone(),
        ExprResult::Value(Value::Int(i)) => crate::text::int_to_text(*i),
        ExprResult::Value(Value::Float(d)) => crate::document::decimal_to_text(*d),
        ExprResult::Value(Value::Bool(b)) => bool_to_text(*b),
        ExprResult::Bool(b) => bool_to_text(*b),
        _ => String::new(),
    }
}

/// Whether a result is truthy.
pub fn is_truthy(o: &ExprResult) -> (r: bool)
    ensures
        r == truthy(o@),
{
    match o {
        ExprResult::Bool(b) => *b,
        ExprResult::Value(Value::Bool(b)) => *b,
        _ => false,
    }
}

/// A binary operator applied to two evaluated operands.
pub fn evaluate_binary_op(left: &ExprResult, op: BinaryOp, right: &ExprResult) -> (r: ExprResult)
    ensures
        r@ == binary(op, left@, right@),
{
    match op {
        BinaryOp::And => ExprResult::Bool(is_truthy(left) && is_truthy(right)),
        BinaryOp::Or => ExprResult::Bool(is_truthy(left) || is_truthy(right)),
        BinaryOp::Eq => ExprResult::Bool(results_equal(left, right)),
        BinaryOp::Ne => ExprResult::Bool(!results_equal(left, right)),
        BinaryOp::Lt => ExprResult::Bool(compare_results(left, right) < 0),
        BinaryOp::Le => ExprResult::Bool(compare_results(left, right) <= 0),
        BinaryOp::Gt => ExprResult::Bool(compare_results(left, right) > 0),
        BinaryOp::Ge => ExprResult::Bool(compare_results(left, right) >= 0),
        BinaryOp::Concat => {
            let mut s = result_text(left);
            let t = result_text(right);
            crate::text::push_text(&mut s, t.as_str());
            ExprResult::Value(Value::String(s))
        },
        _ => arithmetic(op, left, right),
    }
}

} // verus!

verus! {

fn has_tag_in(doc: &Document, column: &Option<String>, tag: &String) -> (r: bool)
    ensures
        r == has_tag(*doc, match *column { Some(c) => c@, None => default_tag_field() }, tag@),
{
    let ghost key = match column { Some(c) => c@, None => default_tag_field() };
    let found = match column {
        Some(c) => doc.get(c.as_str()),
        None => {
            let k = "tags";
            proof {
                reveal_strlit("tags");
                assert(k@ =~= default_tag_field());
            }
            doc.get(k)
        },
    };
    match found {
        Some(Value::Array(items)) => {
            let mut i: usize = 0;
            while i < items.len()
                invariant
                    i <= items@.len(),
                    lookup(doc.fields@, key) == Some(Value::Array(*items)),
                    key == match *column { Some(c) => c@, None => default_tag_field() },
                    forall|j: int| 0 <= j < i ==> (#[trigger] items@[j])@ != ValueModel::String(tag@),
                decreases items@.len() - i,
            {
                match &items[i] {
                    Value::String(s) => {
                        if *s == *tag {
                            proof {
                                let ghost m = lookup_model(doc.fields@, key)->Some_0->Array_0;
                                assert(m == Value::Array(*items)@->Array_0);
                                assert(m[i as int] == ValueModel::String(tag@));
                                assert(0 <= i < m.len());
                            }
                            return true;
                        }
                    },
                    _ => {},
                }
                i = i + 1;
            }
            false
        },
        _ => false,
    }
}

/// Whether some expression of `values` evaluates to a result equal to `target`.
pub fn evaluate_in(target: &ExprResult, values: &Vec<Expr>, doc: &Document) -> (r: bool)
    ensures
        r == any_equal(target@, values@, *doc),
    decreases values,
{
    let mut found = false;
    let mut i: usize = 0;
    assert(values@.subrange(0, values@.len() as int) =~= values@);
    while i < values.len()
        invariant
            i <= values@.len(),
            any_equal(target@, values@, *doc) == (found || any_equal(
                target@,
                values@.subrange(i as int, values@.len() as int),
                *doc,
            )),
        decreases values@.len() - i,
    {
        proof {
            broadcast use vstd::std_specs::vec::axiom_vec_index_decreases;
            assert(decreases_to!(*values => values[i as int]));
            let ghost rest = values@.subrange(i as int, values@.len() as int);
            assert(rest.subrange(1, rest.len() as int) =~= values@.subrange(i + 1, values@.len() as int));
            assert(rest[0] == values@[i as int]);
        }
        let c = evaluate_expr(&values[i], doc);
        if results_equal(target, &c) {
            found = true;
        }
        i = i + 1;
    }
    found
}

/// What `expr` evaluates to against `doc`.
pub fn evaluate_expr(expr: &Expr, doc: &Document) -> (r: ExprResult)
    ensures
        r@ == eval(*expr, *doc),
    decreases expr,
{
    match expr {
        Expr::Literal(lit) => {
            let v = lit.to_value();
            assert(v@ == lit@);
            ExprResult::Value(v)
        },
        Expr::Column(col) => match col {
            Column::Star => ExprResult::Null,
            Column::Field(name) => match doc.get(name.as_str()) {
                Some(v) => ExprResult::Value(v.copy()),
                None => ExprResult::Null,
            },
            Column::Special(sf) => match sf {
                SpecialField::Id => ExprResult::Value(Value::String(doc.id.clone())),
                SpecialField::Body => ExprResult::Value(Value::String(doc.body.clone())),
                SpecialField::Path => ExprResult::Value(Value::String(doc.path.clone())),
                _ => ExprResult::Null,
            },
            Column::Expr { expr: inner, .. } => evaluate_expr(inner, doc),
        },
        Expr::BinaryOp { left, op, right } => {
            let l = evaluate_expr(left, doc);
            let r = evaluate_expr(right, doc);
            evaluate_binary_op(&l, *op, &r)
        },
        Expr::UnaryOp { op, expr: inner } => {
            let v = evaluate_expr(inner, doc);
            match op {
                UnaryOp::Not => ExprResult::Bool(!is_truthy(&v)),
                UnaryOp::Neg => match v {
                    ExprResult::Value(Value::Int(i)) => ExprResult::Value(Value::Int(0i64.wrapping_sub(i))),
                    ExprResult::Value(Value::Float(d)) => {
                        if d.units == i128::MIN {
                            ExprResult::Null
                        } else {
                            ExprResult::Value(Value::Float(Decimal { units: -d.units }))
                        }
                    },
                    _ => ExprResult::Null,
                },
            }
        },
        Expr::Contains { text } => {
            let body = crate::text::to_lower(doc.body.as_str());
            let needle = crate::text::to_lower(text.as_str());
            ExprResult::Bool(crate::text::str_contains(body.as_str(), needle.as_str()))
        },
        Expr::HasTag { tag, column } => ExprResult::Bool(has_tag_in(doc, column, tag)),
        Expr::Like { expr: inner, pattern, negated } => {
            let v = evaluate_expr(inner, doc);
            let m = match &v {
                ExprResult::Value(x) => x.matches_pattern(pattern.as_str()),
                _ => false,
            };
            ExprResult::Bool(if *negated { !m } else { m })
        },
        Expr::In { expr: inner, values, negated } => {
            let v = evaluate_expr(inner, doc);
            proof {
                let ghost me: Expr = *expr;
                assert(decreases_to!(me => me->values));
            }
            let found = evaluate_in(&v, values, doc);
            ExprResult::Bool(if *negated { !found } else { found })
        },
        Expr::IsNull { expr: inner, negated } => {
            let v = evaluate_expr(inner, doc);
            let is_null = match v {
                ExprResult::Null => true,
                ExprResult::Value(Value::Null) => true,
                _ => false,
            };
            ExprResult::Bool(if *negated { !is_null } else { is_null })
        },
        Expr::Between { expr: inner, low, high, negated } => {
            let v = evaluate_expr(inner, doc);
            let lo = evaluate_expr(low, doc);
            let hi = evaluate_expr(high, doc);
            let in_range = compare_results(&v, &lo) >= 0 && compare_results(&v, &hi) <= 0;
            ExprResult::Bool(if *negated { !in_range } else { in_range })
        },
        Expr::Function { .. } => ExprResult::Null,
    }
}

/// Whether `doc` satisfies the filter `expr`.
pub fn evaluate(expr: &Expr, doc: &Document) -> (r: bool)
    ensures
        r == satisfies(*expr, *doc),
{
    let v = evaluate_expr(expr, doc);
    is_truthy(&v)
}

} // verus!

verus! {

/// Comparing a field with a literal by `=` holds exactly when the document
/// has the field with a value equal to the literal's, or lacks the field and the literal
/// is null.
pub proof fn lemma_field_equals_literal(f: String, l: crate::ast::Literal, d: Document)
    ensures
        satisfies(
            Expr::BinaryOp {
                left: Box::new(Expr::Column(Column::Field(f))),
                op: BinaryOp::Eq,
                right: Box::new(Expr::Literal(l)),
            },
            d,
        ) <==> match lookup_model(d.fields@, f@) {
            Some(v) => model_eq(v, l@),
            None => l@ == ValueModel::Null,
        },
{
    let left = Expr::Column(Column::Field(f));
    let right = Expr::Literal(l);
    assert(eval(left, d) == column_value(Column::Field(f), d));
    assert(eval(right, d) == Outcome::Value(l@));
}

} // verus!

verus! {

/// How a value is shown in a table: `NULL`, `true`/`false`, numbers in
/// decimal, strings as they are, arrays as `[a, b]`, objects as `{...}`.
pub open spec fn display_text(v: ValueModel) -> Seq<char>
    decreases v, 0int,
{
    match v {
        ValueModel::Null => "NULL"@,
        ValueModel::Bool(b) => bool_text(b),
        ValueModel::Int(i) => int_text(i as int),
        ValueModel::Float(u) => decimal_text(u),
        ValueModel::String(s) => s,
        ValueModel::Array(items) => "["@ + display_join(items, items.len() as int) + "]"@,
        ValueModel::Object(_) => "{...}"@,
    }
}

/// The first `n` items shown and separated by `, `.
pub open spec fn display_join(items: Seq<ValueModel>, n: int) -> Seq<char>
    decreases items, n,
{
    if n <= 0 || n > items.len() {
        Seq::empty()
    } else if n == 1 {
        display_text(items[0])
    } else {
        display_join(items, n - 1) + ", "@ + display_text(items[n - 1])
    }
}

/// The text a value is shown as (see [`display_text`]).
pub fn format_value(v: &Value) -> (r: String)
    ensures
        r@ == display_text(v@),
    decreases v,
{
    match v {
        Value::Null => {
            let mut r = String::new();
            crate::text::push_text(&mut r, "NULL");
            assert(r@ =~= display_text(v@));
            r
        },
        Value::Bool(b) => bool_to_text(*b),
        Value::Int(i) => crate::text::int_to_text(*i),
        Value::Float(d) => crate::document::decimal_to_text(*d),
        Value::String(s) => s.clone(),
        Value::Array(items) => {
            let mut r = String::new();
            crate::text::push_text(&mut r, "[");
            let ghost m = v@->Array_0;
            let ghost head = r@;
            let mut i: usize = 0;
            while i < items.len()
                invariant
                    *v is Array,
                    v->Array_0 == *items,
                    m == v@->Array_0,
                    m.len() == items@.len(),
                    forall|j: int| 0 <= j < items@.len() ==> m[j] == (#[trigger] items@[j])@,
                    i <= items@.len(),
                    r@ == head + display_join(m, i as int),
                decreases items@.len() - i,
            {
                proof {
                    let ghost me: Value = *v;
                    broadcast use vstd::std_specs::vec::axiom_vec_index_decreases;
                    assert(decreases_to!(me => me->Array_0));
                    assert(decreases_to!(me->Array_0 => me->Array_0[i as int]));
                }
                if i > 0 {
                    crate::text::push_text(&mut r, ", ");
                }
                let t = format_value(&items[i]);
                crate::text::push_text(&mut r, t.as_str());
                proof {
                    if i == 0 {
                        assert(display_join(m, 0) =~= Seq::<char>::empty());
                    }
                }
                assert(r@ =~= head + display_join(m, i + 1));
                i = i + 1;
            }
            crate::text::push_text(&mut r, "]");
            assert(r@ =~= display_text(v@));
            r
        },
        Value::Object(_) => {
            let mut r = String::new();
            crate::text::push_text(&mut r, "{...}");
            assert(r@ =~= display_text(v@));
            r
        },
    }
}

} // verus!
