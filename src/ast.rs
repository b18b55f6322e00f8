//! The syntax tree of the query language: what the parser builds and the
//! executor consumes.
use vstd::prelude::*;
use crate::document::{Decimal, Value, ValueModel};

verus! {

/// One statement.
#[derive(Debug)]
pub enum Statement {
    Select(SelectStmt),
    Insert(InsertStmt),
    Update(UpdateStmt),
    Delete(DeleteStmt),
    CreateCollection(CreateCollectionStmt),
    CreateView(CreateViewStmt),
    DropCollection(String),
    DropView(String),
}

/// `SELECT columns FROM from [WHERE ..] [ORDER BY ..] [LIMIT n] [OFFSET n]`.
#[derive(Debug)]
pub struct SelectStmt {
    /// Columns to select (`*` selects all fields).
    pub columns: Vec<Column>,
    /// Collection to select from.
    pub from: String,
    pub where_clause: Option<Expr>,
    pub order_by: Vec<OrderBy>,
    pub limit: Option<usize>,
    pub offset: Option<usize>,
}

/// A column reference.
#[derive(Debug)]
pub enum Column {
    /// All columns (`*`).
    Star,
    /// A named field.
    Field(String),
    /// A document attribute (`@id`, `@body`, ...).
    Special(SpecialField),
    /// An expression with an alias; the executor does not project it.
    Expr { expr: Box<Expr>, alias: Option<String> },
}

/// Document attributes that stand outside the field map.
#[derive(Debug, Clone, Copy, PartialEq, Eq, Structural)]
pub enum SpecialField {
    /// `@id`: the document's identifier.
    Id,
    /// `@body`: the free-text body.
    Body,
    /// `@path`: the file path.
    Path,
    /// `@modified`: last modification time (not evaluated).
    Modified,
    /// `@created`: creation time (not evaluated).
    Created,
}

/// One key of `ORDER BY`.
#[derive(Debug)]
pub struct OrderBy {
    pub column: String,
    pub direction: OrderDirection,
}

/// Sort direction of an `ORDER BY` key.
#[derive(Debug, Clone, Copy, PartialEq, Eq, Structural)]
pub enum OrderDirection {
    Asc,
    Desc,
}

impl Default for OrderDirection {
    fn default() -> (r: Self)
        ensures
            r == OrderDirection::Asc,
    {
        OrderDirection::Asc
    }
}

/// `INSERT INTO into (columns) VALUES (values) [BODY '...']`.
#[derive(Debug)]
pub struct InsertStmt {
    pub into: String,
    pub columns: Vec<String>,
    pub values: Vec<Literal>,
    pub body: Option<String>,
}

/// `UPDATE collection SET .. [WHERE ..]`.
#[derive(Debug)]
pub struct UpdateStmt {
    pub collection: String,
    pub set: Vec<SetClause>,
    pub where_clause: Option<Expr>,
}

/// `column = value` in an `UPDATE`.
#[derive(Debug)]
pub struct SetClause {
    pub column: String,
    pub value: Expr,
}

/// `DELETE FROM from [WHERE ..]`.
#[derive(Debug)]
pub struct DeleteStmt {
    pub from: String,
    pub where_clause: Option<Expr>,
}

/// `CREATE [IF NOT EXISTS] COLLECTION name [(column defs)]`.
#[derive(Debug)]
pub struct CreateCollectionStmt {
    pub name: String,
    pub columns: Vec<ColumnDef>,
    pub if_not_exists: bool,
}

/// One column definition of `CREATE COLLECTION`.
#[derive(Debug)]
pub struct ColumnDef {
    pub name: String,
    pub data_type: DataType,
    pub constraints: Vec<Constraint>,
}

/// Declared column types.
#[derive(Debug)]
pub enum DataType {
    String,
    Int,
    Float,
    Bool,
    Date,
    DateTime,
    Array(Box<DataType>),
    Object,
    /// A reference to a document of another collection.
    Ref(String),
}

/// Column constraints.
#[derive(Debug)]
pub enum Constraint {
    Required,
    Unique,
    Default(Literal),
    Indexed,
}

/// `CREATE [IF NOT EXISTS] VIEW name AS select [TEMPLATE '...']`.
#[derive(Debug)]
pub struct CreateViewStmt {
    pub name: String,
    pub query: Box<SelectStmt>,
    pub template: Option<String>,
    pub if_not_exists: bool,
}

/// Expressions of `WHERE` and `SET`.
#[derive(Debug)]
pub enum Expr {
    Literal(Literal),
    Column(Column),
    BinaryOp { left: Box<Expr>, op: BinaryOp, right: Box<Expr> },
    UnaryOp { op: UnaryOp, expr: Box<Expr> },
    /// A function call: parsed shapes only, evaluates to null.
    Function { name: String, args: Vec<Expr> },
    In { expr: Box<Expr>, values: Vec<Expr>, negated: bool },
    Like { expr: Box<Expr>, pattern: String, negated: bool },
    /// Case-insensitive search in the body.
    Contains { text: String },
    /// Membership of a string in an array field (`tags` by default).
    HasTag { tag: String, column: Option<String> },
    IsNull { expr: Box<Expr>, negated: bool },
    Between { expr: Box<Expr>, low: Box<Expr>, high: Box<Expr>, negated: bool },
}

/// Literal values.
#[derive(Debug)]
pub enum Literal {
    Null,
    Bool(bool),
    Int(i64),
    Float(Decimal),
    String(String),
    Array(Vec<Literal>),
}

/// Binary operators.
#[derive(Debug, Clone, Copy, PartialEq, Eq, Structural)]
pub enum BinaryOp {
    Eq,
    Ne,
    Lt,
    Le,
    Gt,
    Ge,
    And,
    Or,
    Add,
    Sub,
    Mul,
    Div,
    Mod,
    Concat,
}

/// Unary operators.
#[derive(Debug, Clone, Copy, PartialEq, Eq, Structural)]
pub enum UnaryOp {
    Not,
    Neg,
}

/// The value model of a literal.
pub open spec fn literal_model(l: Literal) -> ValueModel
    decreases l,
{
    match l {
        Literal::Null => ValueModel::Null,
        Literal::Bool(b) => ValueModel::Bool(b),
        Literal::Int(i) => ValueModel::Int(i),
        Literal::Float(d) => ValueModel::Float(d.units as int),
        Literal::String(s) => ValueModel::String(s@),
        Literal::Array(items) => ValueModel::Array(
            Seq::new(
                items@.len(),
                |i: int|
                    if 0 <= i < items@.len() {
                        literal_model(items@[i])
                    } else {
                        ValueModel::Null
                    },
            ),
        ),
    }
}

impl View for Literal {
    type V = ValueModel;

    open spec fn view(&self) -> ValueModel {
        literal_model(*self)
    }
}

impl Literal {
    /// The field value this literal denotes.
    pub fn to_value(&self) -> (r: Value)
        ensures
            r@ == self@,
        decreases self,
    {
        match self {
            Literal::Null => Value::Null,
            Literal::Bool(b) => Value::Bool(*b),
            Literal::Int(i) => Value::Int(*i),
            Literal::Float(d) => Value::Float(*d),
            Literal::String(s) => Value::String(s.clone()),
            Literal::Array(items) => {
                let mut out: Vec<Value> = Vec::new();
                let mut i: usize = 0;
                while i < items.len()
                    invariant
                        *self is Array,
                        self->Array_0 == *items,
                        i <= items@.len(),
                        out@.len() == i,
                        forall|j: int| 0 <= j < i ==> (#[trigger] out@[j])@ == items@[j]@,
                    decreases items@.len() - i,
                {
                    proof {
                        let ghost me: Literal = *self;
                        broadcast use vstd::std_specs::vec::axiom_vec_index_decreases;
                        assert(decreases_to!(me => me->Array_0));
                        assert(decreases_to!(me->Array_0 => me->Array_0[i as int]));
                    }
                    let c = items[i].to_value();
                    out.push(c);
                    i = i + 1;
                }
                let r = Value::Array(out);
                assert(r@ == self@) by {
                    assert(r@->Array_0 =~= self@->Array_0);
                }
                r
            },
        }
    }
}

impl SelectStmt {
    /// `SELECT * FROM from`.
    pub fn new(from: &str) -> (r: SelectStmt)
        ensures
            r.columns@.len() == 1,
            r.columns@[0] is Star,
            r.from@ == from@,
            r.where_clause.is_none(),
            r.order_by@.len() == 0,
            r.limit.is_none(),
            r.offset.is_none(),
    {
        SelectStmt {
            columns: vec![Column::Star],
            from: from.to_owned(),
            where_clause: None,
            order_by: Vec::new(),
            limit: None,
            offset: None,
        }
    }
}

} // verus!

verus! {

/// The model of a column reference.
pub enum ColumnM {
    Star,
    Field(Seq<char>),
    Special(SpecialField),
    Expr(Box<ExprM>, Option<Seq<char>>),
}

/// The model of an expression: strings as characters, literals as values.
pub enum ExprM {
    Literal(ValueModel),
    Column(ColumnM),
    BinaryOp(Box<ExprM>, BinaryOp, Box<ExprM>),
    UnaryOp(UnaryOp, Box<ExprM>),
    Function(Seq<char>, Seq<ExprM>),
    In(Box<ExprM>, Seq<ExprM>, bool),
    Like(Box<ExprM>, Seq<char>, bool),
    Contains(Seq<char>),
    HasTag(Seq<char>, Option<Seq<char>>),
    IsNull(Box<ExprM>, bool),
    Between(Box<ExprM>, Box<ExprM>, Box<ExprM>, bool),
}

/// The model of an optional string.
pub open spec fn opt_chars(o: Option<String>) -> Option<Seq<char>> {
    match o {
        Some(s) => Some(s@),
        None => None,
    }
}

/// The model of a column reference.
pub open spec fn column_model(c: Column) -> ColumnM
    decreases c,
{
    match c {
        Column::Star => ColumnM::Star,
        Column::Field(n) => ColumnM::Field(n@),
        Column::Special(f) => ColumnM::Special(f),
        Column::Expr { expr, alias } => ColumnM::Expr(Box::new(expr_model(*expr)), opt_chars(alias)),
    }
}

/// The model of an expression.
pub open spec fn expr_model(e: Expr) -> ExprM
    decreases e,
{
    match e {
        Expr::Literal(l) => ExprM::Literal(l@),
        Expr::Column(c) => ExprM::Column(column_model(c)),
        Expr::BinaryOp { left, op, right } => ExprM::BinaryOp(Box::new(expr_model(*left)), op, Box::new(expr_model(*right))),
        Expr::UnaryOp { op, expr } => ExprM::UnaryOp(op, Box::new(expr_model(*expr))),
        Expr::Function { name, args } => ExprM::Function(
            name@,
            Seq::new(args@.len(), |i: int| if 0 <= i < args@.len() { expr_model(args@[i]) } else { ExprM::Contains(Seq::empty()) }),
        ),
        Expr::In { expr, values, negated } => ExprM::In(
            Box::new(expr_model(*expr)),
            Seq::new(values@.len(), |i: int| if 0 <= i < values@.len() { expr_model(values@[i]) } else { ExprM::Contains(Seq::empty()) }),
            negated,
        ),
        Expr::Like { expr, pattern, negated } => ExprM::Like(Box::new(expr_model(*expr)), pattern@, negated),
        Expr::Contains { text } => ExprM::Contains(text@),
        Expr::HasTag { tag, column } => ExprM::HasTag(tag@, opt_chars(column)),
        Expr::IsNull { expr, negated } => ExprM::IsNull(Box::new(expr_model(*expr)), negated),
        Expr::Between { expr, low, high, negated } => ExprM::Between(
            Box::new(expr_model(*expr)),
            Box::new(expr_model(*low)),
            Box::new(expr_model(*high)),
            negated,
        ),
    }
}

impl View for Expr {
    type V = ExprM;

    open spec fn view(&self) -> ExprM {
        expr_model(*self)
    }
}

impl View for Column {
    type V = ColumnM;

    open spec fn view(&self) -> ColumnM {
        column_model(*self)
    }
}

} // verus!

verus! {

/// The model of a `SELECT`.
pub struct SelectM {
    pub columns: Seq<ColumnM>,
    pub from: Seq<char>,
    pub where_clause: Option<ExprM>,
    pub order_by: Seq<(Seq<char>, OrderDirection)>,
    pub limit: Option<int>,
    pub offset: Option<int>,
}

/// The model of a column type.
pub enum DataTypeM {
    String,
    Int,
    Float,
    Bool,
    Date,
    DateTime,
    Array(Box<DataTypeM>),
    Object,
    Ref(Seq<char>),
}

/// The model of a column constraint.
pub enum ConstraintM {
    Required,
    Unique,
    Default(ValueModel),
    Indexed,
}

/// The model of a statement.
pub enum StatementM {
    Select(SelectM),
    Insert { into: Seq<char>, columns: Seq<Seq<char>>, values: Seq<ValueModel>, body: Option<Seq<char>> },
    Update { collection: Seq<char>, set: Seq<(Seq<char>, ExprM)>, where_clause: Option<ExprM> },
    Delete { from: Seq<char>, where_clause: Option<ExprM> },
    CreateCollection { name: Seq<char>, columns: Seq<(Seq<char>, DataTypeM, Seq<ConstraintM>)>, if_not_exists: bool },
    CreateView { name: Seq<char>, query: SelectM, template: Option<Seq<char>>, if_not_exists: bool },
    DropCollection(Seq<char>),
    DropView(Seq<char>),
}

/// The model of an optional expression.
pub open spec fn opt_expr(o: Option<Expr>) -> Option<ExprM> {
    match o {
        Some(e) => Some(e@),
        None => None,
    }
}

/// The model of an optional count.
pub open spec fn opt_count(o: Option<usize>) -> Option<int> {
    match o {
        Some(n) => Some(n as int),
        None => None,
    }
}

/// The model of a `SELECT`.
pub open spec fn select_model(s: SelectStmt) -> SelectM {
    SelectM {
        columns: Seq::new(s.columns@.len(), |i: int| s.columns@[i]@),
        from: s.from@,
        where_clause: opt_expr(s.where_clause),
        order_by: Seq::new(s.order_by@.len(), |i: int| (s.order_by@[i].column@, s.order_by@[i].direction)),
        limit: opt_count(s.limit),
        offset: opt_count(s.offset),
    }
}

/// The model of a column type.
pub open spec fn datatype_model(d: DataType) -> DataTypeM
    decreases d,
{
    match d {
        DataType::String => DataTypeM::String,
        DataType::Int => DataTypeM::Int,
        DataType::Float => DataTypeM::Float,
        DataType::Bool => DataTypeM::Bool,
        DataType::Date => DataTypeM::Date,
        DataType::DateTime => DataTypeM::DateTime,
        DataType::Array(inner) => DataTypeM::Array(Box::new(datatype_model(*inner))),
        DataType::Object => DataTypeM::Object,
        DataType::Ref(n) => DataTypeM::Ref(n@),
    }
}

/// The model of a constraint.
pub open spec fn constraint_model(c: Constraint) -> ConstraintM {
    match c {
        Constraint::Required => ConstraintM::Required,
        Constraint::Unique => ConstraintM::Unique,
        Constraint::Default(l) => ConstraintM::Default(l@),
        Constraint::Indexed => ConstraintM::Indexed,
    }
}

/// The model of a column definition.
pub open spec fn column_def_model(c: ColumnDef) -> (Seq<char>, DataTypeM, Seq<ConstraintM>) {
    (c.name@, datatype_model(c.data_type), Seq::new(c.constraints@.len(), |i: int| constraint_model(c.constraints@[i])))
}

/// The model of a statement.
pub open spec fn statement_model(st: Statement) -> StatementM {
    match st {
        Statement::Select(s) => StatementM::Select(select_model(s)),
        Statement::Insert(i) => StatementM::Insert {
            into: i.into@,
            columns: Seq::new(i.columns@.len(), |k: int| i.columns@[k]@),
            values: Seq::new(i.values@.len(), |k: int| i.values@[k]@),
            body: opt_chars(i.body),
        },
        Statement::Update(u) => StatementM::Update {
            collection: u.collection@,
            set: Seq::new(u.set@.len(), |k: int| (u.set@[k].column@, u.set@[k].value@)),
            where_clause: opt_expr(u.where_clause),
        },
        Statement::Delete(d) => StatementM::Delete { from: d.from@, where_clause: opt_expr(d.where_clause) },
        Statement::CreateCollection(c) => StatementM::CreateCollection {
            name: c.name@,
            columns: Seq::new(c.columns@.len(), |k: int| column_def_model(c.columns@[k])),
            if_not_exists: c.if_not_exists,
        },
        Statement::CreateView(v) => StatementM::CreateView {
            name: v.name@,
            query: select_model(*v.query),
            template: opt_chars(v.template),
            if_not_exists: v.if_not_exists,
        },
        Statement::DropCollection(n) => StatementM::DropCollection(n@),
        Statement::DropView(n) => StatementM::DropView(n@),
    }
}

impl View for Statement {
    type V = StatementM;

    open spec fn view(&self) -> StatementM {
        statement_model(*self)
    }
}

} // verus!
