//! Statement execution over an in-memory database: the collections with
//! their documents, the schema registry and the views. The caller loads the
//! state from storage and writes it back; each successful change is recorded
//! with a commit message.
use vstd::prelude::*;
use crate::ast::{
    Column, Constraint, CreateCollectionStmt, CreateViewStmt, DataType, DeleteStmt, Expr, InsertStmt,
    Literal, SelectStmt, SetClause, Statement, UpdateStmt,
};
use crate::document::{lookup_model, Document, Value, ValueModel};
use crate::error::{identifier_error, Error};
use crate::schema::{FieldDef, FieldType, IdStrategy, Schema, SchemaRegistry, missing_at, mistyped_at, schema_at};
use crate::select::{matching, passes, projected, select_documents, selected};
use crate::text::{push_nat_text, push_text, str_eq};
use crate::validation::{
    identifier_fault, reports, template_fault, validate_collection_name, validate_document_id,
    validate_template_name, validate_view_name, ValidationError, REASON_IDENTIFIER_CHARS,
    REASON_IDENTIFIER_START, REASON_TEMPLATE_CHARS, REASON_TEMPLATE_START,
};
use vstd::view::View as Viewable;
use crate::views::View;

verus! {

/// A collection and its documents, in scan order.
#[derive(Debug)]
pub struct StoredCollection {
    pub name: String,
    pub documents: Vec<Document>,
}

/// The state one statement works on.
#[derive(Debug)]
pub struct Database {
    /// Root directory of the database.
    pub root: String,
    pub collections: Vec<StoredCollection>,
    pub schema: SchemaRegistry,
    pub views: Vec<View>,
    /// Commit messages of the changes made, oldest first.
    pub commits: Vec<String>,
}

/// What a statement gives back.
#[derive(Debug)]
pub enum QueryResult {
    /// Documents returned by a `SELECT`.
    Documents(Vec<Document>),
    /// Number of documents a statement changed.
    Affected(usize),
    ViewCreated(String),
    CollectionCreated(String),
}

/// What a synchronisation with a remote did.
#[derive(Debug)]
pub struct SyncResult {
    pub pulled: usize,
    pub pushed: usize,
    pub conflicts_resolved: Vec<String>,
}

/// `cs[i]` is the first collection named `name`.
pub open spec fn coll_at(cs: Seq<StoredCollection>, name: Seq<char>, i: int) -> bool {
    0 <= i < cs.len() && cs[i].name@ == name && forall|j: int| 0 <= j < i ==> cs[j].name@ != name
}

/// Some collection is named `name`.
pub open spec fn has_collection(cs: Seq<StoredCollection>, name: Seq<char>) -> bool {
    exists|i: int| 0 <= i < cs.len() && cs[i].name@ == name
}

/// `vs[i]` is the first view named `name`.
pub open spec fn view_at(vs: Seq<View>, name: Seq<char>, i: int) -> bool {
    0 <= i < vs.len() && vs[i].name@ == name && forall|j: int| 0 <= j < i ==> vs[j].name@ != name
}

/// Some view is named `name`.
pub open spec fn has_view(vs: Seq<View>, name: Seq<char>) -> bool {
    exists|i: int| 0 <= i < vs.len() && vs[i].name@ == name
}

/// `e` reports that `name` breaks the identifier rules.
pub open spec fn name_rejected(name: Seq<char>, e: Error) -> bool {
    identifier_fault(name) is Some && exists|v: ValidationError|
        reports(Err(v), name, identifier_fault(name), REASON_IDENTIFIER_CHARS, REASON_IDENTIFIER_START)
            && #[trigger] identifier_error(e, v)
}

/// `e` reports that template name `name` breaks the template rules.
pub open spec fn template_rejected(name: Seq<char>, e: Error) -> bool {
    template_fault(name) is Some && exists|v: ValidationError|
        reports(Err(v), name, template_fault(name), REASON_TEMPLATE_CHARS, REASON_TEMPLATE_START)
            && #[trigger] identifier_error(e, v)
}

/// Checks `name` against the identifier rules.
fn check_identifier(name: &str) -> (r: Result<(), Error>)
    ensures
        r is Ok == (identifier_fault(name@) is None),
        r is Err ==> name_rejected(name@, r->Err_0),
{
    match validate_collection_name(name) {
        Ok(()) => Ok(()),
        Err(v) => {
            let ghost gv = v;
            let e = Error::from_identifier(v);
            assert(identifier_error(e, gv));
            Err(e)
        },
    }
}

impl Database {
    /// An empty database rooted at `root`.
    pub fn new(root: &str) -> (r: Database)
        ensures
            r.root@ == root@,
            r.collections@.len() == 0,
            r.schema.schemas@.len() == 0,
            r.views@.len() == 0,
            r.commits@.len() == 0,
    {
        let mut path = root.to_owned();
        push_text(&mut path, "/.mdby/schemas");
        Database {
            root: root.to_owned(),
            collections: Vec::new(),
            schema: SchemaRegistry::empty(path.as_str()),
            views: Vec::new(),
            commits: Vec::new(),
        }
    }

    /// The index of the collection named `name`.
    pub fn find_collection(&self, name: &str) -> (r: Option<usize>)
        ensures
            match r {
                Some(i) => coll_at(self.collections@, name@, i as int),
                None => !has_collection(self.collections@, name@),
            },
    {
        let mut i: usize = 0;
        while i < self.collections.len()
            invariant
                i <= self.collections@.len(),
                forall|j: int| 0 <= j < i ==> self.collections@[j].name@ != name@,
            decreases self.collections@.len() - i,
        {
            if str_eq(self.collections[i].name.as_str(), name) {
                return Some(i);
            }
            i = i + 1;
        }
        None
    }

    /// The index of the view named `name`.
    pub fn find_view(&self, name: &str) -> (r: Option<usize>)
        ensures
            match r {
                Some(i) => view_at(self.views@, name@, i as int),
                None => !has_view(self.views@, name@),
            },
    {
        let mut i: usize = 0;
        while i < self.views.len()
            invariant
                i <= self.views@.len(),
                forall|j: int| 0 <= j < i ==> self.views@[j].name@ != name@,
            decreases self.views@.len() - i,
        {
            if str_eq(self.views[i].name.as_str(), name) {
                return Some(i);
            }
            i = i + 1;
        }
        None
    }

    /// `SELECT`: the collection must have a valid name and exist; the result
    /// is the selected documents, projected.
    pub fn execute_select(&self, stmt: &SelectStmt) -> (r: Result<QueryResult, Error>)
        ensures
            select_outcome(*self, *self, *stmt, r),
    {
        check_identifier(stmt.from.as_str())?;
        match self.find_collection(stmt.from.as_str()) {
            None => Err(Error::CollectionNotFound { name: stmt.from.clone() }),
            Some(ci) => {
                let docs = select_documents(&self.collections[ci].documents, stmt);
                let r = QueryResult::Documents(docs);
                assert(selection_result(self.collections@[ci as int].documents@, *stmt, r));
                assert(selected_from(self.collections@, *stmt, r));
                Ok(r)
            },
        }
    }
}

/// `q` is the result of running `stmt` over the collection it names.
pub open spec fn selected_from(cs: Seq<StoredCollection>, stmt: SelectStmt, q: QueryResult) -> bool {
    exists|ci: int| coll_at(cs, stmt.from@, ci) && #[trigger] selection_result(cs[ci].documents@, stmt, q)
}

/// `q` is the result of running `stmt` over `docs`.
pub open spec fn selection_result(docs: Seq<Document>, stmt: SelectStmt, q: QueryResult) -> bool {
    match q {
        QueryResult::Documents(r) => r@.len() == selected(docs, stmt).len() && forall|k: int|
            0 <= k < r@.len() ==> projected(#[trigger] r@[k], docs[selected(docs, stmt)[k]], stmt.columns@),
        _ => false,
    }
}

} // verus!

verus! {

/// `cols[i]` is the first column named `id`.
pub open spec fn id_col_at(cols: Seq<String>, i: int) -> bool {
    0 <= i < cols.len() && cols[i]@ == "id"@ && forall|j: int| 0 <= j < i ==> cols[j]@ != "id"@
}

/// The id an `INSERT` gives its document: the value of the first `id`
/// column, when there is one and it is a string literal.
pub open spec fn insert_id(stmt: InsertStmt) -> Option<Seq<char>> {
    if exists|i: int| id_col_at(stmt.columns@, i) {
        let i = choose|i: int| id_col_at(stmt.columns@, i);
        if i < stmt.values@.len() && stmt.values@[i] is String {
            Some(stmt.values@[i]->String_0@)
        } else {
            None
        }
    } else {
        None
    }
}

/// The value an `INSERT` gives field `k`, looking at the first `n` columns:
/// the value of the last column named `k` (never `id`) that has one.
pub open spec fn inserted_value(cols: Seq<String>, vals: Seq<Literal>, k: Seq<char>, n: int) -> Option<ValueModel>
    decreases n,
{
    if n <= 0 || n > cols.len() {
        None
    } else if cols[n - 1]@ == k && k != "id"@ && n - 1 < vals.len() {
        Some(vals[n - 1]@)
    } else {
        inserted_value(cols, vals, k, n - 1)
    }
}

/// The documents of the first collection named `name`, none if there is none.
pub open spec fn docs_of(cs: Seq<StoredCollection>, name: Seq<char>) -> Seq<Document> {
    if exists|i: int| coll_at(cs, name, i) {
        cs[choose|i: int| coll_at(cs, name, i)].documents@
    } else {
        Seq::empty()
    }
}

/// The value a `SET` clause assigns, computed on the document before the
/// update: a literal, or the value of a field (null when missing); other
/// expressions assign null.
pub open spec fn set_value(e: Expr, d: Document) -> ValueModel {
    match e {
        Expr::Literal(l) => l@,
        Expr::Column(Column::Field(name)) => match lookup_model(d.fields@, name@) {
            Some(v) => v,
            None => ValueModel::Null,
        },
        _ => ValueModel::Null,
    }
}

/// The value the first `n` `SET` clauses give field `k` of `d`: that of the
/// last clause on `k`, if any.
pub open spec fn assigned(set: Seq<SetClause>, k: Seq<char>, d: Document, n: int) -> Option<ValueModel>
    decreases n,
{
    if n <= 0 || n > set.len() {
        None
    } else if set[n - 1].column@ == k {
        Some(set_value(set[n - 1].value, d))
    } else {
        assigned(set, k, d, n - 1)
    }
}

/// `after` is `before` with the `SET` clauses applied.
pub open spec fn updated_doc(before: Document, after: Document, set: Seq<SetClause>) -> bool {
    &&& after.id@ == before.id@
    &&& after.path@ == before.path@
    &&& after.body@ == before.body@
    &&& forall|k: Seq<char>|
        #[trigger] lookup_model(after.fields@, k) == match assigned(set, k, before, set.len() as int) {
            Some(v) => Some(v),
            None => lookup_model(before.fields@, k),
        }
}

/// The documents that do not pass the filter, in order.
pub open spec fn kept(docs: Seq<Document>, w: Option<Expr>) -> Seq<Document>
    decreases docs.len(),
{
    if docs.len() == 0 {
        Seq::empty()
    } else if passes(w, docs.last()) {
        kept(docs.drop_last(), w)
    } else {
        kept(docs.drop_last(), w).push(docs.last())
    }
}

/// The field type a column type declares.
pub open spec fn converts(dt: DataType, ft: FieldType) -> bool
    decreases dt,
{
    match (dt, ft) {
        (DataType::String, FieldType::String) => true,
        (DataType::Int, FieldType::Int) => true,
        (DataType::Float, FieldType::Float) => true,
        (DataType::Bool, FieldType::Bool) => true,
        (DataType::Date, FieldType::Date) => true,
        (DataType::DateTime, FieldType::DateTime) => true,
        (DataType::Object, FieldType::Object) => true,
        (DataType::Array(a), FieldType::Array(b)) => converts(*a, *b),
        (DataType::Ref(x), FieldType::Ref(y)) => x@ == y@,
        _ => false,
    }
}

/// The first `DEFAULT` among the constraints.
pub open spec fn default_at(cs: Seq<Constraint>, i: int) -> bool {
    0 <= i < cs.len() && cs[i] is Default && forall|j: int| 0 <= j < i ==> !(cs[j] is Default)
}

/// `f` is the field declaration that column definition `c` makes.
pub open spec fn declares(c: crate::ast::ColumnDef, f: FieldDef) -> bool {
    &&& converts(c.data_type, f.field_type)
    &&& f.required == exists|i: int| 0 <= i < c.constraints@.len() && c.constraints@[i] is Required
    &&& f.unique == exists|i: int| 0 <= i < c.constraints@.len() && c.constraints@[i] is Unique
    &&& f.indexed == exists|i: int| 0 <= i < c.constraints@.len() && c.constraints@[i] is Indexed
    &&& match f.default {
        Some(v) => exists|i: int| default_at(c.constraints@, i) && v@ == c.constraints@[i]->Default_0@,
        None => forall|i: int| 0 <= i < c.constraints@.len() ==> !(c.constraints@[i] is Default),
    }
    &&& f.description.is_none()
}

/// `s` is the schema a `CREATE COLLECTION` declares.
pub open spec fn schema_of(stmt: CreateCollectionStmt, s: Schema) -> bool {
    &&& s.name@ == stmt.name@
    &&& s.id_strategy is Manual
    &&& s.fields@.len() == stmt.columns@.len()
    &&& forall|i: int|
        0 <= i < s.fields@.len() ==> (#[trigger] s.fields@[i]).0@ == stmt.columns@[i].name@ && declares(
            stmt.columns@[i],
            s.fields@[i].1,
        )
}

/// `after` is `before` with one more commit, whose message is `msg`.
pub open spec fn committed(before: Database, after: Database, msg: Seq<char>) -> bool {
    after.commits@.len() == before.commits@.len() + 1 && after.commits@.drop_last() == before.commits@
        && after.commits@.last()@ == msg
}

/// The field type column type `dt` declares.
pub fn datatype_to_fieldtype(dt: &DataType) -> (r: FieldType)
    ensures
        converts(*dt, r),
    decreases dt,
{
    match dt {
        DataType::String => FieldType::String,
        DataType::Int => FieldType::Int,
        DataType::Float => FieldType::Float,
        DataType::Bool => FieldType::Bool,
        DataType::Date => FieldType::Date,
        DataType::DateTime => FieldType::DateTime,
        DataType::Object => FieldType::Object,
        DataType::Array(inner) => FieldType::Array(Box::new(datatype_to_fieldtype(inner))),
        DataType::Ref(name) => FieldType::Ref(name.clone()),
    }
}

/// The field declaration a column definition makes.
pub fn column_to_field(c: &crate::ast::ColumnDef) -> (r: FieldDef)
    ensures
        declares(*c, r),
{
    let mut required = false;
    let mut unique = false;
    let mut indexed = false;
    let mut default: Option<Value> = None;
    let mut i: usize = 0;
    while i < c.constraints.len()
        invariant
            i <= c.constraints@.len(),
            required == exists|j: int| 0 <= j < i && c.constraints@[j] is Required,
            unique == exists|j: int| 0 <= j < i && c.constraints@[j] is Unique,
            indexed == exists|j: int| 0 <= j < i && c.constraints@[j] is Indexed,
            match default {
                Some(v) => exists|j: int| 0 <= j < i && default_at(c.constraints@, j) && v@ == c.constraints@[j]->Default_0@,
                None => forall|j: int| 0 <= j < i ==> !(c.constraints@[j] is Default),
            },
        decreases c.constraints@.len() - i,
    {
        match &c.constraints[i] {
            Constraint::Required => { required = true; },
            Constraint::Unique => { unique = true; },
            Constraint::Indexed => { indexed = true; },
            Constraint::Default(l) => {
                if default.is_none() {
                    let v = l.to_value();
                    assert(default_at(c.constraints@, i as int));
                    default = Some(v);
                }
            },
        }
        i = i + 1;
    }
    FieldDef { field_type: datatype_to_fieldtype(&c.data_type), required, default, description: None, indexed, unique }
}

/// The value a `SET` clause assigns (see [`set_value`]).
pub fn evaluate_set_value(e: &Expr, d: &Document) -> (r: Value)
    ensures
        r@ == set_value(*e, *d),
{
    match e {
        Expr::Literal(l) => l.to_value(),
        Expr::Column(Column::Field(name)) => match d.get(name.as_str()) {
            Some(v) => v.copy(),
            None => Value::Null,
        },
        _ => Value::Null,
    }
}

/// `text` followed by `name`.
fn message(text: &str, name: &str) -> (r: String)
    ensures
        r@ == text@ + name@,
{
    let mut m = String::new();
    push_text(&mut m, text);
    push_text(&mut m, name);
    assert(m@ =~= text@ + name@);
    m
}

/// `<text><name>: <n> document(s)`.
fn count_message(text: &str, name: &str, n: usize) -> (r: String)
    ensures
        r@ == text@ + name@ + ": "@ + crate::text::nat_text(n as nat) + " document(s)"@,
{
    let mut m = String::new();
    push_text(&mut m, text);
    push_text(&mut m, name);
    push_text(&mut m, ": ");
    push_nat_text(&mut m, n as u128);
    push_text(&mut m, " document(s)");
    assert(m@ =~= text@ + name@ + ": "@ + crate::text::nat_text(n as nat) + " document(s)"@);
    m
}

} // verus!

verus! {

impl Database {
    /// `INSERT`: needs a valid collection name and a string `id` column that
    /// is a valid identifier; builds the document from the other columns,
    /// checks it against the collection's schema if one is registered, and
    /// adds it unless the collection already holds that id. The collection is
    /// created when it does not exist. On any error nothing changes.
    #[verifier::rlimit(60)]
    pub fn execute_insert(&mut self, stmt: InsertStmt) -> (r: Result<QueryResult, Error>)
        ensures
            insert_outcome(*old(self), *final(self), stmt, r),
    {
        check_identifier(stmt.into.as_str())?;
        let ghost g = stmt;
        let mut idi: Option<usize> = None;
        let mut i: usize = 0;
        while i < stmt.columns.len()
            invariant
                i <= stmt.columns@.len(),
                idi is None ==> forall|j: int| 0 <= j < i ==> stmt.columns@[j]@ != "id"@,
                idi matches Some(x) ==> id_col_at(stmt.columns@, x as int),
            decreases stmt.columns@.len() - i,
        {
            if idi.is_none() && str_eq(stmt.columns[i].as_str(), "id") {
                idi = Some(i);
            }
            i = i + 1;
        }
        proof {
            if let Some(x) = idi {
                let c = choose|c: int| id_col_at(stmt.columns@, c);
                assert(c == x) by { if c < x {} else if c > x {} };
            }
        }
        let id: String = match idi {
            Some(x) => {
                if x < stmt.values.len() {
                    match &stmt.values[x] {
                        Literal::String(s) => s.clone(),
                        _ => return Err(Error::MissingDocumentId),
                    }
                } else {
                    return Err(Error::MissingDocumentId);
                }
            },
            None => return Err(Error::MissingDocumentId),
        };
        match validate_document_id(id.as_str()) {
            Ok(()) => {},
            Err(v) => {
                let ghost gv = v;
                let e = Error::from_identifier(v);
                assert(identifier_error(e, gv));
                return Err(e);
            },
        }
        let mut doc = Document::new(id.as_str());
        let n = stmt.columns.len();
        let mut k: usize = 0;
        while k < n
            invariant
                n == stmt.columns@.len(),
                k <= n,
                doc.id@ == id@,
                doc.path@ == crate::document::doc_path(id@),
                doc.body@.len() == 0,
                forall|key: Seq<char>|
                    #[trigger] lookup_model(doc.fields@, key) == inserted_value(stmt.columns@, stmt.values@, key, k as int),
            decreases n - k,
        {
            let ghost before = doc.fields@;
            if !str_eq(stmt.columns[k].as_str(), "id") && k < stmt.values.len() {
                let v = stmt.values[k].to_value();
                doc.set(stmt.columns[k].as_str(), v);
            }
            proof {
                assert forall|key: Seq<char>| #[trigger] lookup_model(doc.fields@, key) == inserted_value(
                    stmt.columns@,
                    stmt.values@,
                    key,
                    k + 1,
                ) by {
                    assert(lookup_model(before, key) == inserted_value(stmt.columns@, stmt.values@, key, k as int));
                }
            }
            k = k + 1;
        }
        let InsertStmt { into, columns: _, values: _, body } = stmt;
        match body {
            Some(b) => { doc.body = b; },
            None => {},
        }
        match self.schema.get(into.as_str()) {
            Some(schema) => {
                let ghost sch = *schema;
                proof {
                    let t = choose|t: int| schema_at(self.schema.entries(), into@, t) && self.schema.entries()[t] == *schema;
                    assert forall|si: int| schema_at(self.schema.schemas@, into@, si) implies self.schema.schemas@[si] == sch by {
                        assert(t == si) by { if t < si {} else if t > si {} };
                    }
                }
                match schema.validate(&doc) {
                    Ok(()) => {
                        proof {
                            lemma_accepted_from_fields(sch.fields@, doc.fields@, g);
                            assert forall|si: int| schema_at(self.schema.schemas@, into@, si) implies forall|i: int|
                                !missing_at(self.schema.schemas@[si].fields@, doc.fields@, i) && !mistyped_at(
                                    self.schema.schemas@[si].fields@,
                                    doc.fields@,
                                    i,
                                ) by {
                                let t = choose|t: int| schema_at(self.schema.entries(), into@, t) && self.schema.entries()[t] == *schema;
                                assert(t == si) by { if t < si {} else if t > si {} };
                            }
                        }
                    },
                    Err(v) => {
                        let ghost gv = v;
                        let e = match v {
                            crate::schema::ValidationError::MissingRequired(field) => Error::MissingRequiredField {
                                collection: into.clone(),
                                field,
                            },
                            other => Error::from_schema(other),
                        };
                        proof {
                            lemma_rejected_from_fields(sch.fields@, doc.fields@, g, gv);
                            lemma_schema_error(sch.fields@, doc.fields@, g, gv, e);
                            let t = choose|t: int| schema_at(self.schema.entries(), into@, t) && self.schema.entries()[t] == *schema;
                            assert(schema_rejects(old(self).schema, g));
                            assert(schema_at(old(self).schema.schemas@, g.into@, t) && schema_error(old(self).schema.schemas@[t].fields@, g, e));
                        }
                        return Err(e);
                    },
                }
            },
            None => {},
        }
        assert(!schema_rejects(old(self).schema, g));
        let ghost fields_ok = forall|si: int| schema_at(self.schema.schemas@, into@, si) ==> forall|i: int|
            !missing_at(self.schema.schemas@[si].fields@, doc.fields@, i) && !mistyped_at(
                self.schema.schemas@[si].fields@,
                doc.fields@,
                i,
            );
        assert(fields_ok);
        let ci = self.find_collection(into.as_str());
        proof {
            if let Some(c0) = ci {
                let c = choose|c: int| coll_at(self.collections@, into@, c);
                assert(c == c0) by { if c < c0 {} else if c > c0 {} };
                assert(docs_of(self.collections@, into@) == self.collections@[c0 as int].documents@);
            } else {
                assert(!exists|c: int| coll_at(self.collections@, into@, c));
                assert(docs_of(self.collections@, into@) == Seq::<Document>::empty());
            }
        }
        let ghost before_docs = docs_of(self.collections@, into@);
        if let Some(ci) = ci {
            if let Some(j) = position_of_id(&self.collections[ci].documents, &doc.id) {
                assert(docs_of(old(self).collections@, g.into@)[j as int].id@ == id@);
                assert(id_taken(old(self).collections@, g));
                return Err(Error::DocumentAlreadyExists { collection: into, id });
            }
        }
        let msg = {
            let mut m = String::new();
            push_text(&mut m, "INSERT into ");
            push_text(&mut m, into.as_str());
            push_text(&mut m, ": ");
            push_text(&mut m, id.as_str());
            assert(m@ =~= "INSERT into "@ + into@ + ": "@ + id@);
            m
        };
        let ghost newdoc = doc;
        let ghost cs0 = self.collections@;
        match ci {
            Some(ci) => {
                let mut coll = self.collections.remove(ci);
                coll.documents.push(doc);
                self.collections.insert(ci, coll);
                proof {
                    assert(coll_at(self.collections@, into@, ci as int)) by {
                        assert forall|j: int| 0 <= j < ci implies self.collections@[j].name@ != into@ by {
                            assert(self.collections@[j] == cs0[j]);
                        }
                    }
                    let c = choose|c: int| coll_at(self.collections@, into@, c);
                    assert(c == ci) by { if c < ci {} else if c > ci {} };
                    assert(docs_of(self.collections@, into@) == before_docs.push(newdoc));
                    assert(coll_at(cs0, into@, ci as int));
                    assert forall|j: int| 0 <= j < cs0.len() && j != ci implies self.collections@[j] == cs0[j] by {}
                    assert(has_collection(cs0, into@));
                }
            },
            None => {
                let mut documents: Vec<Document> = Vec::new();
                documents.push(doc);
                self.collections.push(StoredCollection { name: into.clone(), documents });
                proof {
                    let n0 = cs0.len() as int;
                    assert(coll_at(self.collections@, into@, n0)) by {
                        assert forall|j: int| 0 <= j < n0 implies self.collections@[j].name@ != into@ by {
                            assert(self.collections@[j] == cs0[j]);
                        }
                    }
                    let c = choose|c: int| coll_at(self.collections@, into@, c);
                    assert(c == n0) by { if c < n0 {} else if c > n0 {} };
                    assert(docs_of(self.collections@, into@) =~= before_docs.push(newdoc));
                    assert(self.collections@.drop_last() =~= cs0);
                    assert(!has_collection(cs0, into@));
                }
            },
        }
        self.commits.push(msg);
        proof {
            assert(docs_of(self.collections@, into@).drop_last() =~= before_docs);
            assert(self.commits@.drop_last() =~= old(self).commits@);
            assert(into@ == g.into@);
            assert(insert_id(g) == Some(id@));
            assert(docs_of(self.collections@, into@).last() == newdoc);
            assert(self.schema == old(self).schema);
            assert(self.views == old(self).views);
            assert(committed(*old(self), *self, "INSERT into "@ + g.into@ + ": "@ + insert_id(g)->Some_0));
            assert(newdoc.body@ == match g.body { Some(b) => b@, None => Seq::empty() });
        }
        Ok(QueryResult::Affected(1))
    }
}

/// The index of the first document with identifier `id`.
pub fn position_of_id(docs: &Vec<Document>, id: &String) -> (r: Option<usize>)
    ensures
        match r {
            Some(j) => j < docs@.len() && docs@[j as int].id@ == id@,
            None => forall|t: int| 0 <= t < docs@.len() ==> docs@[t].id@ != id@,
        },
{
    let mut j: usize = 0;
    while j < docs.len()
        invariant
            j <= docs@.len(),
            forall|t: int| 0 <= t < j ==> docs@[t].id@ != id@,
        decreases docs@.len() - j,
    {
        if docs[j].id == *id {
            return Some(j);
        }
        j = j + 1;
    }
    None
}

/// `after` is `before` with the document of `stmt` added at the end of its
/// collection (created if missing), and a commit recorded.
pub open spec fn inserted(before: Database, after: Database, stmt: InsertStmt) -> bool {
    &&& identifier_fault(stmt.into@) is None
    &&& insert_id(stmt) is Some
    &&& identifier_fault(insert_id(stmt)->Some_0) is None
    &&& docs_of(after.collections@, stmt.into@).len() == docs_of(before.collections@, stmt.into@).len() + 1
    &&& docs_of(after.collections@, stmt.into@).drop_last() == docs_of(before.collections@, stmt.into@)
    &&& forall|j: int|
        0 <= j < docs_of(before.collections@, stmt.into@).len() ==> (#[trigger] docs_of(before.collections@, stmt.into@)[j]).id@
            != insert_id(stmt)->Some_0
    &&& {
        let d = docs_of(after.collections@, stmt.into@).last();
        &&& d.id@ == insert_id(stmt)->Some_0
        &&& d.path@ == crate::document::doc_path(insert_id(stmt)->Some_0)
        &&& d.body@ == match stmt.body { Some(b) => b@, None => Seq::empty() }
        &&& forall|k: Seq<char>|
            #[trigger] lookup_model(d.fields@, k) == inserted_value(stmt.columns@, stmt.values@, k, stmt.columns@.len() as int)
        &&& forall|si: int|
            schema_at(before.schema.schemas@, stmt.into@, si) ==> forall|i: int|
                !missing_at(before.schema.schemas@[si].fields@, d.fields@, i) && !mistyped_at(
                    before.schema.schemas@[si].fields@,
                    d.fields@,
                    i,
                )
    }
    &&& (has_collection(before.collections@, stmt.into@) ==> exists|ci: int|
        #[trigger] coll_at(before.collections@, stmt.into@, ci) && coll_at(after.collections@, stmt.into@, ci)
            && after.collections@.len() == before.collections@.len() && forall|j: int|
            0 <= j < before.collections@.len() && j != ci ==> after.collections@[j] == before.collections@[j])
    &&& (!has_collection(before.collections@, stmt.into@) ==> after.collections@.len() == before.collections@.len() + 1
        && after.collections@.drop_last() == before.collections@)
    &&& after.schema == before.schema
    &&& after.views == before.views
    &&& committed(before, after, "INSERT into "@ + stmt.into@ + ": "@ + insert_id(stmt)->Some_0)
}

} // verus!

verus! {

/// `after` holds the documents of `before` with those that pass `w` updated
/// by `set`; the others are the same values.
pub open spec fn updated_docs(before: Seq<Document>, after: Seq<Document>, w: Option<Expr>, set: Seq<SetClause>) -> bool {
    &&& after.len() == before.len()
    &&& forall|i: int|
        0 <= i < before.len() ==> if passes(w, #[trigger] before[i]) {
            updated_doc(before[i], after[i], set)
        } else {
            after[i] == before[i]
        }
}

/// What `UPDATE` does: on success, the named collection's documents are
/// updated in place, the others untouched, and the count of matching
/// documents is returned (with a commit when it is not zero).
pub open spec fn update_outcome(before: Database, after: Database, stmt: UpdateStmt, r: Result<QueryResult, Error>) -> bool {
    &&& r is Err ==> after == before
    &&& identifier_fault(stmt.collection@) is Some ==> r is Err && name_rejected(stmt.collection@, r->Err_0)
    &&& identifier_fault(stmt.collection@) is None && !has_collection(before.collections@, stmt.collection@) ==> (r matches Err(
        Error::CollectionNotFound { name },
    ) && name@ == stmt.collection@)
    &&& identifier_fault(stmt.collection@) is None && has_collection(before.collections@, stmt.collection@) ==> r is Ok
    &&& r is Ok ==> exists|ci: int| #[trigger] coll_at(before.collections@, stmt.collection@, ci) && {
        let n = matching(before.collections@[ci].documents@, stmt.where_clause).len();
        &&& r == Ok::<QueryResult, Error>(QueryResult::Affected(n as usize))
        &&& after.collections@.len() == before.collections@.len()
        &&& forall|j: int| 0 <= j < before.collections@.len() && j != ci ==> after.collections@[j] == before.collections@[j]
        &&& after.collections@[ci].name == before.collections@[ci].name
        &&& updated_docs(before.collections@[ci].documents@, after.collections@[ci].documents@, stmt.where_clause, stmt.set@)
        &&& after.schema == before.schema && after.views == before.views
        &&& if n > 0 {
            committed(before, after, "UPDATE "@ + stmt.collection@ + ": "@ + crate::text::nat_text(n as nat) + " document(s)"@)
        } else {
            after.commits == before.commits
        }
    }
}

/// What `DELETE` does: on success, the named collection keeps only the
/// documents that do not match, and the count removed is returned.
pub open spec fn delete_outcome(before: Database, after: Database, stmt: DeleteStmt, r: Result<QueryResult, Error>) -> bool {
    &&& r is Err ==> after == before
    &&& identifier_fault(stmt.from@) is Some ==> r is Err && name_rejected(stmt.from@, r->Err_0)
    &&& identifier_fault(stmt.from@) is None && !has_collection(before.collections@, stmt.from@) ==> (r matches Err(
        Error::CollectionNotFound { name },
    ) && name@ == stmt.from@)
    &&& identifier_fault(stmt.from@) is None && has_collection(before.collections@, stmt.from@) ==> r is Ok
    &&& r is Ok ==> exists|ci: int| #[trigger] coll_at(before.collections@, stmt.from@, ci) && {
        let n = matching(before.collections@[ci].documents@, stmt.where_clause).len();
        &&& r == Ok::<QueryResult, Error>(QueryResult::Affected(n as usize))
        &&& after.collections@.len() == before.collections@.len()
        &&& forall|j: int| 0 <= j < before.collections@.len() && j != ci ==> after.collections@[j] == before.collections@[j]
        &&& after.collections@[ci].name == before.collections@[ci].name
        &&& after.collections@[ci].documents@ == kept(before.collections@[ci].documents@, stmt.where_clause)
        &&& after.schema == before.schema && after.views == before.views
        &&& if n > 0 {
            committed(before, after, "DELETE from "@ + stmt.from@ + ": "@ + crate::text::nat_text(n as nat) + " document(s)"@)
        } else {
            after.commits == before.commits
        }
    }
}

/// `d` updated by the `SET` clauses, each value computed on `d` as it was.
pub fn apply_set(d: &Document, set: &Vec<SetClause>) -> (r: Document)
    ensures
        updated_doc(*d, r, set@),
{
    let mut vals: Vec<Value> = Vec::new();
    let mut j: usize = 0;
    while j < set.len()
        invariant
            j <= set@.len(),
            vals@.len() == j,
            forall|t: int| 0 <= t < j ==> (#[trigger] vals@[t])@ == set_value(set@[t].value, *d),
        decreases set@.len() - j,
    {
        vals.push(evaluate_set_value(&set[j].value, d));
        j = j + 1;
    }
    let mut out = d.copy();
    proof {
        assert forall|k: Seq<char>| #[trigger] lookup_model(out.fields@, k) == lookup_model(d.fields@, k) by {
            crate::document::lemma_same_fields_lookup(out.fields@, d.fields@, k);
        }
    }
    let mut vals = vals;
    let mut t: usize = 0;
    while t < set.len()
        invariant
            t <= set@.len(),
            vals@.len() == set@.len(),
            forall|x: int| t <= x < set@.len() ==> (#[trigger] vals@[x])@ == set_value(set@[x].value, *d),
            out.id@ == d.id@,
            out.path@ == d.path@,
            out.body@ == d.body@,
            forall|k: Seq<char>|
                #[trigger] lookup_model(out.fields@, k) == match assigned(set@, k, *d, t as int) {
                    Some(v) => Some(v),
                    None => lookup_model(d.fields@, k),
                },
        decreases set@.len() - t,
    {
        let v = vals.remove(t);
        let ghost before = out.fields@;
        let ghost vm = v@;
        assert(vm == set_value(set@[t as int].value, *d));
        out.set(set[t].column.as_str(), v);
        vals.insert(t, Value::Null);
        t = t + 1;
    }
    out
}

impl Database {
    /// `UPDATE` (see [`update_outcome`]).
    pub fn execute_update(&mut self, stmt: UpdateStmt) -> (r: Result<QueryResult, Error>)
        ensures
            update_outcome(*old(self), *final(self), stmt, r),
    {
        check_identifier(stmt.collection.as_str())?;
        let ci = match self.find_collection(stmt.collection.as_str()) {
            Some(ci) => ci,
            None => return Err(Error::CollectionNotFound { name: stmt.collection.clone() }),
        };
        let ghost cs0 = self.collections@;
        let ghost orig = self.collections@[ci as int].documents@;
        let mut coll = self.collections.remove(ci);
        let n = coll.documents.len();
        let mut count: usize = 0;
        let mut i: usize = 0;
        while i < n
            invariant
                n == orig.len(),
                i <= n,
                coll.documents@.len() == n,
                coll.name == cs0[ci as int].name,
                count <= i,
                count == matching(orig.subrange(0, i as int), stmt.where_clause).len(),
                forall|t: int| i <= t < n ==> coll.documents@[t] == orig[t],
                forall|t: int| 0 <= t < i ==> if passes(stmt.where_clause, #[trigger] orig[t]) {
                    updated_doc(orig[t], coll.documents@[t], stmt.set@)
                } else {
                    coll.documents@[t] == orig[t]
                },
            decreases n - i,
        {
            let hit = match &stmt.where_clause {
                Some(e) => crate::filter::evaluate(e, &coll.documents[i]),
                None => true,
            };
            proof {
                let next = orig.subrange(0, i + 1);
                assert(next.drop_last() =~= orig.subrange(0, i as int));
                assert(next.last() == orig[i as int]);
            }
            if hit {
                let d = apply_set(&coll.documents[i], &stmt.set);
                coll.documents.set(i, d);
                count = count + 1;
            }
            i = i + 1;
        }
        assert(orig.subrange(0, n as int) =~= orig);
        self.collections.insert(ci, coll);
        if count > 0 {
            let msg = count_message("UPDATE ", stmt.collection.as_str(), count);
            self.commits.push(msg);
            assert(self.commits@.drop_last() =~= old(self).commits@);
        }
        proof {
            assert(coll_at(old(self).collections@, stmt.collection@, ci as int));
            assert forall|j: int| 0 <= j < cs0.len() && j != ci implies self.collections@[j] == cs0[j] by {}
        }
        Ok(QueryResult::Affected(count))
    }

    /// `DELETE` (see [`delete_outcome`]).
    #[verifier::rlimit(60)]
    pub fn execute_delete(&mut self, stmt: DeleteStmt) -> (r: Result<QueryResult, Error>)
        ensures
            delete_outcome(*old(self), *final(self), stmt, r),
    {
        check_identifier(stmt.from.as_str())?;
        let ci = match self.find_collection(stmt.from.as_str()) {
            Some(ci) => ci,
            None => return Err(Error::CollectionNotFound { name: stmt.from.clone() }),
        };
        let ghost cs0 = self.collections@;
        let ghost orig = self.collections@[ci as int].documents@;
        let mut coll = self.collections.remove(ci);
        let n = coll.documents.len();
        let mut i: usize = 0;
        let mut j: usize = 0;
        while j < n
            invariant
                n == orig.len(),
                j <= n,
                i <= j,
                coll.name == cs0[ci as int].name,
                coll.documents@ == kept(orig.subrange(0, j as int), stmt.where_clause) + orig.subrange(j as int, n as int),
                i == kept(orig.subrange(0, j as int), stmt.where_clause).len(),
                kept(orig.subrange(0, j as int), stmt.where_clause).len() + matching(orig.subrange(0, j as int), stmt.where_clause).len() == j,
            decreases n - j,
        {
            proof {
                let next = orig.subrange(0, j + 1);
                assert(next.drop_last() =~= orig.subrange(0, j as int));
                assert(next.last() == orig[j as int]);
                assert(coll.documents@[i as int] == orig[j as int]);
            }
            let hit = match &stmt.where_clause {
                Some(e) => crate::filter::evaluate(e, &coll.documents[i]),
                None => true,
            };
            let ghost k0 = kept(orig.subrange(0, j as int), stmt.where_clause);
            if hit {
                coll.documents.remove(i);
                assert(coll.documents@ =~= kept(orig.subrange(0, j + 1), stmt.where_clause) + orig.subrange(j + 1, n as int));
            } else {
                assert(coll.documents@ =~= kept(orig.subrange(0, j + 1), stmt.where_clause) + orig.subrange(j + 1, n as int));
                i = i + 1;
            }
            j = j + 1;
        }
        assert(orig.subrange(0, n as int) =~= orig);
        assert(coll.documents@ =~= kept(orig, stmt.where_clause));
        let count = n - i;
        self.collections.insert(ci, coll);
        if count > 0 {
            let msg = count_message("DELETE from ", stmt.from.as_str(), count);
            self.commits.push(msg);
            assert(self.commits@.drop_last() =~= old(self).commits@);
        }
        proof {
            assert(coll_at(old(self).collections@, stmt.from@, ci as int));
            assert forall|x: int| 0 <= x < cs0.len() && x != ci implies self.collections@[x] == cs0[x] by {}
        }
        Ok(QueryResult::Affected(count))
    }
}

} // verus!

verus! {

/// The registry holds, under the collection's name, the schema `stmt` declares.
pub open spec fn registered(reg: SchemaRegistry, stmt: CreateCollectionStmt) -> bool {
    exists|si: int| schema_at(reg.schemas@, stmt.name@, si) && #[trigger] schema_of(stmt, reg.schemas@[si])
}

/// What `CREATE COLLECTION` does.
pub open spec fn create_collection_outcome(
    before: Database,
    after: Database,
    stmt: CreateCollectionStmt,
    r: Result<QueryResult, Error>,
) -> bool {
    &&& r is Err ==> after == before
    &&& identifier_fault(stmt.name@) is Some ==> r is Err && name_rejected(stmt.name@, r->Err_0)
    &&& identifier_fault(stmt.name@) is None && has_collection(before.collections@, stmt.name@) ==> if stmt.if_not_exists {
        (r matches Ok(QueryResult::CollectionCreated(n)) && n@ == stmt.name@) && after == before
    } else {
        r matches Err(Error::CollectionAlreadyExists { name }) && name@ == stmt.name@
    }
    &&& identifier_fault(stmt.name@) is None && !has_collection(before.collections@, stmt.name@) ==> {
        &&& r matches Ok(QueryResult::CollectionCreated(n)) && n@ == stmt.name@
        &&& after.collections@.len() == before.collections@.len() + 1
        &&& after.collections@.drop_last() == before.collections@
        &&& after.collections@.last().name@ == stmt.name@
        &&& after.collections@.last().documents@.len() == 0
        &&& after.views == before.views
        &&& if stmt.columns@.len() == 0 {
            after.schema == before.schema
        } else {
            &&& registered(after.schema, stmt)
            &&& forall|n: Seq<char>, i: int|
                n != stmt.name@ && schema_at(before.schema.schemas@, n, i) ==> schema_at(after.schema.schemas@, n, i)
                    && after.schema.schemas@[i] == before.schema.schemas@[i]
        }
        &&& committed(before, after, "CREATE COLLECTION "@ + stmt.name@)
    }
}

/// What `CREATE VIEW` does.
pub open spec fn create_view_outcome(before: Database, after: Database, stmt: CreateViewStmt, r: Result<QueryResult, Error>) -> bool {
    &&& r is Err ==> after == before
    &&& identifier_fault(stmt.name@) is Some ==> r is Err && name_rejected(stmt.name@, r->Err_0)
    &&& identifier_fault(stmt.name@) is None && identifier_fault(stmt.query.from@) is Some ==> r is Err && name_rejected(
        stmt.query.from@,
        r->Err_0,
    )
    &&& identifier_fault(stmt.name@) is None && identifier_fault(stmt.query.from@) is None && (stmt.template matches Some(t)
        && template_fault(t@) is Some) ==> r is Err && template_rejected(stmt.template->Some_0@, r->Err_0)
    &&& r is Ok ==> {
        &&& identifier_fault(stmt.name@) is None
        &&& identifier_fault(stmt.query.from@) is None
        &&& (stmt.if_not_exists || !has_view(before.views@, stmt.name@))
        &&& (r matches Ok(QueryResult::ViewCreated(n)) && n@ == stmt.name@)
        &&& exists|vi: int| #[trigger] view_at(after.views@, stmt.name@, vi) && after.views@[vi].query == *stmt.query && match stmt.template {
            Some(t) => after.views@[vi].template matches Some(u) && u@ == t@,
            None => after.views@[vi].template is None,
        }
        &&& after.collections == before.collections && after.schema == before.schema
        &&& committed(before, after, "CREATE VIEW "@ + stmt.name@)
    }
    &&& identifier_fault(stmt.name@) is None && identifier_fault(stmt.query.from@) is None && (match stmt.template {
        Some(t) => template_fault(t@) is None,
        None => true,
    }) ==> (r is Ok <==> (stmt.if_not_exists || !has_view(before.views@, stmt.name@)))
}

/// What `DROP COLLECTION` does.
pub open spec fn drop_collection_outcome(before: Database, after: Database, name: String, r: Result<QueryResult, Error>) -> bool {
    &&& r is Err ==> after == before
    &&& identifier_fault(name@) is Some ==> r is Err && name_rejected(name@, r->Err_0)
    &&& identifier_fault(name@) is None && !has_collection(before.collections@, name@) ==> (r matches Err(
        Error::CollectionNotFound { name: n },
    ) && n@ == name@)
    &&& identifier_fault(name@) is None && has_collection(before.collections@, name@) ==> exists|ci: int|
        #[trigger] coll_at(before.collections@, name@, ci) && r == Ok::<QueryResult, Error>(QueryResult::Affected(1))
            && after.collections@ == before.collections@.remove(ci) && after.schema == before.schema && after.views
            == before.views && committed(before, after, "DROP COLLECTION "@ + name@)
}

/// What `DROP VIEW` does.
pub open spec fn drop_view_outcome(before: Database, after: Database, name: String, r: Result<QueryResult, Error>) -> bool {
    &&& r is Err ==> after == before
    &&& identifier_fault(name@) is Some ==> r is Err && name_rejected(name@, r->Err_0)
    &&& identifier_fault(name@) is None && !has_view(before.views@, name@) ==> (r matches Err(Error::ViewNotFound { name: n })
        && n@ == name@)
    &&& identifier_fault(name@) is None && has_view(before.views@, name@) ==> exists|vi: int|
        #[trigger] view_at(before.views@, name@, vi) && r == Ok::<QueryResult, Error>(QueryResult::Affected(1))
            && after.views@ == before.views@.remove(vi) && after.schema == before.schema && after.collections
            == before.collections && committed(before, after, "DROP VIEW "@ + name@)
}

/// Checks `name` against the identifier rules, for a view.
fn check_view_name(name: &str) -> (r: Result<(), Error>)
    ensures
        r is Ok == (identifier_fault(name@) is None),
        r is Err ==> name_rejected(name@, r->Err_0),
{
    match validate_view_name(name) {
        Ok(()) => Ok(()),
        Err(v) => {
            let ghost gv = v;
            let e = Error::from_identifier(v);
            assert(identifier_error(e, gv));
            Err(e)
        },
    }
}

impl Database {
    /// `CREATE COLLECTION` (see [`create_collection_outcome`]).
    pub fn execute_create_collection(&mut self, stmt: CreateCollectionStmt) -> (r: Result<QueryResult, Error>)
        ensures
            create_collection_outcome(*old(self), *final(self), stmt, r),
    {
        check_identifier(stmt.name.as_str())?;
        if self.find_collection(stmt.name.as_str()).is_some() {
            if stmt.if_not_exists {
                return Ok(QueryResult::CollectionCreated(stmt.name.clone()));
            }
            return Err(Error::CollectionAlreadyExists { name: stmt.name.clone() });
        }
        self.collections.push(StoredCollection { name: stmt.name.clone(), documents: Vec::new() });
        if stmt.columns.len() > 0 {
            let mut schema = Schema::new(stmt.name.as_str());
            let mut i: usize = 0;
            while i < stmt.columns.len()
                invariant
                    i <= stmt.columns@.len(),
                    schema.name@ == stmt.name@,
                    schema.id_strategy is Manual,
                    schema.fields@.len() == i,
                    forall|t: int|
                        0 <= t < i ==> (#[trigger] schema.fields@[t]).0@ == stmt.columns@[t].name@ && declares(
                            stmt.columns@[t],
                            schema.fields@[t].1,
                        ),
                decreases stmt.columns@.len() - i,
            {
                let f = column_to_field(&stmt.columns[i]);
                schema.fields.push((stmt.columns[i].name.clone(), f));
                i = i + 1;
            }
            let ghost gs = schema;
            assert(schema_of(stmt, gs));
            self.schema.register(schema);
            proof {
                let si = choose|si: int| schema_at(self.schema.entries(), gs.name@, si) && self.schema.entries()[si] == gs;
                assert(schema_at(self.schema.schemas@, stmt.name@, si) && schema_of(stmt, self.schema.schemas@[si]));
                assert(registered(self.schema, stmt));
                assert forall|n: Seq<char>, i: int| n != stmt.name@ && schema_at(old(self).schema.schemas@, n, i) implies schema_at(
                    self.schema.schemas@,
                    n,
                    i,
                ) && self.schema.schemas@[i] == old(self).schema.schemas@[i] by {
                    assert(schema_at(old(self).schema.entries(), n, i));
                }
            }
        }
        let msg = message("CREATE COLLECTION ", stmt.name.as_str());
        self.commits.push(msg);
        assert(self.commits@.drop_last() =~= old(self).commits@);
        assert(self.collections@.drop_last() =~= old(self).collections@);
        assert(self.collections@.last().name@ == stmt.name@);
        assert(self.views == old(self).views);
        assert(!has_collection(old(self).collections@, stmt.name@));
        assert(committed(*old(self), *self, "CREATE COLLECTION "@ + stmt.name@));
        Ok(QueryResult::CollectionCreated(stmt.name.clone()))
    }

    /// `CREATE VIEW` (see [`create_view_outcome`]).
    pub fn execute_create_view(&mut self, stmt: CreateViewStmt) -> (r: Result<QueryResult, Error>)
        ensures
            create_view_outcome(*old(self), *final(self), stmt, r),
    {
        check_view_name(stmt.name.as_str())?;
        check_identifier(stmt.query.from.as_str())?;
        match &stmt.template {
            Some(t) => match validate_template_name(t.as_str()) {
                Ok(()) => {},
                Err(v) => {
                    let ghost gv = v;
                    let e = Error::from_identifier(v);
                    assert(identifier_error(e, gv));
                    return Err(e);
                },
            },
            None => {},
        }
        let existing = self.find_view(stmt.name.as_str());
        if existing.is_some() && !stmt.if_not_exists {
            return Err(Error::ViewAlreadyExists { name: stmt.name.clone() });
        }
        let CreateViewStmt { name, query, template, if_not_exists: _ } = stmt;
        let formats = vec![crate::views::OutputFormat::Html, crate::views::OutputFormat::Json];
        let view = View { name: name.clone(), query: *query, template, formats };
        let ghost vs0 = self.views@;
        match existing {
            Some(vi) => {
                self.views.set(vi, view);
                proof {
                    assert(view_at(self.views@, name@, vi as int)) by {
                        assert forall|j: int| 0 <= j < vi implies self.views@[j].name@ != name@ by {
                            assert(self.views@[j] == vs0[j]);
                        }
                    }
                }
            },
            None => {
                self.views.push(view);
                proof {
                    let n0 = vs0.len() as int;
                    assert(view_at(self.views@, name@, n0)) by {
                        assert forall|j: int| 0 <= j < n0 implies self.views@[j].name@ != name@ by {
                            assert(self.views@[j] == vs0[j]);
                        }
                    }
                }
            },
        }
        let msg = message("CREATE VIEW ", name.as_str());
        self.commits.push(msg);
        assert(self.commits@.drop_last() =~= old(self).commits@);
        Ok(QueryResult::ViewCreated(name))
    }

    /// `DROP COLLECTION` (see [`drop_collection_outcome`]).
    pub fn execute_drop_collection(&mut self, name: String) -> (r: Result<QueryResult, Error>)
        ensures
            drop_collection_outcome(*old(self), *final(self), name, r),
    {
        check_identifier(name.as_str())?;
        let ci = match self.find_collection(name.as_str()) {
            Some(ci) => ci,
            None => return Err(Error::CollectionNotFound { name }),
        };
        self.collections.remove(ci);
        let msg = message("DROP COLLECTION ", name.as_str());
        self.commits.push(msg);
        assert(self.commits@.drop_last() =~= old(self).commits@);
        assert(coll_at(old(self).collections@, name@, ci as int));
        Ok(QueryResult::Affected(1))
    }

    /// `DROP VIEW` (see [`drop_view_outcome`]).
    pub fn execute_drop_view(&mut self, name: String) -> (r: Result<QueryResult, Error>)
        ensures
            drop_view_outcome(*old(self), *final(self), name, r),
    {
        check_view_name(name.as_str())?;
        let vi = match self.find_view(name.as_str()) {
            Some(vi) => vi,
            None => return Err(Error::ViewNotFound { name }),
        };
        self.views.remove(vi);
        let msg = message("DROP VIEW ", name.as_str());
        self.commits.push(msg);
        assert(self.commits@.drop_last() =~= old(self).commits@);
        assert(view_at(old(self).views@, name@, vi as int));
        Ok(QueryResult::Affected(1))
    }
}

} // verus!

verus! {

/// What `SELECT` does: nothing changes; see [`Database::execute_select`].
pub open spec fn select_outcome(before: Database, after: Database, stmt: SelectStmt, r: Result<QueryResult, Error>) -> bool {
    &&& after == before
    &&& identifier_fault(stmt.from@) is Some ==> r is Err && name_rejected(stmt.from@, r->Err_0)
    &&& identifier_fault(stmt.from@) is None && !has_collection(before.collections@, stmt.from@) ==> (r matches Err(
        Error::CollectionNotFound { name },
    ) && name@ == stmt.from@)
    &&& identifier_fault(stmt.from@) is None && has_collection(before.collections@, stmt.from@) ==> r is Ok
    &&& r is Ok ==> selected_from(before.collections@, stmt, r->Ok_0)
}

/// What executing `stmt` does, by kind of statement.
pub open spec fn statement_outcome(before: Database, after: Database, stmt: Statement, r: Result<QueryResult, Error>) -> bool {
    match stmt {
        Statement::Select(s) => select_outcome(before, after, s, r),
        Statement::Insert(s) => insert_outcome(before, after, s, r),
        Statement::Update(s) => update_outcome(before, after, s, r),
        Statement::Delete(s) => delete_outcome(before, after, s, r),
        Statement::CreateCollection(s) => create_collection_outcome(before, after, s, r),
        Statement::CreateView(s) => create_view_outcome(before, after, s, r),
        Statement::DropCollection(n) => drop_collection_outcome(before, after, n, r),
        Statement::DropView(n) => drop_view_outcome(before, after, n, r),
    }
}

/// The schema fields `sf` accept the document an `INSERT` builds: every
/// required field is given a value, and every value given fits its type.
pub open spec fn insert_accepted(sf: Seq<(String, FieldDef)>, stmt: InsertStmt) -> bool {
    forall|i: int|
        0 <= i < sf.len() ==> {
            let v = inserted_value(stmt.columns@, stmt.values@, #[trigger] sf[i].0@, stmt.columns@.len() as int);
            &&& !(sf[i].1.required && v is None)
            &&& (v matches Some(m) ==> crate::schema::type_ok(sf[i].1.field_type, m))
        }
}

/// Schema field `i` is required and the `INSERT` gives it no value.
pub open spec fn ins_missing_at(sf: Seq<(String, FieldDef)>, stmt: InsertStmt, i: int) -> bool {
    0 <= i < sf.len() && sf[i].1.required && inserted_value(stmt.columns@, stmt.values@, sf[i].0@, stmt.columns@.len() as int) is None
}

/// The `INSERT` gives schema field `i` a value of the wrong type.
pub open spec fn ins_mistyped_at(sf: Seq<(String, FieldDef)>, stmt: InsertStmt, i: int) -> bool {
    0 <= i < sf.len() && match inserted_value(stmt.columns@, stmt.values@, sf[i].0@, stmt.columns@.len() as int) {
        Some(v) => !crate::schema::type_ok(sf[i].1.field_type, v),
        None => false,
    }
}

/// `e` is the error a refusing schema with fields `sf` gives for the
/// `INSERT`: the first missing required field, else the first field given a
/// value of the wrong type.
pub open spec fn schema_error(sf: Seq<(String, FieldDef)>, stmt: InsertStmt, e: Error) -> bool {
    if exists|i: int| ins_missing_at(sf, stmt, i) {
        e is MissingRequiredField && e->MissingRequiredField_collection@ == stmt.into@ && exists|i: int|
            ins_missing_at(sf, stmt, i) && (forall|j: int| 0 <= j < i ==> !ins_missing_at(sf, stmt, j))
                && e->MissingRequiredField_field@ == sf[i].0@
    } else {
        e is TypeMismatch && exists|i: int|
            ins_mistyped_at(sf, stmt, i) && (forall|j: int| 0 <= j < i ==> !ins_mistyped_at(sf, stmt, j))
                && e->TypeMismatch_field@ == sf[i].0@ && e->TypeMismatch_expected@ == crate::schema::field_type_name(
                sf[i].1.field_type,
            ) && e->TypeMismatch_actual@ == crate::schema::value_type_name(
                inserted_value(stmt.columns@, stmt.values@, sf[i].0@, stmt.columns@.len() as int)->Some_0,
            )
    }
}

proof fn lemma_schema_error(
    sf: Seq<(String, FieldDef)>,
    df: Seq<(String, Value)>,
    stmt: InsertStmt,
    v: crate::schema::ValidationError,
    e: Error,
)
    requires
        forall|k: Seq<char>|
            #[trigger] lookup_model(df, k) == inserted_value(stmt.columns@, stmt.values@, k, stmt.columns@.len() as int),
        crate::schema::validation_result(sf, df, Err(v)),
        v matches crate::schema::ValidationError::MissingRequired(f) ==> e is MissingRequiredField
            && e->MissingRequiredField_collection@ == stmt.into@ && e->MissingRequiredField_field == f,
        v matches crate::schema::ValidationError::TypeMismatch { field, expected, actual } ==> e == (Error::TypeMismatch {
            field,
            expected,
            actual,
        }),
    ensures
        schema_error(sf, stmt, e),
{
    assert forall|i: int| missing_at(sf, df, i) == ins_missing_at(sf, stmt, i) by {
        if 0 <= i < sf.len() {
            assert(lookup_model(df, sf[i].0@) == inserted_value(stmt.columns@, stmt.values@, sf[i].0@, stmt.columns@.len() as int));
        }
    }
    assert forall|i: int| mistyped_at(sf, df, i) == ins_mistyped_at(sf, stmt, i) by {
        if 0 <= i < sf.len() {
            assert(lookup_model(df, sf[i].0@) == inserted_value(stmt.columns@, stmt.values@, sf[i].0@, stmt.columns@.len() as int));
        }
    }
    match v {
        crate::schema::ValidationError::MissingRequired(f) => {
            let i = choose|i: int| missing_at(sf, df, i) && f@ == sf[i].0@ && forall|j: int| 0 <= j < i ==> !missing_at(sf, df, j);
            assert(ins_missing_at(sf, stmt, i));
        },
        crate::schema::ValidationError::TypeMismatch { field, expected, actual } => {
            let i = choose|i: int| mistyped_at(sf, df, i) && field@ == sf[i].0@ && expected@ == crate::schema::field_type_name(sf[i].1.field_type)
                && actual@ == crate::schema::value_type_name(lookup_model(df, sf[i].0@)->Some_0) && forall|j: int|
                0 <= j < i ==> !mistyped_at(sf, df, j);
            assert(ins_mistyped_at(sf, stmt, i));
            assert(!exists|k: int| ins_missing_at(sf, stmt, k)) by {
                if exists|k: int| ins_missing_at(sf, stmt, k) {
                    let k = choose|k: int| ins_missing_at(sf, stmt, k);
                    assert(missing_at(sf, df, k));
                }
            }
        },
        crate::schema::ValidationError::UniqueViolation(_) => {},
    }
}

/// A schema is registered for the `INSERT`'s collection and refuses its document.
pub open spec fn schema_rejects(reg: SchemaRegistry, stmt: InsertStmt) -> bool {
    exists|si: int| schema_at(reg.schemas@, stmt.into@, si) && !insert_accepted(reg.schemas@[si].fields@, stmt)
}

/// The collection already holds a document with the `INSERT`'s id.
pub open spec fn id_taken(cs: Seq<StoredCollection>, stmt: InsertStmt) -> bool {
    exists|j: int|
        0 <= j < docs_of(cs, stmt.into@).len() && (#[trigger] docs_of(cs, stmt.into@)[j]).id@ == insert_id(stmt)->Some_0
}

/// The names and the id of an `INSERT` are valid identifiers.
pub open spec fn insert_names_ok(stmt: InsertStmt) -> bool {
    identifier_fault(stmt.into@) is None && insert_id(stmt) is Some && identifier_fault(insert_id(stmt)->Some_0) is None
}

proof fn lemma_accepted_from_fields(sf: Seq<(String, FieldDef)>, df: Seq<(String, Value)>, stmt: InsertStmt)
    requires
        forall|k: Seq<char>|
            #[trigger] lookup_model(df, k) == inserted_value(stmt.columns@, stmt.values@, k, stmt.columns@.len() as int),
        forall|i: int| !missing_at(sf, df, i) && !mistyped_at(sf, df, i),
    ensures
        insert_accepted(sf, stmt),
{
    assert forall|i: int| 0 <= i < sf.len() implies {
        let v = inserted_value(stmt.columns@, stmt.values@, #[trigger] sf[i].0@, stmt.columns@.len() as int);
        &&& !(sf[i].1.required && v is None)
        &&& (v matches Some(m) ==> crate::schema::type_ok(sf[i].1.field_type, m))
    } by {
        assert(!missing_at(sf, df, i) && !mistyped_at(sf, df, i));
        assert(lookup_model(df, sf[i].0@) == inserted_value(stmt.columns@, stmt.values@, sf[i].0@, stmt.columns@.len() as int));
    }
}

proof fn lemma_rejected_from_fields(
    sf: Seq<(String, FieldDef)>,
    df: Seq<(String, Value)>,
    stmt: InsertStmt,
    v: crate::schema::ValidationError,
)
    requires
        forall|k: Seq<char>|
            #[trigger] lookup_model(df, k) == inserted_value(stmt.columns@, stmt.values@, k, stmt.columns@.len() as int),
        crate::schema::validation_result(sf, df, Err(v)),
    ensures
        !insert_accepted(sf, stmt),
{
    match v {
        crate::schema::ValidationError::MissingRequired(f) => {
            let i = choose|i: int| missing_at(sf, df, i) && f@ == sf[i].0@ && forall|j: int| 0 <= j < i ==> !missing_at(sf, df, j);
            assert(lookup_model(df, sf[i].0@) == inserted_value(stmt.columns@, stmt.values@, sf[i].0@, stmt.columns@.len() as int));
        },
        crate::schema::ValidationError::TypeMismatch { field, expected, actual } => {
            let i = choose|i: int| mistyped_at(sf, df, i) && field@ == sf[i].0@ && expected@ == crate::schema::field_type_name(sf[i].1.field_type)
                && actual@ == crate::schema::value_type_name(lookup_model(df, sf[i].0@)->Some_0) && forall|j: int|
                0 <= j < i ==> !mistyped_at(sf, df, j);
            assert(lookup_model(df, sf[i].0@) == inserted_value(stmt.columns@, stmt.values@, sf[i].0@, stmt.columns@.len() as int));
        },
        crate::schema::ValidationError::UniqueViolation(_) => {},
    }
}

/// What `INSERT` does; see [`Database::execute_insert`]. With valid names
/// and id, it fails with a schema error exactly when a registered schema
/// refuses the document, else with an already-exists error exactly when the
/// id is taken, and otherwise succeeds.
pub open spec fn insert_outcome(before: Database, after: Database, stmt: InsertStmt, r: Result<QueryResult, Error>) -> bool {
    &&& insert_names_ok(stmt) && schema_rejects(before.schema, stmt) ==> r is Err && exists|si: int|
        schema_at(before.schema.schemas@, stmt.into@, si) && schema_error(before.schema.schemas@[si].fields@, stmt, r->Err_0)
    &&& insert_names_ok(stmt) && !schema_rejects(before.schema, stmt) && id_taken(before.collections@, stmt) ==> r is Err
        && r->Err_0 is DocumentAlreadyExists
    &&& insert_names_ok(stmt) && !schema_rejects(before.schema, stmt) && !id_taken(before.collections@, stmt) ==> r is Ok
    &&& r is Err ==> after == before
    &&& identifier_fault(stmt.into@) is Some ==> r is Err && name_rejected(stmt.into@, r->Err_0)
    &&& identifier_fault(stmt.into@) is None && insert_id(stmt) is None ==> (r matches Err(Error::MissingDocumentId))
    &&& identifier_fault(stmt.into@) is None && insert_id(stmt) is Some && identifier_fault(insert_id(stmt)->Some_0) is Some
        ==> r is Err && name_rejected(insert_id(stmt)->Some_0, r->Err_0)
    &&& r is Err && (r->Err_0 is MissingRequiredField || r->Err_0 is TypeMismatch) ==> exists|si: int|
        schema_at(before.schema.schemas@, stmt.into@, si)
    &&& r is Err && r->Err_0 is DocumentAlreadyExists ==> r->Err_0->DocumentAlreadyExists_collection@ == stmt.into@
        && exists|j: int| 0 <= j < docs_of(before.collections@, stmt.into@).len() && (#[trigger] docs_of(
            before.collections@,
            stmt.into@,
        )[j]).id@ == r->Err_0->DocumentAlreadyExists_id@
    &&& r is Ok ==> inserted(before, after, stmt) && (r matches Ok(QueryResult::Affected(n)) && n == 1)
}

/// Executes one parsed statement on `db` (see [`statement_outcome`]).
pub fn execute(db: &mut Database, stmt: Statement) -> (r: Result<QueryResult, Error>)
    ensures
        statement_outcome(*old(db), *final(db), stmt, r),
{
    match stmt {
        Statement::Select(s) => db.execute_select(&s),
        Statement::Insert(s) => db.execute_insert(s),
        Statement::Update(s) => db.execute_update(s),
        Statement::Delete(s) => db.execute_delete(s),
        Statement::CreateCollection(s) => db.execute_create_collection(s),
        Statement::CreateView(s) => db.execute_create_view(s),
        Statement::DropCollection(n) => db.execute_drop_collection(n),
        Statement::DropView(n) => db.execute_drop_view(n),
    }
}

impl Database {
    /// Parses `query` as one statement and executes it. A query that does
    /// not parse changes nothing and gives a parse error; otherwise the
    /// parsed statement has its effect (see [`statement_outcome`]).
    pub fn execute(&mut self, query: &str) -> (r: Result<QueryResult, Error>)
        ensures
            match crate::parser::parsed(query@) {
                Some(m) => exists|st: Statement| st@ == m && #[trigger] statement_outcome(*old(self), *final(self), st, r),
                None => (r matches Err(Error::ParseError { .. })) && *final(self) == *old(self),
            },
    {
        match crate::parser::parse(query) {
            Ok(stmt) => {
                let ghost g = stmt;
                let r = execute(self, stmt);
                assert(statement_outcome(*old(self), *self, g, r));
                r
            },
            Err(e) => Err(Error::ParseError { message: e.to_text() }),
        }
    }
}

} // verus!

verus! {

/// Creating a collection that a successful `CREATE COLLECTION` made: with
/// `IF NOT EXISTS` it succeeds and changes nothing (the schema stays as it
/// was); without it, it fails with an already-exists error.
pub proof fn lemma_create_collection_twice(
    db0: Database,
    db1: Database,
    db2: Database,
    s1: CreateCollectionStmt,
    s2: CreateCollectionStmt,
    r1: Result<QueryResult, Error>,
    r2: Result<QueryResult, Error>,
)
    requires
        create_collection_outcome(db0, db1, s1, r1),
        r1 is Ok,
        create_collection_outcome(db1, db2, s2, r2),
        s2.name@ == s1.name@,
    ensures
        s2.if_not_exists ==> r2 is Ok && db2 == db1,
        !s2.if_not_exists ==> (r2 matches Err(Error::CollectionAlreadyExists { name }) && name@ == s1.name@) && db2 == db1,
{
    assert(identifier_fault(s1.name@) is None);
    if has_collection(db0.collections@, s1.name@) {
        assert(db1 == db0);
    } else {
        let n = db1.collections@.len() - 1;
        assert(db1.collections@[n].name@ == s1.name@);
    }
    assert(has_collection(db1.collections@, s2.name@));
}

/// An `UPDATE` that succeeds reports as affected the number of documents its
/// filter matches; those documents get the `SET` values and the others stay
/// as they were.
pub proof fn lemma_update_counts(
    db0: Database,
    db1: Database,
    stmt: UpdateStmt,
    r: Result<QueryResult, Error>,
    ci: int,
)
    requires
        update_outcome(db0, db1, stmt, r),
        r is Ok,
        coll_at(db0.collections@, stmt.collection@, ci),
    ensures
        r == Ok::<QueryResult, Error>(
            QueryResult::Affected(matching(db0.collections@[ci].documents@, stmt.where_clause).len() as usize),
        ),
        db1.collections@[ci].documents@.len() == db0.collections@[ci].documents@.len(),
        forall|i: int|
            0 <= i < db0.collections@[ci].documents@.len() ==> if passes(stmt.where_clause, #[trigger] db0.collections@[ci].documents@[i]) {
                updated_doc(db0.collections@[ci].documents@[i], db1.collections@[ci].documents@[i], stmt.set@)
            } else {
                db1.collections@[ci].documents@[i] == db0.collections@[ci].documents@[i]
            },
{
    let c = choose|c: int| #[trigger] coll_at(db0.collections@, stmt.collection@, c) && {
        let n = matching(db0.collections@[c].documents@, stmt.where_clause).len();
        &&& r == Ok::<QueryResult, Error>(QueryResult::Affected(n as usize))
        &&& updated_docs(db0.collections@[c].documents@, db1.collections@[c].documents@, stmt.where_clause, stmt.set@)
    };
    assert(c == ci) by { if c < ci {} else if c > ci {} };
}

} // verus!

verus! {

/// A `SELECT` on an existing collection with a valid name succeeds, and the
/// documents it keeps come sorted: each at or before the next under the
/// `ORDER BY` keys, ties in scan order (that they are exactly the matching
/// ones is `select::lemma_select_sorted`).
pub proof fn lemma_select_sorted_result(db: Database, stmt: SelectStmt, r: Result<QueryResult, Error>, ci: int)
    requires
        select_outcome(db, db, stmt, r),
        identifier_fault(stmt.from@) is None,
        coll_at(db.collections@, stmt.from@, ci),
    ensures
        r is Ok,
        selection_result(db.collections@[ci].documents@, stmt, r->Ok_0),
        crate::select::in_key_order(
            db.collections@[ci].documents@,
            crate::select::sort_indices(
                db.collections@[ci].documents@,
                matching(db.collections@[ci].documents@, stmt.where_clause),
                stmt.order_by@,
            ),
            stmt.order_by@,
        ),
{
    assert(has_collection(db.collections@, stmt.from@));
    let c = choose|c: int| coll_at(db.collections@, stmt.from@, c) && #[trigger] selection_result(
        db.collections@[c].documents@,
        stmt,
        r->Ok_0,
    );
    assert(c == ci) by { if c < ci {} else if c > ci {} };
    crate::select::lemma_select_sorted(db.collections@[ci].documents@, stmt);
}

/// A `SELECT` on an existing collection with a valid name whose `OFFSET` is
/// at or past the number of matching documents returns no documents, and no
/// error.
pub proof fn lemma_select_offset_past_end(db: Database, stmt: SelectStmt, r: Result<QueryResult, Error>, ci: int)
    requires
        select_outcome(db, db, stmt, r),
        identifier_fault(stmt.from@) is None,
        coll_at(db.collections@, stmt.from@, ci),
        stmt.offset matches Some(o) && o >= matching(db.collections@[ci].documents@, stmt.where_clause).len(),
    ensures
        r matches Ok(QueryResult::Documents(docs)) && docs@.len() == 0,
{
    lemma_select_sorted_result(db, stmt, r, ci);
    crate::select::lemma_offset_past_end(db.collections@[ci].documents@, stmt);
}

/// An `INSERT` into a collection with a valid name and without a string `id`
/// column fails with the missing-id error, whatever schema is registered, and
/// changes nothing.
pub proof fn lemma_insert_requires_id(before: Database, after: Database, stmt: InsertStmt, r: Result<QueryResult, Error>)
    requires
        insert_outcome(before, after, stmt, r),
        identifier_fault(stmt.into@) is None,
        insert_id(stmt) is None,
    ensures
        r matches Err(Error::MissingDocumentId),
        after == before,
{
}

/// `CREATE COLLECTION` of a collection that exists, under a valid name: with
/// `IF NOT EXISTS` it succeeds and changes nothing (the schema stays as it
/// was); without it, it fails with an already-exists error and changes
/// nothing.
pub proof fn lemma_create_existing_collection(
    before: Database,
    after: Database,
    stmt: CreateCollectionStmt,
    r: Result<QueryResult, Error>,
)
    requires
        create_collection_outcome(before, after, stmt, r),
        identifier_fault(stmt.name@) is None,
        has_collection(before.collections@, stmt.name@),
    ensures
        after == before,
        stmt.if_not_exists ==> (r matches Ok(QueryResult::CollectionCreated(n)) && n@ == stmt.name@),
        !stmt.if_not_exists ==> (r matches Err(Error::CollectionAlreadyExists { name }) && name@ == stmt.name@),
{
}

/// An `UPDATE` of an existing collection with a valid name succeeds and
/// reports as affected the documents its filter matches; those get the `SET`
/// values, the others stay as they were, and none is added or removed.
pub proof fn lemma_update_existing(
    db0: Database,
    db1: Database,
    stmt: UpdateStmt,
    r: Result<QueryResult, Error>,
    ci: int,
)
    requires
        update_outcome(db0, db1, stmt, r),
        identifier_fault(stmt.collection@) is None,
        coll_at(db0.collections@, stmt.collection@, ci),
    ensures
        r == Ok::<QueryResult, Error>(
            QueryResult::Affected(matching(db0.collections@[ci].documents@, stmt.where_clause).len() as usize),
        ),
        db1.collections@[ci].documents@.len() == db0.collections@[ci].documents@.len(),
        forall|i: int|
            0 <= i < db0.collections@[ci].documents@.len() ==> if passes(stmt.where_clause, #[trigger] db0.collections@[ci].documents@[i]) {
                updated_doc(db0.collections@[ci].documents@[i], db1.collections@[ci].documents@[i], stmt.set@)
            } else {
                db1.collections@[ci].documents@[i] == db0.collections@[ci].documents@[i]
            },
{
    assert(has_collection(db0.collections@, stmt.collection@));
    lemma_update_counts(db0, db1, stmt, r, ci);
}

} // verus!
