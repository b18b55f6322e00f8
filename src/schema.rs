//! Collection schemas: declared field types and constraints, and the checks a
//! document must pass before it is written.
use vstd::prelude::*;
use crate::document::{lookup, lookup_model, Document, Value, ValueModel, DECIMAL_ONE};
use crate::text::{all_digits, chars_of, digits_value, is_digit, parse_digits, parse_u32, parse_u32_range, push_text};

verus! {

/// The type of a schema field.
#[derive(Debug)]
pub enum FieldType {
    String,
    Int,
    Float,
    Bool,
    Date,
    DateTime,
    Array(Box<FieldType>),
    Object,
    /// A reference to a document of the named collection.
    Ref(String),
}

impl Default for FieldType {
    fn default() -> (r: Self)
        ensures
            r is String,
    {
        FieldType::String
    }
}

/// The declaration of one field.
#[derive(Debug)]
pub struct FieldDef {
    pub field_type: FieldType,
    pub required: bool,
    /// Default value; stored, not applied.
    pub default: Option<Value>,
    pub description: Option<String>,
    /// Stored, not used.
    pub indexed: bool,
    /// Stored, not enforced.
    pub unique: bool,
}

impl Default for FieldDef {
    fn default() -> (r: Self)
        ensures
            r.field_type is String,
            !r.required,
            r.default.is_none(),
            r.description.is_none(),
            !r.indexed,
            !r.unique,
    {
        FieldDef {
            field_type: FieldType::String,
            required: false,
            default: None,
            description: None,
            indexed: false,
            unique: false,
        }
    }
}

/// How document ids are made. Only `Manual` is in effect.
#[derive(Debug)]
pub enum IdStrategy {
    Manual,
    AutoIncrement,
    Uuid,
    Derived { from: String, transform: String },
}

impl Default for IdStrategy {
    fn default() -> (r: Self)
        ensures
            r is Manual,
    {
        IdStrategy::Manual
    }
}

/// The schema of a collection. Fields are checked in declaration order.
#[derive(Debug)]
pub struct Schema {
    pub name: String,
    pub description: Option<String>,
    pub fields: Vec<(String, FieldDef)>,
    pub id_strategy: IdStrategy,
}

/// Why a document does not fit its schema.
#[derive(Debug)]
pub enum ValidationError {
    MissingRequired(String),
    TypeMismatch { field: String, expected: String, actual: String },
    UniqueViolation(String),
}

/// `YYYY-MM-DD`: four digits, `-`, two digits, `-`, two digits, with the
/// month from 1 to 12 and the day from 1 to 31 (month lengths and leap years
/// are not checked).
pub open spec fn is_date(s: Seq<char>) -> bool {
    &&& s.len() == 10
    &&& s[4] == '-'
    &&& s[7] == '-'
    &&& all_digits(s.subrange(0, 4))
    &&& all_digits(s.subrange(5, 7))
    &&& all_digits(s.subrange(8, 10))
    &&& 1 <= digits_value(s.subrange(5, 7)) <= 12
    &&& 1 <= digits_value(s.subrange(8, 10)) <= 31
}

/// Index of the first `c1` or `c2` in `s`, or its length when there is none.
pub open spec fn first_of2(s: Seq<char>, c1: char, c2: char) -> int
    decreases s.len(),
{
    if s.len() == 0 {
        0
    } else {
        let f = first_of2(s.drop_last(), c1, c2);
        if f < s.len() - 1 {
            f
        } else if s.last() == c1 || s.last() == c2 {
            s.len() - 1
        } else {
            s.len() as int
        }
    }
}

/// A time part: before any `Z` or `+`, an hour up to 23, `:`, and a minute
/// up to 59 (anything after a second `:` is not looked at).
pub open spec fn is_time(t: Seq<char>) -> bool {
    let base = t.subrange(0, first_of2(t, 'Z', '+'));
    let c = first_of2(base, ':', ':');
    let rest = base.subrange(c + 1, base.len() as int);
    let e = first_of2(rest, ':', ':');
    &&& c < base.len()
    &&& parse_u32(base.subrange(0, c)) matches Some(h) && h <= 23
    &&& parse_u32(rest.subrange(0, e)) matches Some(m) && m <= 59
}

/// A date, alone or followed by `T` or a space and a time of at least five
/// characters.
pub open spec fn is_datetime(s: Seq<char>) -> bool {
    &&& s.len() >= 10
    &&& is_date(s.subrange(0, 10))
    &&& (s.len() == 10 || ((s[10] == 'T' || s[10] == ' ') && s.len() >= 16 && is_time(
        s.subrange(11, s.len() as int),
    )))
}

/// Whether a value fits a field type. Null fits every type.
pub open spec fn type_ok(ft: FieldType, v: ValueModel) -> bool
    decreases v,
{
    match v {
        ValueModel::Null => true,
        _ => match ft {
            FieldType::String => v is String,
            FieldType::Int => v is Int || (v is Float && v->Float_0 % (DECIMAL_ONE as int) == 0),
            FieldType::Float => v is Float || v is Int,
            FieldType::Bool => v is Bool,
            FieldType::Date => v is String && is_date(v->String_0),
            FieldType::DateTime => v is String && is_datetime(v->String_0),
            FieldType::Object => v is Object,
            FieldType::Array(inner) => match v {
                ValueModel::Array(items) => forall|i: int|
                    0 <= i < items.len() ==> type_ok(*inner, #[trigger] items[i]),
                _ => false,
            },
            FieldType::Ref(_) => v is String,
        },
    }
}

/// The name of a field type, as its `Debug` form writes it.
pub open spec fn field_type_name(ft: FieldType) -> Seq<char>
    decreases ft,
{
    match ft {
        FieldType::String => "String"@,
        FieldType::Int => "Int"@,
        FieldType::Float => "Float"@,
        FieldType::Bool => "Bool"@,
        FieldType::Date => "Date"@,
        FieldType::DateTime => "DateTime"@,
        FieldType::Array(inner) => "Array("@ + field_type_name(*inner) + ")"@,
        FieldType::Object => "Object"@,
        FieldType::Ref(c) => "Ref(\""@ + c@ + "\")"@,
    }
}

/// A short description of a value's type for messages.
pub open spec fn value_type_name(v: ValueModel) -> Seq<char>
    decreases v,
{
    match v {
        ValueModel::Null => "null"@,
        ValueModel::Bool(_) => "bool"@,
        ValueModel::Int(_) => "int"@,
        ValueModel::Float(_) => "float"@,
        ValueModel::String(_) => "string"@,
        ValueModel::Array(items) => if items.len() == 0 {
            "array"@
        } else {
            "array<"@ + value_type_name(items[0]) + ">"@
        },
        ValueModel::Object(_) => "object"@,
    }
}

/// Field `i` of the schema is required and missing from the document.
pub open spec fn missing_at(sf: Seq<(String, FieldDef)>, df: Seq<(String, Value)>, i: int) -> bool {
    0 <= i < sf.len() && sf[i].1.required && lookup(df, sf[i].0@).is_none()
}

/// Field `i` of the schema is present in the document with a value that does
/// not fit its type.
pub open spec fn mistyped_at(sf: Seq<(String, FieldDef)>, df: Seq<(String, Value)>, i: int) -> bool {
    0 <= i < sf.len() && match lookup_model(df, sf[i].0@) {
        Some(v) => !type_ok(sf[i].1.field_type, v),
        None => false,
    }
}

/// What validating a document with fields `df` against schema fields `sf`
/// gives: the first missing required field, else the first field of the
/// wrong type, else success.
pub open spec fn validation_result(
    sf: Seq<(String, FieldDef)>,
    df: Seq<(String, Value)>,
    r: Result<(), ValidationError>,
) -> bool {
    match r {
        Ok(()) => forall|i: int| !missing_at(sf, df, i) && !mistyped_at(sf, df, i),
        Err(ValidationError::MissingRequired(f)) => exists|i: int|
            missing_at(sf, df, i) && f@ == sf[i].0@ && forall|j: int| 0 <= j < i ==> !missing_at(sf, df, j),
        Err(ValidationError::TypeMismatch { field, expected, actual }) => (forall|i: int| !missing_at(sf, df, i))
            && exists|i: int|
            mistyped_at(sf, df, i) && field@ == sf[i].0@ && expected@ == field_type_name(sf[i].1.field_type)
                && actual@ == value_type_name(lookup_model(df, sf[i].0@)->Some_0) && forall|j: int|
                0 <= j < i ==> !mistyped_at(sf, df, j),
        Err(ValidationError::UniqueViolation(_)) => false,
    }
}

/// Whether `v` holds a valid date.
fn date_chars(v: &Vec<char>) -> (r: bool)
    ensures
        r == is_date(v@),
{
    if v.len() != 10 || v[4] != '-' || v[7] != '-' {
        return false;
    }
    let y = parse_digits(v, 0, 4, 9999);
    let m = parse_digits(v, 5, 7, 99);
    let d = parse_digits(v, 8, 10, 99);
    proof {
        reveal_with_fuel(crate::document::pow10, 5);
        if all_digits(v@.subrange(5, 7)) {
            crate::parser::lemma_digits_bound(v@.subrange(5, 7));
        }
        if all_digits(v@.subrange(8, 10)) {
            crate::parser::lemma_digits_bound(v@.subrange(8, 10));
        }
        if all_digits(v@.subrange(0, 4)) {
            crate::parser::lemma_digits_bound(v@.subrange(0, 4));
        }
    }
    match (y, m, d) {
        (Some(_), Some(m), Some(d)) => 1 <= m && m <= 12 && 1 <= d && d <= 31,
        _ => false,
    }
}

/// Whether `s` is a `YYYY-MM-DD` date (month 1–12, day 1–31, no check of
/// month lengths).
pub fn is_valid_date(s: &str) -> (r: bool)
    ensures
        r == is_date(s@),
{
    let v = chars_of(s);
    date_chars(&v)
}

/// `from` plus the index of the first `c1` or `c2` in `v[from..to]`.
fn first_of2_range(v: &Vec<char>, from: usize, to: usize, c1: char, c2: char) -> (r: usize)
    requires
        from <= to <= v@.len(),
    ensures
        r as int == from + first_of2(v@.subrange(from as int, to as int), c1, c2),
        from <= r <= to,
{
    let mut idx: usize = from;
    let mut i: usize = from;
    while i < to
        invariant
            from <= i <= to <= v@.len(),
            idx as int == from + first_of2(v@.subrange(from as int, i as int), c1, c2),
            from <= idx <= i,
        decreases to - i,
    {
        assert(v@.subrange(from as int, i + 1).drop_last() =~= v@.subrange(from as int, i as int));
        if idx < i {
        } else if v[i] == c1 || v[i] == c2 {
            idx = i;
        } else {
            idx = i + 1;
        }
        i = i + 1;
    }
    idx
}

/// Whether `s` is a date, optionally followed by `T` or a space and an
/// `HH:MM` time (hour up to 23, minute up to 59) before any `Z`/`+` suffix.
pub fn is_valid_datetime(s: &str) -> (r: bool)
    ensures
        r == is_datetime(s@),
{
    let v = chars_of(s);
    let n = v.len();
    if n < 10 {
        return false;
    }
    let mut head: Vec<char> = Vec::new();
    let mut i: usize = 0;
    while i < 10
        invariant
            n == v@.len(),
            n >= 10,
            i <= 10,
            head@ == v@.subrange(0, i as int),
        decreases 10 - i,
    {
        head.push(v[i]);
        i = i + 1;
        assert(head@ =~= v@.subrange(0, i as int));
    }
    if !date_chars(&head) {
        return false;
    }
    if n == 10 {
        return true;
    }
    let sep = v[10];
    if sep != 'T' && sep != ' ' {
        return false;
    }
    if n < 16 {
        return false;
    }
    let ghost t = v@.subrange(11, n as int);
    let zone = first_of2_range(&v, 11, n, 'Z', '+');
    let ghost base = t.subrange(0, zone - 11);
    assert(v@.subrange(11, zone as int) =~= base);
    let colon = first_of2_range(&v, 11, zone, ':', ':');
    if colon >= zone {
        return false;
    }
    let ghost rest = base.subrange(colon - 11 + 1, base.len() as int);
    assert(v@.subrange(colon + 1, zone as int) =~= rest);
    let end = first_of2_range(&v, colon + 1, zone, ':', ':');
    assert(v@.subrange(11, colon as int) =~= base.subrange(0, colon - 11));
    assert(v@.subrange(colon + 1, end as int) =~= rest.subrange(0, end - colon - 1));
    let h = parse_u32_range(&v, 11, colon);
    let m = parse_u32_range(&v, colon + 1, end);
    match (h, m) {
        (Some(h), Some(m)) => h <= 23 && m <= 59,
        _ => false,
    }
}

} // verus!

verus! {

/// Whether value `v` fits field type `ft`.
pub fn check_type_match(ft: &FieldType, v: &Value) -> (r: bool)
    ensures
        r == type_ok(*ft, v@),
    decreases v,
{
    match v {
        Value::Null => true,
        _ => match ft {
            FieldType::String => v.as_str().is_some(),
            FieldType::Int => match v {
                Value::Int(_) => true,
                Value::Float(d) => d.units % DECIMAL_ONE == 0,
                _ => false,
            },
            FieldType::Float => match v {
                Value::Float(_) => true,
                Value::Int(_) => true,
                _ => false,
            },
            FieldType::Bool => v.as_bool().is_some(),
            FieldType::Date => match v {
                Value::String(s) => is_valid_date(s.as_str()),
                _ => false,
            },
            FieldType::DateTime => match v {
                Value::String(s) => is_valid_datetime(s.as_str()),
                _ => false,
            },
            FieldType::Object => match v {
                Value::Object(_) => true,
                _ => false,
            },
            FieldType::Array(inner) => match v {
                Value::Array(items) => {
                    let mut i: usize = 0;
                    while i < items.len()
                        invariant
                            *v is Array,
                            v->Array_0 == *items,
                            *ft == FieldType::Array(*inner),
                            i <= items@.len(),
                            forall|j: int| 0 <= j < i ==> type_ok(**inner, (#[trigger] items@[j])@),
                        decreases items@.len() - i,
                    {
                        proof {
                            let ghost me: Value = *v;
                            broadcast use vstd::std_specs::vec::axiom_vec_index_decreases;
                            assert(decreases_to!(me => me->Array_0));
                            assert(decreases_to!(me->Array_0 => me->Array_0[i as int]));
                        }
                        if !check_type_match(inner, &items[i]) {
                            assert(v@->Array_0[i as int] == items@[i as int]@);
                            return false;
                        }
                        i = i + 1;
                    }
                    assert forall|j: int| 0 <= j < v@->Array_0.len() implies type_ok(**inner, #[trigger] v@->Array_0[j]) by {
                        assert(v@->Array_0[j] == items@[j]@);
                    }
                    true
                },
                _ => false,
            },
            FieldType::Ref(_) => v.as_str().is_some(),
        },
    }
}

/// The `Debug` name of a field type.
pub fn field_type_to_text(ft: &FieldType) -> (r: String)
    ensures
        r@ == field_type_name(*ft),
    decreases ft,
{
    let mut r = String::new();
    match ft {
        FieldType::String => push_text(&mut r, "String"),
        FieldType::Int => push_text(&mut r, "Int"),
        FieldType::Float => push_text(&mut r, "Float"),
        FieldType::Bool => push_text(&mut r, "Bool"),
        FieldType::Date => push_text(&mut r, "Date"),
        FieldType::DateTime => push_text(&mut r, "DateTime"),
        FieldType::Array(inner) => {
            push_text(&mut r, "Array(");
            let t = field_type_to_text(inner);
            push_text(&mut r, t.as_str());
            push_text(&mut r, ")");
        },
        FieldType::Object => push_text(&mut r, "Object"),
        FieldType::Ref(c) => {
            push_text(&mut r, "Ref(\"");
            push_text(&mut r, c.as_str());
            push_text(&mut r, "\")");
        },
    }
    assert(r@ =~= field_type_name(*ft));
    r
}

/// A short description of a value's type, for error messages.
pub fn describe_value_type(v: &Value) -> (r: String)
    ensures
        r@ == value_type_name(v@),
    decreases v,
{
    let mut r = String::new();
    match v {
        Value::Null => push_text(&mut r, "null"),
        Value::Bool(_) => push_text(&mut r, "bool"),
        Value::Int(_) => push_text(&mut r, "int"),
        Value::Float(_) => push_text(&mut r, "float"),
        Value::String(_) => push_text(&mut r, "string"),
        Value::Array(items) => {
            if items.len() == 0 {
                push_text(&mut r, "array");
            } else {
                proof {
                    let ghost me: Value = *v;
                    broadcast use vstd::std_specs::vec::axiom_vec_index_decreases;
                    assert(decreases_to!(me => me->Array_0));
                    assert(decreases_to!(me->Array_0 => me->Array_0[0]));
                }
                push_text(&mut r, "array<");
                let t = describe_value_type(&items[0]);
                push_text(&mut r, t.as_str());
                push_text(&mut r, ">");
                assert(v@->Array_0[0] == items@[0]@);
            }
        },
        Value::Object(_) => push_text(&mut r, "object"),
    }
    assert(r@ =~= value_type_name(v@));
    r
}

impl Schema {
    /// A schema for collection `name` with no fields.
    pub fn new(name: &str) -> (r: Schema)
        ensures
            r.name@ == name@,
            r.description.is_none(),
            r.fields@.len() == 0,
            r.id_strategy is Manual,
    {
        Schema { name: name.to_owned(), description: None, fields: Vec::new(), id_strategy: IdStrategy::Manual }
    }

    /// This schema with field `name` declared by `def` (after the others).
    pub fn field(self, name: &str, def: FieldDef) -> (r: Schema)
        ensures
            r.name == self.name,
            r.fields@.len() == self.fields@.len() + 1,
            r.fields@.subrange(0, self.fields@.len() as int) == self.fields@,
            r.fields@.last().0@ == name@,
            r.fields@.last().1 == def,
    {
        let mut s = self;
        s.fields.push((name.to_owned(), def));
        assert(s.fields@.subrange(0, self.fields@.len() as int) =~= self.fields@);
        s
    }

    /// Checks `doc` against this schema: every required field present (a
    /// null value counts as present), then every present field of its type.
    /// Fields are checked in declaration order; the first failure is reported.
    pub fn validate(&self, doc: &Document) -> (r: Result<(), ValidationError>)
        ensures
            validation_result(self.fields@, doc.fields@, r),
    {
        let sf = &self.fields;
        let mut i: usize = 0;
        while i < sf.len()
            invariant
                sf@ == self.fields@,
                i <= sf@.len(),
                forall|j: int| 0 <= j < i ==> !missing_at(sf@, doc.fields@, j),
            decreases sf@.len() - i,
        {
            if sf[i].1.required && doc.get(sf[i].0.as_str()).is_none() {
                let f = sf[i].0.clone();
                let r = Err(ValidationError::MissingRequired(f));
                assert(missing_at(self.fields@, doc.fields@, i as int) && f@ == self.fields@[i as int].0@);
                assert(validation_result(self.fields@, doc.fields@, r));
                return r;
            }
            i = i + 1;
        }
        let mut k: usize = 0;
        while k < sf.len()
            invariant
                sf@ == self.fields@,
                k <= sf@.len(),
                forall|j: int| !missing_at(sf@, doc.fields@, j),
                forall|j: int| 0 <= j < k ==> !mistyped_at(sf@, doc.fields@, j),
            decreases sf@.len() - k,
        {
            match doc.get(sf[k].0.as_str()) {
                Some(v) => {
                    if !check_type_match(&sf[k].1.field_type, v) {
                        let expected = field_type_to_text(&sf[k].1.field_type);
                        let actual = describe_value_type(v);
                        let field = sf[k].0.clone();
                        assert(mistyped_at(sf@, doc.fields@, k as int) && field@ == sf@[k as int].0@);
                        assert(lookup_model(doc.fields@, sf@[k as int].0@)->Some_0 == v@);
                        let r = Err(ValidationError::TypeMismatch { field, expected, actual });
                        assert(validation_result(self.fields@, doc.fields@, r));
                        return r;
                    }
                },
                None => {},
            }
            k = k + 1;
        }
        Ok(())
    }
}

/// The schemas of a database, by collection name.
#[derive(Debug)]
pub struct SchemaRegistry {
    pub schemas: Vec<Schema>,
    /// Directory the schemas are stored in.
    pub path: String,
}

/// The index of the schema named `name` in `s`, the first one if several are.
pub open spec fn schema_at(s: Seq<Schema>, name: Seq<char>, i: int) -> bool {
    0 <= i < s.len() && s[i].name@ == name && forall|j: int| 0 <= j < i ==> s[j].name@ != name
}

impl SchemaRegistry {
    /// The schemas held, in registration order.
    pub open spec fn entries(&self) -> Seq<Schema> {
        self.schemas@
    }

    /// An empty registry stored under `path`.
    pub fn empty(path: &str) -> (r: SchemaRegistry)
        ensures
            r.entries().len() == 0,
            r.path@ == path@,
    {
        SchemaRegistry { schemas: Vec::new(), path: path.to_owned() }
    }

    /// The schema of collection `name`, if one is registered.
    pub fn get(&self, name: &str) -> (r: Option<&Schema>)
        ensures
            match r {
                Some(s) => exists|i: int| schema_at(self.entries(), name@, i) && self.entries()[i] == *s,
                None => forall|i: int| 0 <= i < self.entries().len() ==> self.entries()[i].name@ != name@,
            },
    {
        let mut i: usize = 0;
        while i < self.schemas.len()
            invariant
                i <= self.schemas@.len(),
                forall|j: int| 0 <= j < i ==> self.schemas@[j].name@ != name@,
            decreases self.schemas@.len() - i,
        {
            if crate::text::str_eq(self.schemas[i].name.as_str(), name) {
                assert(schema_at(self.entries(), name@, i as int));
                return Some(&self.schemas[i]);
            }
            i = i + 1;
        }
        None
    }

    /// Registers `schema`, replacing a schema of the same name.
    pub fn register(&mut self, schema: Schema)
        ensures
            final(self).path == old(self).path,
            exists|i: int| schema_at(final(self).entries(), schema.name@, i) && final(self).entries()[i] == schema,
            forall|n: Seq<char>, i: int|
                n != schema.name@ && schema_at(old(self).entries(), n, i) ==> schema_at(final(self).entries(), n, i)
                    && final(self).entries()[i] == old(self).entries()[i],
    {
        let ghost name = schema.name@;
        let ghost before = self.schemas@;
        let mut i: usize = 0;
        while i < self.schemas.len()
            invariant
                i <= self.schemas@.len(),
                self.schemas@ == before,
                before == old(self).schemas@,
                self.path == old(self).path,
                name == schema.name@,
                forall|j: int| 0 <= j < i ==> self.schemas@[j].name@ != name,
            decreases self.schemas@.len() - i,
        {
            if self.schemas[i].name == schema.name {
                self.schemas.set(i, schema);
                proof {
                    assert(schema_at(self.entries(), name, i as int));
                    assert(self.entries()[i as int] == schema);
                    assert forall|n: Seq<char>, t: int| n != name && schema_at(before, n, t) implies schema_at(self.entries(), n, t)
                        && self.entries()[t] == before[t] by {
                        assert(t != i);
                    }
                }
                return;
            }
            i = i + 1;
        }
        let ghost sc = schema;
        self.schemas.push(schema);
        proof {
            assert(schema_at(self.entries(), name, before.len() as int));
            assert(self.entries()[before.len() as int] == sc);
        }
    }

    /// All registered schemas, in registration order.
    pub fn list(&self) -> (r: &Vec<Schema>)
        ensures
            r@ == self.entries(),
    {
        &self.schemas
    }
}

} // verus!
