//! Documents: an identifier, a map of field values and a free-text body.
use vstd::prelude::*;
use crate::text::{digit_char, digit_of, push_char, nat_text, push_nat_text};

verus! {

/// Ten to the power `n`.
pub open spec fn pow10(n: nat) -> int
    decreases n,
{
    if n == 0 { 1 } else { 10 * pow10((n - 1) as nat) }
}

/// Number of units of a [`Decimal`] in one whole.
pub const DECIMAL_ONE: i128 = 1_000_000_000_000_000_000;

/// A number with a fractional part, held exactly as a whole count of
/// 10^-18 units (`units / 10^18`).
#[derive(Clone, Copy, PartialEq, Eq, Structural, Debug)]
pub struct Decimal {
    pub units: i128,
}

/// The models of field values: what the contracts speak of.
pub enum ValueModel {
    Null,
    Bool(bool),
    Int(i64),
    Float(int),
    String(Seq<char>),
    Array(Seq<ValueModel>),
    Object(Seq<(Seq<char>, ValueModel)>),
}

/// A field value.
#[derive(Debug, PartialEq)]
pub enum Value {
    Null,
    Bool(bool),
    Int(i64),
    Float(Decimal),
    String(String),
    Array(Vec<Value>),
    Object(Vec<(String, Value)>),
}

/// The model of a value: strings become their characters, floats their units.
pub open spec fn value_model(v: Value) -> ValueModel
    decreases v,
{
    match v {
        Value::Null => ValueModel::Null,
        Value::Bool(b) => ValueModel::Bool(b),
        Value::Int(i) => ValueModel::Int(i),
        Value::Float(d) => ValueModel::Float(d.units as int),
        Value::String(s) => ValueModel::String(s@),
        Value::Array(items) => ValueModel::Array(
            Seq::new(
                items@.len(),
                |i: int|
                    if 0 <= i < items@.len() {
                        value_model(items@[i])
                    } else {
                        ValueModel::Null
                    },
            ),
        ),
        Value::Object(entries) => ValueModel::Object(
            Seq::new(
                entries@.len(),
                |i: int|
                    if 0 <= i < entries@.len() {
                        (entries@[i].0@, value_model(entries@[i].1))
                    } else {
                        (Seq::empty(), ValueModel::Null)
                    },
            ),
        ),
    }
}

/// `xs[i]` is the first entry of an object under key `k`.
pub open spec fn first_entry_at(xs: Seq<(Seq<char>, ValueModel)>, k: Seq<char>, i: int) -> bool {
    0 <= i < xs.len() && xs[i].0 == k && forall|j: int| 0 <= j < i ==> xs[j].0 != k
}

/// The value an object holds under key `k`: that of its first entry.
pub open spec fn obj_get(xs: Seq<(Seq<char>, ValueModel)>, k: Seq<char>) -> Option<ValueModel> {
    if exists|i: int| first_entry_at(xs, k, i) {
        Some(xs[choose|i: int| first_entry_at(xs, k, i)].1)
    } else {
        None
    }
}

/// Equality of values: arrays element by element, objects as maps (the same
/// keys, and equal values under each key), everything else as it is.
pub open spec fn model_eq(a: ValueModel, b: ValueModel) -> bool
    decreases a,
{
    match a {
        ValueModel::Array(xs) => match b {
            ValueModel::Array(ys) => xs.len() == ys.len() && forall|i: int|
                0 <= i < xs.len() ==> model_eq(xs[i], #[trigger] ys[i]),
            _ => false,
        },
        ValueModel::Object(xs) => match b {
            ValueModel::Object(ys) => (forall|i: int|
                #[trigger] first_entry_at(xs, xs[i].0, i) ==> (obj_get(ys, xs[i].0) matches Some(w) && model_eq(
                    xs[i].1,
                    w,
                ))) && (forall|j: int| 0 <= j < ys.len() ==> #[trigger] obj_get(xs, ys[j].0) is Some),
            _ => false,
        },
        _ => a == b,
    }
}

impl View for Value {
    type V = ValueModel;

    open spec fn view(&self) -> ValueModel {
        value_model(*self)
    }
}

impl Value {
    /// A copy of this value.
    pub fn copy(&self) -> (r: Value)
        ensures
            r@ == self@,
        decreases self,
    {
        match self {
            Value::Null => Value::Null,
            Value::Bool(b) => Value::Bool(*b),
            Value::Int(i) => Value::Int(*i),
            Value::Float(d) => Value::Float(*d),
            Value::String(s) => Value::String(s.clone()),
            Value::Array(items) => {
                let mut out: Vec<Value> = Vec::new();
                let mut i: usize = 0;
                while i < items.len()
                    invariant
                        *self is Array,
                        self->Array_0 == *items,
                        i <= items@.len(),
                        out@.len() == i,
                        forall|j: int| 0 <= j < i ==> (#[trigger] out@[j])@ == items@[j]@,
                    decreases items@.len() - i,
                {
                    proof {
                        let ghost me: Value = *self;
                        broadcast use vstd::std_specs::vec::axiom_vec_index_decreases;
                        assert(decreases_to!(me => me->Array_0));
                        assert(decreases_to!(me->Array_0 => me->Array_0[i as int]));
                    }
                    let c = items[i].copy();
                    out.push(c);
                    i = i + 1;
                }
                let r = Value::Array(out);
                assert(r@ == self@) by {
                    assert(r@->Array_0 =~= self@->Array_0);
                }
                r
            },
            Value::Object(entries) => {
                let mut out: Vec<(String, Value)> = Vec::new();
                let mut i: usize = 0;
                while i < entries.len()
                    invariant
                        *self is Object,
                        self->Object_0 == *entries,
                        i <= entries@.len(),
                        out@.len() == i,
                        forall|j: int|
                            0 <= j < i ==> (#[trigger] out@[j]).0@ == entries@[j].0@ && out@[j].1@
                                == entries@[j].1@,
                    decreases entries@.len() - i,
                {
                    proof {
                        let ghost me: Value = *self;
                        broadcast use vstd::std_specs::vec::axiom_vec_index_decreases;
                        assert(decreases_to!(me => me->Object_0));
                        assert(decreases_to!(me->Object_0 => me->Object_0[i as int]));
                        assert(decreases_to!(me->Object_0[i as int] => me->Object_0[i as int].1));
                    }
                    let c = entries[i].1.copy();
                    out.push((entries[i].0.clone(), c));
                    i = i + 1;
                }
                let r = Value::Object(out);
                assert(r@ == self@) by {
                    assert(r@->Object_0 =~= self@->Object_0);
                }
                r
            },
        }
    }

    /// The text of a string value.
    pub fn as_str(&self) -> (r: Option<&str>)
        ensures
            r.is_some() == (self is String),
            r.is_some() ==> r.unwrap()@ == self->String_0@,
    {
        match self {
            Value::String(s) => Some(s.as_str()),
            _ => None,
        }
    }

    /// The number of an integer value.
    pub fn as_i64(&self) -> (r: Option<i64>)
        ensures
            r == (if self is Int { Some(self->Int_0) } else { None::<i64> }),
    {
        match self {
            Value::Int(i) => Some(*i),
            _ => None,
        }
    }

    /// The flag of a boolean value.
    pub fn as_bool(&self) -> (r: Option<bool>)
        ensures
            r == (if self is Bool { Some(self->Bool_0) } else { None::<bool> }),
    {
        match self {
            Value::Bool(b) => Some(*b),
            _ => None,
        }
    }

    /// The items of an array value.
    pub fn as_array(&self) -> (r: Option<&Vec<Value>>)
        ensures
            r.is_some() == (self is Array),
            r.is_some() ==> *r.unwrap() == self->Array_0,
    {
        match self {
            Value::Array(a) => Some(a),
            _ => None,
        }
    }
}

/// The text of a decimal as `f64`'s `Display` writes it: the whole part, then
/// a point and the fractional digits without trailing zeros when there are any.
pub open spec fn decimal_text(units: int) -> Seq<char> {
    let mag = if units < 0 { -units } else { units };
    let sign = if units < 0 { seq!['-'] } else { Seq::<char>::empty() };
    let whole = mag / DECIMAL_ONE as int;
    let frac = mag % DECIMAL_ONE as int;
    if frac == 0 {
        sign + nat_text(whole as nat)
    } else {
        sign + nat_text(whole as nat) + seq!['.'] + strip_zeros(fixed_digits(frac as nat, 18))
    }
}

/// The last `w` decimal digits of `n`, leading zeros included.
pub open spec fn fixed_digits(n: nat, w: nat) -> Seq<char>
    decreases w,
{
    if w == 0 {
        Seq::empty()
    } else {
        fixed_digits(n / 10, (w - 1) as nat).push(digit_char((n % 10) as int))
    }
}

/// `s` without its trailing `0` characters.
pub open spec fn strip_zeros(s: Seq<char>) -> Seq<char>
    decreases s.len(),
{
    if s.len() > 0 && s.last() == '0' {
        strip_zeros(s.drop_last())
    } else {
        s
    }
}

fn push_fixed_digits(out: &mut Vec<char>, n: u128, w: u32)
    ensures
        final(out)@ == old(out)@ + fixed_digits(n as nat, w as nat),
    decreases w,
{
    if w == 0 {
        assert(final(out)@ =~= old(out)@ + fixed_digits(n as nat, w as nat));
    } else {
        push_fixed_digits(out, n / 10, w - 1);
        out.push(digit_of(n % 10));
        assert(final(out)@ =~= old(out)@ + fixed_digits(n as nat, w as nat));
    }
}

/// The decimal form of `d`, as `f64`'s `Display` writes the same number.
pub fn decimal_to_text(d: Decimal) -> (r: String)
    ensures
        r@ == decimal_text(d.units as int),
{
    let neg = d.units < 0;
    let mag: u128 = if neg { ((-(d.units + 1)) as u128) + 1 } else { d.units as u128 };
    assert(mag as int == if d.units < 0 { -(d.units as int) } else { d.units as int });
    let one: u128 = DECIMAL_ONE as u128;
    let whole = mag / one;
    let frac = mag % one;
    let mut r = String::new();
    if neg {
        push_char(&mut r, '-');
    }
    push_nat_text(&mut r, whole);
    if frac != 0 {
        push_char(&mut r, '.');
        let mut digits: Vec<char> = Vec::new();
        push_fixed_digits(&mut digits, frac, 18);
        assert(digits@ =~= fixed_digits(frac as nat, 18));
        let mut e: usize = digits.len();
        assert(digits@.subrange(0, e as int) =~= digits@);
        while e > 0 && digits[e - 1] == '0'
            invariant
                e <= digits@.len(),
                strip_zeros(digits@.subrange(0, e as int)) == strip_zeros(digits@),
            decreases e,
        {
            assert(digits@.subrange(0, e as int).drop_last() =~= digits@.subrange(0, e - 1));
            e = e - 1;
        }
        let ghost head = r@;
        let mut i: usize = 0;
        while i < e
            invariant
                i <= e <= digits@.len(),
                r@ == head + digits@.subrange(0, i as int),
            decreases e - i,
        {
            push_char(&mut r, digits[i]);
            i = i + 1;
            assert(r@ =~= head + digits@.subrange(0, i as int));
        }
        assert(digits@.subrange(0, e as int) == strip_zeros(digits@));
    }
    assert(r@ =~= decimal_text(d.units as int));
    r
}

/// A map of field names to values, in insertion order. The first entry with a
/// key is the one that counts.
pub type Fields = Vec<(String, Value)>;

/// `fields[i]` is the first entry whose key is `key`.
pub open spec fn first_key_at(fields: Seq<(String, Value)>, key: Seq<char>, i: int) -> bool {
    &&& 0 <= i < fields.len()
    &&& fields[i].0@ == key
    &&& forall|j: int| 0 <= j < i ==> fields[j].0@ != key
}

/// The value stored under `key`.
pub open spec fn lookup(fields: Seq<(String, Value)>, key: Seq<char>) -> Option<Value> {
    if exists|i: int| first_key_at(fields, key, i) {
        Some(fields[choose|i: int| first_key_at(fields, key, i)].1)
    } else {
        None
    }
}

/// The model of the value stored under `key`.
pub open spec fn lookup_model(fields: Seq<(String, Value)>, key: Seq<char>) -> Option<ValueModel> {
    match lookup(fields, key) {
        Some(v) => Some(v@),
        None => None,
    }
}

/// The index of the first entry under `key`, if any.
pub fn find_field(fields: &Fields, key: &str) -> (r: Option<usize>)
    ensures
        match r {
            Some(i) => first_key_at(fields@, key@, i as int) && lookup(fields@, key@) == Some(
                fields@[i as int].1,
            ),
            None => lookup(fields@, key@).is_none() && forall|j: int|
                0 <= j < fields@.len() ==> fields@[j].0@ != key@,
        },
{
    let mut i: usize = 0;
    while i < fields.len()
        invariant
            i <= fields@.len(),
            forall|j: int| 0 <= j < i ==> fields@[j].0@ != key@,
        decreases fields@.len() - i,
    {
        if crate::text::str_eq(fields[i].0.as_str(), key) {
            proof {
                assert(first_key_at(fields@, key@, i as int));
                let k = choose|k: int| first_key_at(fields@, key@, k);
                assert(k == i) by {
                    if k < i {
                    } else if k > i {
                    }
                };
            }
            return Some(i);
        }
        i = i + 1;
    }
    None
}

/// Metadata about a document that its text does not carry.
#[derive(Debug, Clone)]
pub struct DocumentMeta {
    /// Commit hash of the version last read, if known.
    pub git_hash: Option<String>,
    /// Last modification time, in seconds since the Unix epoch, if known.
    pub modified_at: Option<u64>,
}

/// A document: identifier, relative path, fields and body.
#[derive(Debug)]
pub struct Document {
    pub id: String,
    pub path: String,
    pub fields: Fields,
    pub body: String,
    pub meta: DocumentMeta,
}

/// The path a document with identifier `id` is stored under: `<id>.md`.
pub open spec fn doc_path(id: Seq<char>) -> Seq<char> {
    id + seq!['.', 'm', 'd']
}

/// `fields2` is `fields1` with `key` set to a value whose model is `v`.
pub open spec fn fields_set(fields1: Seq<(String, Value)>, fields2: Seq<(String, Value)>, key: Seq<char>, v: ValueModel) -> bool {
    &&& lookup_model(fields2, key) == Some(v)
    &&& forall|k: Seq<char>| k != key ==> lookup_model(fields2, k) == lookup_model(fields1, k)
}

impl Document {
    /// A document with identifier `id`, no fields and an empty body.
    pub fn new(id: &str) -> (r: Document)
        ensures
            r.id@ == id@,
            r.path@ == doc_path(id@),
            r.fields@.len() == 0,
            r.body@.len() == 0,
            r.meta.git_hash.is_none(),
            r.meta.modified_at.is_none(),
    {
        let mut path = id.to_owned();
        push_char(&mut path, '.');
        push_char(&mut path, 'm');
        push_char(&mut path, 'd');
        assert(path@ =~= doc_path(id@));
        Document {
            id: id.to_owned(),
            path,
            fields: Vec::new(),
            body: String::new(),
            meta: DocumentMeta { git_hash: None, modified_at: None },
        }
    }

    /// Sets field `key` to `value`, replacing what it held.
    pub fn set(&mut self, key: &str, value: Value)
        ensures
            final(self).id == old(self).id,
            final(self).path == old(self).path,
            final(self).body == old(self).body,
            fields_set(old(self).fields@, final(self).fields@, key@, value@),
    {
        let ghost vm = value@;
        match find_field(&self.fields, key) {
            Some(i) => {
                let ghost old_fields = self.fields@;
                self.fields.set(i, (key.to_owned(), value));
                proof {
                    let f = self.fields@;
                    assert(first_key_at(f, key@, i as int));
                    assert forall|k: Seq<char>| k != key@ implies lookup_model(f, k) == lookup_model(old_fields, k) by {
                        if exists|t: int| first_key_at(old_fields, k, t) {
                            let t = choose|t: int| first_key_at(old_fields, k, t);
                            assert(t != i);
                            assert(first_key_at(f, k, t));
                            let u = choose|u: int| first_key_at(f, k, u);
                            assert(u == t) by { if u < t {} else if u > t {} };
                        } else {
                            if exists|t: int| first_key_at(f, k, t) {
                                let t = choose|t: int| first_key_at(f, k, t);
                                assert(t != i);
                                assert forall|j: int| 0 <= j < t implies old_fields[j].0@ != k by {
                                    assert(f[j].0@ != k);
                                }
                                assert(first_key_at(old_fields, k, t));
                            }
                        }
                    }
                    let u = choose|u: int| first_key_at(f, key@, u);
                    assert(u == i) by { if u < i {} else if u > i {} };
                }
            },
            None => {
                let ghost old_fields = self.fields@;
                self.fields.push((key.to_owned(), value));
                proof {
                    let f = self.fields@;
                    let n = old_fields.len() as int;
                    assert(first_key_at(f, key@, n));
                    let u = choose|u: int| first_key_at(f, key@, u);
                    assert(u == n) by { if u < n {} else if u > n {} };
                    assert forall|k: Seq<char>| k != key@ implies lookup_model(f, k) == lookup_model(old_fields, k) by {
                        if exists|t: int| first_key_at(old_fields, k, t) {
                            let t = choose|t: int| first_key_at(old_fields, k, t);
                            assert(first_key_at(f, k, t));
                            let u = choose|u: int| first_key_at(f, k, u);
                            assert(u == t) by { if u < t {} else if u > t {} };
                        } else {
                            if exists|t: int| first_key_at(f, k, t) {
                                let t = choose|t: int| first_key_at(f, k, t);
                                assert(t != n);
                                assert forall|j: int| 0 <= j < t implies old_fields[j].0@ != k by {
                                    assert(f[j].0@ != k);
                                }
                                assert(first_key_at(old_fields, k, t));
                            }
                        }
                    }
                }
            },
        }
    }

    /// The value of field `key`, if the document has it.
    pub fn get(&self, key: &str) -> (r: Option<&Value>)
        ensures
            match r {
                Some(v) => lookup(self.fields@, key@) == Some(*v),
                None => lookup(self.fields@, key@).is_none(),
            },
    {
        match find_field(&self.fields, key) {
            Some(i) => Some(&self.fields[i].1),
            None => None,
        }
    }

    /// This document with its body replaced by `body`.
    pub fn with_body(self, body: String) -> (r: Document)
        ensures
            r.id == self.id,
            r.path == self.path,
            r.fields == self.fields,
            r.body == body,
    {
        let mut d = self;
        d.body = body;
        d
    }
}

} // verus!

verus! {

/// Whether the regular expression `re` matches `text`, as the `regex` crate
/// decides it; an expression that does not compile matches nothing.
pub uninterp spec fn regex_match(re: Seq<char>, text: Seq<char>) -> bool;

/// Relies on `regex::Regex::new` and `Regex::is_match`: compiles `re` and
/// tests `text` against it; `false` when `re` does not compile.
#[verifier::external_body]
fn regex_is_match(re: &str, text: &str) -> (r: bool)
    ensures
        r == regex_match(re@, text@),
{
    regex::Regex::new(re).map(|compiled| compiled.is_match(text)).unwrap_or(false)
}

/// The regular-expression text for one character of a `LIKE` pattern.
pub open spec fn like_piece(c: char) -> Seq<char> {
    if c == '%' {
        seq!['.', '*']
    } else if c == '_' {
        seq!['.']
    } else {
        seq![c]
    }
}

/// A `LIKE` pattern with `%` and `_` turned into `.*` and `.`.
pub open spec fn like_body(p: Seq<char>) -> Seq<char>
    decreases p.len(),
{
    if p.len() == 0 {
        Seq::empty()
    } else {
        like_body(p.drop_last()) + like_piece(p.last())
    }
}

/// The anchored regular expression a `LIKE` pattern stands for.
pub open spec fn like_regex(p: Seq<char>) -> Seq<char> {
    seq!['^'] + like_body(p) + seq!['$']
}

/// Whether a value matches a `LIKE` pattern: only strings can.
pub open spec fn like_matches(v: ValueModel, pattern: Seq<char>) -> bool {
    match v {
        ValueModel::String(s) => regex_match(like_regex(pattern), s),
        _ => false,
    }
}

/// The regular expression for a `LIKE` pattern.
pub fn like_to_regex(pattern: &str) -> (r: String)
    ensures
        r@ == like_regex(pattern@),
{
    let p = crate::text::chars_of(pattern);
    let mut r = String::new();
    push_char(&mut r, '^');
    let mut i: usize = 0;
    while i < p.len()
        invariant
            p@ == pattern@,
            i <= p@.len(),
            r@ == seq!['^'] + like_body(p@.subrange(0, i as int)),
        decreases p@.len() - i,
    {
        let c = p[i];
        if c == '%' {
            push_char(&mut r, '.');
            push_char(&mut r, '*');
        } else if c == '_' {
            push_char(&mut r, '.');
        } else {
            push_char(&mut r, c);
        }
        proof {
            let s = p@.subrange(0, i + 1);
            assert(s.drop_last() =~= p@.subrange(0, i as int));
        }
        i = i + 1;
        assert(r@ =~= seq!['^'] + like_body(p@.subrange(0, i as int)));
    }
    push_char(&mut r, '$');
    assert(p@.subrange(0, p@.len() as int) =~= p@);
    assert(r@ =~= like_regex(pattern@));
    r
}

impl Value {
    /// Whether this value matches a `LIKE` pattern (`%`: any run of
    /// characters, `_`: one character, anchored at both ends).
    pub fn matches_pattern(&self, pattern: &str) -> (r: bool)
        ensures
            r == like_matches(self@, pattern@),
    {
        match self {
            Value::String(s) => {
                let re = like_to_regex(pattern);
                regex_is_match(re.as_str(), s.as_str())
            },
            _ => false,
        }
    }
}

} // verus!

verus! {

/// `f1` and `f2` hold the same keys and values in the same order.
pub open spec fn same_fields(f1: Seq<(String, Value)>, f2: Seq<(String, Value)>) -> bool {
    &&& f1.len() == f2.len()
    &&& forall|i: int| 0 <= i < f1.len() ==> (#[trigger] f1[i]).0@ == f2[i].0@ && f1[i].1@ == f2[i].1@
}

/// `a` is a faithful copy of `b`: same id, path, body and fields.
pub open spec fn same_doc(a: Document, b: Document) -> bool {
    &&& a.id@ == b.id@
    &&& a.path@ == b.path@
    &&& a.body@ == b.body@
    &&& same_fields(a.fields@, b.fields@)
}

/// Same fields give the same lookups.
pub proof fn lemma_same_fields_lookup(f1: Seq<(String, Value)>, f2: Seq<(String, Value)>, k: Seq<char>)
    requires
        same_fields(f1, f2),
    ensures
        lookup_model(f1, k) == lookup_model(f2, k),
{
    if exists|i: int| first_key_at(f1, k, i) {
        let i = choose|i: int| first_key_at(f1, k, i);
        assert(first_key_at(f2, k, i)) by {
            assert forall|j: int| 0 <= j < i implies f2[j].0@ != k by {
                assert(f1[j].0@ != k);
            }
        }
        let u = choose|u: int| first_key_at(f2, k, u);
        assert(u == i) by { if u < i {} else if u > i {} };
    } else if exists|i: int| first_key_at(f2, k, i) {
        let i = choose|i: int| first_key_at(f2, k, i);
        assert(first_key_at(f1, k, i)) by {
            assert forall|j: int| 0 <= j < i implies f1[j].0@ != k by {
                assert(f2[j].0@ != k);
            }
        }
    }
}

impl Document {
    /// A copy of this document.
    pub fn copy(&self) -> (r: Document)
        ensures
            same_doc(r, *self),
            r.id == self.id,
            r.path == self.path,
            r.body == self.body,
    {
        let mut fields: Vec<(String, Value)> = Vec::new();
        let mut i: usize = 0;
        while i < self.fields.len()
            invariant
                i <= self.fields@.len(),
                fields@.len() == i,
                forall|j: int| 0 <= j < i ==> (#[trigger] fields@[j]).0@ == self.fields@[j].0@ && fields@[j].1@
                    == self.fields@[j].1@,
            decreases self.fields@.len() - i,
        {
            let v = self.fields[i].1.copy();
            fields.push((self.fields[i].0.clone(), v));
            i = i + 1;
        }
        Document {
            id: self.id.clone(),
            path: self.path.clone(),
            fields,
            body: self.body.clone(),
            meta: DocumentMeta {
                git_hash: match &self.meta.git_hash {
                    Some(h) => Some(h.clone()),
                    None => None,
                },
                modified_at: self.meta.modified_at,
            },
        }
    }
}

} // verus!

verus! {

/// A key that some entry has is found by a lookup.
pub proof fn lemma_has_key_lookup(fields: Seq<(String, Value)>, k: Seq<char>, i: int)
    requires
        0 <= i < fields.len(),
        fields[i].0@ == k,
    ensures
        lookup_model(fields, k) is Some,
{
    assert(exists|t: int| first_key_at(fields, k, t)) by {
        lemma_first_key_exists(fields, k, i);
    }
}

proof fn lemma_first_key_exists(fields: Seq<(String, Value)>, k: Seq<char>, i: int)
    requires
        0 <= i < fields.len(),
        fields[i].0@ == k,
    ensures
        exists|t: int| first_key_at(fields, k, t),
    decreases i,
{
    if exists|j: int| 0 <= j < i && fields[j].0@ == k {
        let j = choose|j: int| 0 <= j < i && fields[j].0@ == k;
        lemma_first_key_exists(fields, k, j);
    } else {
        assert(first_key_at(fields, k, i));
    }
}

/// A key that no entry has is not found.
pub proof fn lemma_no_key_lookup(fields: Seq<(String, Value)>, k: Seq<char>)
    requires
        forall|j: int| 0 <= j < fields.len() ==> fields[j].0@ != k,
    ensures
        lookup_model(fields, k) is None,
{
}

} // verus!
