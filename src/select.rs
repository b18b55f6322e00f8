//! The `SELECT` pipeline over a list of documents: filter, sort,
//! paginate, project.
use vstd::prelude::*;
use crate::ast::{Column, Expr, OrderBy, OrderDirection, SelectStmt};
use crate::document::{lookup_model, same_doc, Document, Value, ValueModel};
use crate::filter::{evaluate, satisfies, sign_cmp, text_cmp, text_compare};

verus! {

/// Whether a document passes an optional filter.
pub open spec fn passes(w: Option<Expr>, d: Document) -> bool {
    match w {
        Some(e) => satisfies(e, d),
        None => true,
    }
}

/// Indices of the documents that pass the filter, in order.
pub open spec fn matching(docs: Seq<Document>, w: Option<Expr>) -> Seq<int>
    decreases docs.len(),
{
    if docs.len() == 0 {
        Seq::empty()
    } else if passes(w, docs.last()) {
        matching(docs.drop_last(), w).push(docs.len() - 1)
    } else {
        matching(docs.drop_last(), w)
    }
}

/// Sort order of two optional field values: a missing value first, then
/// integers, decimals, strings and booleans among themselves; other pairings
/// are equal.
pub open spec fn key_cmp(a: Option<ValueModel>, b: Option<ValueModel>) -> int {
    match (a, b) {
        (None, None) => 0,
        (None, Some(_)) => -1,
        (Some(_), None) => 1,
        (Some(ValueModel::Int(x)), Some(ValueModel::Int(y))) => sign_cmp(x as int, y as int),
        (Some(ValueModel::Float(x)), Some(ValueModel::Float(y))) => sign_cmp(x, y),
        (Some(ValueModel::String(x)), Some(ValueModel::String(y))) => text_cmp(x, y),
        (Some(ValueModel::Bool(x)), Some(ValueModel::Bool(y))) => sign_cmp(if x { 1 } else { 0 }, if y { 1 } else { 0 }),
        _ => 0,
    }
}

/// Order of two documents under `ORDER BY` keys: the first key on which they
/// differ decides, reversed for `DESC`.
pub open spec fn order_cmp(keys: Seq<OrderBy>, a: Document, b: Document) -> int
    decreases keys.len(),
{
    if keys.len() == 0 {
        0
    } else {
        let c = key_cmp(lookup_model(a.fields@, keys[0].column@), lookup_model(b.fields@, keys[0].column@));
        if c != 0 {
            if keys[0].direction == OrderDirection::Desc { -c } else { c }
        } else {
            order_cmp(keys.subrange(1, keys.len() as int), a, b)
        }
    }
}

/// Where `d` goes among the sorted indices `s`: before the first document
/// that sorts after it.
pub open spec fn insert_pos(docs: Seq<Document>, s: Seq<int>, keys: Seq<OrderBy>, d: Document) -> int
    decreases s.len(),
{
    if s.len() == 0 {
        0
    } else {
        let f = insert_pos(docs, s.drop_last(), keys, d);
        if f < s.len() - 1 {
            f
        } else if order_cmp(keys, docs[s.last()], d) > 0 {
            s.len() - 1
        } else {
            s.len() as int
        }
    }
}

/// The indices `idx` stably sorted by `keys`.
pub open spec fn sort_indices(docs: Seq<Document>, idx: Seq<int>, keys: Seq<OrderBy>) -> Seq<int>
    decreases idx.len(),
{
    if idx.len() == 0 {
        Seq::empty()
    } else {
        let s = sort_indices(docs, idx.drop_last(), keys);
        s.insert(insert_pos(docs, s, keys, docs[idx.last()]), idx.last())
    }
}

/// `OFFSET` then `LIMIT` applied to a sequence.
pub open spec fn page(s: Seq<int>, offset: Option<usize>, limit: Option<usize>) -> Seq<int> {
    let a = match offset {
        Some(o) => if o < s.len() { s.subrange(o as int, s.len() as int) } else { Seq::empty() },
        None => s,
    };
    match limit {
        Some(l) => if l < a.len() { a.subrange(0, l as int) } else { a },
        None => a,
    }
}

/// The indices a `SELECT` returns, in order.
pub open spec fn selected(docs: Seq<Document>, stmt: SelectStmt) -> Seq<int> {
    page(sort_indices(docs, matching(docs, stmt.where_clause), stmt.order_by@), stmt.offset, stmt.limit)
}

/// Some column is `*`.
pub open spec fn has_star(columns: Seq<Column>) -> bool {
    exists|c: int| 0 <= c < columns.len() && columns[c] is Star
}

/// Some column names field `k`.
pub open spec fn selects_field(columns: Seq<Column>, k: Seq<char>) -> bool {
    exists|c: int| 0 <= c < columns.len() && columns[c] is Field && (#[trigger] columns[c])->Field_0@ == k
}

/// `r` is `d` projected on `columns`: all of `d` when a column is `*`, else
/// `d`'s identity and body with only the named fields it has.
pub open spec fn projected(r: Document, d: Document, columns: Seq<Column>) -> bool {
    &&& r.id@ == d.id@
    &&& r.body@ == d.body@
    &&& r.path@ == d.path@
    &&& if has_star(columns) {
        same_doc(r, d)
    } else {
        forall|k: Seq<char>|
            #[trigger] lookup_model(r.fields@, k) == if selects_field(columns, k) {
                lookup_model(d.fields@, k)
            } else {
                None
            }
    }
}

/// The sequence of `usize` as integers.
pub open spec fn ints(v: Seq<usize>) -> Seq<int> {
    Seq::new(v.len(), |i: int| v[i] as int)
}

/// Indices of the documents that pass the filter.
pub fn matching_indices(docs: &Vec<Document>, w: &Option<Expr>) -> (r: Vec<usize>)
    ensures
        ints(r@) == matching(docs@, *w),
        forall|k: int| 0 <= k < r@.len() ==> r@[k] < docs@.len(),
{
    let mut r: Vec<usize> = Vec::new();
    let mut i: usize = 0;
    while i < docs.len()
        invariant
            i <= docs@.len(),
            ints(r@) == matching(docs@.subrange(0, i as int), *w),
            forall|k: int| 0 <= k < r@.len() ==> r@[k] < i,
        decreases docs@.len() - i,
    {
        let keep = match w {
            Some(e) => evaluate(e, &docs[i]),
            None => true,
        };
        proof {
            let next = docs@.subrange(0, i + 1);
            assert(next.drop_last() =~= docs@.subrange(0, i as int));
            assert(next.last() == docs@[i as int]);
        }
        if keep {
            r.push(i);
        }
        i = i + 1;
        assert(ints(r@) =~= matching(docs@.subrange(0, i as int), *w));
    }
    assert(docs@.subrange(0, docs@.len() as int) =~= docs@);
    r
}

/// Sort order of two optional field values (see [`key_cmp`]).
pub fn compare_opt_values(a: Option<&Value>, b: Option<&Value>) -> (r: i32)
    ensures
        -1 <= r <= 1,
        r as int == key_cmp(
            match a { Some(v) => Some(v@), None => None },
            match b { Some(v) => Some(v@), None => None },
        ),
{
    match (a, b) {
        (None, None) => 0,
        (None, Some(_)) => -1,
        (Some(_), None) => 1,
        (Some(Value::Int(x)), Some(Value::Int(y))) => if *x < *y { -1 } else if *x > *y { 1 } else { 0 },
        (Some(Value::Float(x)), Some(Value::Float(y))) => if x.units < y.units { -1 } else if x.units > y.units { 1 } else { 0 },
        (Some(Value::String(x)), Some(Value::String(y))) => text_compare(x.as_str(), y.as_str()),
        (Some(Value::Bool(x)), Some(Value::Bool(y))) => if !*x && *y { -1 } else if *x && !*y { 1 } else { 0 },
        _ => 0,
    }
}

/// Order of two documents under `ORDER BY` keys (see [`order_cmp`]).
pub fn compare_docs(keys: &Vec<OrderBy>, a: &Document, b: &Document) -> (r: i32)
    ensures
        r as int == order_cmp(keys@, *a, *b),
{
    let mut i: usize = 0;
    assert(keys@.subrange(0, keys@.len() as int) =~= keys@);
    while i < keys.len()
        invariant
            i <= keys@.len(),
            order_cmp(keys@, *a, *b) == order_cmp(keys@.subrange(i as int, keys@.len() as int), *a, *b),
        decreases keys@.len() - i,
    {
        let c = compare_opt_values(a.get(keys[i].column.as_str()), b.get(keys[i].column.as_str()));
        proof {
            let rest = keys@.subrange(i as int, keys@.len() as int);
            assert(rest[0] == keys@[i as int]);
            assert(rest.subrange(1, rest.len() as int) =~= keys@.subrange(i + 1, keys@.len() as int));
        }
        if c != 0 {
            return match keys[i].direction {
                OrderDirection::Desc => -c,
                OrderDirection::Asc => c,
            };
        }
        i = i + 1;
    }
    0
}

/// The indices `idx` stably sorted by `keys` (insertion sort).
pub fn sort_by_keys(docs: &Vec<Document>, idx: Vec<usize>, keys: &Vec<OrderBy>) -> (r: Vec<usize>)
    requires
        forall|k: int| 0 <= k < idx@.len() ==> idx@[k] < docs@.len(),
    ensures
        ints(r@) == sort_indices(docs@, ints(idx@), keys@),
        forall|k: int| 0 <= k < r@.len() ==> r@[k] < docs@.len(),
{
    let mut out: Vec<usize> = Vec::new();
    let mut i: usize = 0;
    while i < idx.len()
        invariant
            i <= idx@.len(),
            forall|k: int| 0 <= k < idx@.len() ==> idx@[k] < docs@.len(),
            ints(out@) == sort_indices(docs@, ints(idx@.subrange(0, i as int)), keys@),
            forall|k: int| 0 <= k < out@.len() ==> out@[k] < docs@.len(),
        decreases idx@.len() - i,
    {
        let d = idx[i];
        let mut pos: usize = 0;
        let mut j: usize = 0;
        while j < out.len()
            invariant
                j <= out@.len(),
                d < docs@.len(),
                forall|k: int| 0 <= k < out@.len() ==> out@[k] < docs@.len(),
                pos as int == insert_pos(docs@, ints(out@).subrange(0, j as int), keys@, docs@[d as int]),
                pos <= j,
            decreases out@.len() - j,
        {
            proof {
                let s = ints(out@).subrange(0, j + 1);
                assert(s.drop_last() =~= ints(out@).subrange(0, j as int));
                assert(s.last() == out@[j as int] as int);
            }
            if pos < j {
            } else if compare_docs(keys, &docs[out[j]], &docs[d]) > 0 {
                pos = j;
            } else {
                pos = j + 1;
            }
            j = j + 1;
        }
        proof {
            assert(ints(out@).subrange(0, out@.len() as int) =~= ints(out@));
            let pre = ints(idx@.subrange(0, i + 1));
            assert(pre.drop_last() =~= ints(idx@.subrange(0, i as int)));
            assert(pre.last() == d as int);
        }
        let ghost before = out@;
        out.insert(pos, d);
        proof {
            assert(ints(out@) =~= ints(before).insert(pos as int, d as int));
            assert forall|k: int| 0 <= k < out@.len() implies out@[k] < docs@.len() by {
                if k < pos {
                    assert(out@[k] == before[k]);
                } else if k > pos {
                    assert(out@[k] == before[k - 1]);
                }
            }
        }
        i = i + 1;
    }
    assert(idx@.subrange(0, idx@.len() as int) =~= idx@);
    out
}

/// `OFFSET` then `LIMIT`.
pub fn paginate(v: Vec<usize>, offset: Option<usize>, limit: Option<usize>) -> (r: Vec<usize>)
    ensures
        ints(r@) == page(ints(v@), offset, limit),
        exists|a: int| 0 <= a && a + r@.len() <= v@.len() && r@ == #[trigger] v@.subrange(a, a + r@.len()),
{
    let n = v.len();
    let mut r: Vec<usize> = Vec::new();
    let start: usize = match offset {
        Some(o) => if o < n { o } else { n },
        None => 0,
    };
    let avail = n - start;
    let count: usize = match limit {
        Some(l) => if l < avail { l } else { avail },
        None => avail,
    };
    let mut i: usize = 0;
    while i < count
        invariant
            start + count <= n == v@.len(),
            i <= count,
            r@ == v@.subrange(start as int, start + i),
        decreases count - i,
    {
        r.push(v[start + i]);
        i = i + 1;
        assert(r@ =~= v@.subrange(start as int, start + i));
    }
    assert(ints(r@) =~= page(ints(v@), offset, limit));
    assert(r@ == v@.subrange(start as int, start + r@.len()));
    r
}

/// `d` projected on `columns`: a copy when some column is `*`, else its
/// identity and body with the named fields it has.
pub fn project_columns(d: &Document, columns: &Vec<Column>) -> (r: Document)
    ensures
        projected(r, *d, columns@),
{
    if any_star(columns) {
        return d.copy();
    }
    let mut r = Document::new(d.id.as_str());
    r.body = d.body.clone();
    r.path = d.path.clone();
    let mut i: usize = 0;
    while i < columns.len()
        invariant
            i <= columns@.len(),
            r.id@ == d.id@,
            r.body@ == d.body@,
            r.path@ == d.path@,
            forall|k: Seq<char>|
                #[trigger] lookup_model(r.fields@, k) == if selects_field(columns@.subrange(0, i as int), k) {
                    lookup_model(d.fields@, k)
                } else {
                    None
                },
        decreases columns@.len() - i,
    {
        let ghost before = r.fields@;
        match &columns[i] {
            Column::Field(name) => {
                match d.get(name.as_str()) {
                    Some(v) => {
                        let c = v.copy();
                        r.set(name.as_str(), c);
                    },
                    None => {},
                }
                assert(lookup_model(r.fields@, name@) == lookup_model(d.fields@, name@));
            },
            _ => {},
        }
        proof {
            lemma_project_step(before, r.fields@, d.fields@, columns@, i as int);
        }
        i = i + 1;
    }
    assert(columns@.subrange(0, columns@.len() as int) =~= columns@);
    r
}

proof fn lemma_project_step(
    before: Seq<(String, Value)>,
    after: Seq<(String, Value)>,
    dfields: Seq<(String, Value)>,
    columns: Seq<Column>,
    i: int,
)
    requires
        0 <= i < columns.len(),
        forall|k: Seq<char>|
            #[trigger] lookup_model(before, k) == if selects_field(columns.subrange(0, i), k) {
                lookup_model(dfields, k)
            } else {
                None
            },
        columns[i] is Field ==> (forall|k: Seq<char>| k != columns[i]->Field_0@ ==> #[trigger] lookup_model(after, k) == lookup_model(before, k))
            && lookup_model(after, columns[i]->Field_0@) == lookup_model(dfields, columns[i]->Field_0@),
        !(columns[i] is Field) ==> after == before,
    ensures
        forall|k: Seq<char>|
            #[trigger] lookup_model(after, k) == if selects_field(columns.subrange(0, i + 1), k) {
                lookup_model(dfields, k)
            } else {
                None
            },
{
    let pre = columns.subrange(0, i);
    let cols = columns.subrange(0, i + 1);
    assert forall|k: Seq<char>| #[trigger] lookup_model(after, k) == if selects_field(cols, k) {
        lookup_model(dfields, k)
    } else {
        None
    } by {
        assert(lookup_model(before, k) == if selects_field(pre, k) { lookup_model(dfields, k) } else { None });
        if selects_field(pre, k) {
            let c = choose|c: int| 0 <= c < pre.len() && pre[c] is Field && (#[trigger] pre[c])->Field_0@ == k;
            assert(cols[c] == pre[c]);
        }
        assert(cols[i] == columns[i]);
        if columns[i] is Field && columns[i]->Field_0@ == k {
            assert(selects_field(cols, k));
        } else {
            assert(lookup_model(after, k) == lookup_model(before, k));
        }
        if selects_field(cols, k) {
            let c = choose|c: int| 0 <= c < cols.len() && cols[c] is Field && (#[trigger] cols[c])->Field_0@ == k;
            if c < i {
                assert(pre[c] == cols[c]);
                assert(selects_field(pre, k));
            }
        } else {
            assert forall|c: int| 0 <= c < pre.len() implies !(pre[c] is Field && (#[trigger] pre[c])->Field_0@ == k) by {
                assert(pre[c] == cols[c]);
            }
        }
    }
}

/// Whether some column is `*`.
pub fn any_star(columns: &Vec<Column>) -> (r: bool)
    ensures
        r == has_star(columns@),
{
    let mut i: usize = 0;
    while i < columns.len()
        invariant
            i <= columns@.len(),
            forall|c: int| 0 <= c < i ==> !(columns@[c] is Star),
        decreases columns@.len() - i,
    {
        if let Column::Star = &columns[i] {
            return true;
        }
        i = i + 1;
    }
    false
}

/// Runs a `SELECT` over `docs`: keeps the documents that pass the filter,
/// sorts them stably by the `ORDER BY` keys, applies `OFFSET` (an offset at
/// or past the end gives nothing) and `LIMIT`, and projects them on the
/// columns.
pub fn select_documents(docs: &Vec<Document>, stmt: &SelectStmt) -> (r: Vec<Document>)
    ensures
        r@.len() == selected(docs@, *stmt).len(),
        forall|k: int| 0 <= k < r@.len() ==> projected(#[trigger] r@[k], docs@[selected(docs@, *stmt)[k]], stmt.columns@),
{
    let idx = matching_indices(docs, &stmt.where_clause);
    let sorted = sort_by_keys(docs, idx, &stmt.order_by);
    let ghost sorted_view = sorted@;
    let paged = paginate(sorted, stmt.offset, stmt.limit);
    proof {
        let a = choose|a: int| 0 <= a && a + paged@.len() <= sorted_view.len() && paged@ == #[trigger] sorted_view.subrange(a, a + paged@.len());
        assert forall|k: int| 0 <= k < paged@.len() implies paged@[k] < docs@.len() by {
            assert(paged@[k] == sorted_view[a + k]);
        }
    }
    let star = any_star(&stmt.columns);
    let mut out: Vec<Document> = Vec::new();
    let mut i: usize = 0;
    while i < paged.len()
        invariant
            ints(paged@) == selected(docs@, *stmt),
            forall|k: int| 0 <= k < paged@.len() ==> paged@[k] < docs@.len(),
            star == has_star(stmt.columns@),
            i <= paged@.len(),
            out@.len() == i,
            forall|k: int| 0 <= k < i ==> projected(#[trigger] out@[k], docs@[paged@[k] as int], stmt.columns@),
        decreases paged@.len() - i,
    {
        let d = &docs[paged[i]];
        let p = if star { d.copy() } else { project_columns(d, &stmt.columns) };
        assert(projected(p, *d, stmt.columns@));
        out.push(p);
        i = i + 1;
    }
    proof {
        assert forall|k: int| 0 <= k < out@.len() implies projected(#[trigger] out@[k], docs@[selected(docs@, *stmt)[k]], stmt.columns@) by {
            assert(selected(docs@, *stmt)[k] == paged@[k] as int);
        }
    }
    out
}

} // verus!

verus! {

/// Sorting keeps the number of indices.
pub proof fn lemma_sort_len(docs: Seq<Document>, idx: Seq<int>, keys: Seq<OrderBy>)
    ensures
        sort_indices(docs, idx, keys).len() == idx.len(),
    decreases idx.len(),
{
    if idx.len() > 0 {
        lemma_sort_len(docs, idx.drop_last(), keys);
        lemma_insert_pos_bound(docs, sort_indices(docs, idx.drop_last(), keys), keys, docs[idx.last()]);
    }
}

proof fn lemma_insert_pos_bound(docs: Seq<Document>, s: Seq<int>, keys: Seq<OrderBy>, d: Document)
    ensures
        0 <= insert_pos(docs, s, keys, d) <= s.len(),
    decreases s.len(),
{
    if s.len() > 0 {
        lemma_insert_pos_bound(docs, s.drop_last(), keys, d);
    }
}

/// An `OFFSET` at or past the number of matching documents selects nothing
/// (and is no error).
pub proof fn lemma_offset_past_end(docs: Seq<Document>, stmt: SelectStmt)
    requires
        stmt.offset matches Some(o) && o >= matching(docs, stmt.where_clause).len(),
    ensures
        selected(docs, stmt).len() == 0,
{
    lemma_sort_len(docs, matching(docs, stmt.where_clause), stmt.order_by@);
}

/// `LIMIT l OFFSET o` selects the sorted matching documents from position
/// `o`, at most `l` of them, in order.
pub proof fn lemma_limit_offset(docs: Seq<Document>, stmt: SelectStmt, o: usize, l: usize)
    requires
        stmt.offset == Some(o),
        stmt.limit == Some(l),
    ensures
        ({
            let s = sort_indices(docs, matching(docs, stmt.where_clause), stmt.order_by@);
            let n = if o >= s.len() { 0 } else if s.len() - o < l { s.len() - o } else { l as int };
            &&& selected(docs, stmt).len() == n
            &&& forall|k: int| 0 <= k < n ==> selected(docs, stmt)[k] == s[o + k]
        }),
{
}

} // verus!

verus! {

proof fn lemma_text_cmp_antisym(a: Seq<char>, b: Seq<char>)
    ensures
        text_cmp(a, b) == -text_cmp(b, a),
    decreases a.len(),
{
    if a.len() > 0 && b.len() > 0 && a[0] == b[0] {
        lemma_text_cmp_antisym(a.drop_first(), b.drop_first());
    }
}

proof fn lemma_key_cmp_antisym(a: Option<ValueModel>, b: Option<ValueModel>)
    ensures
        key_cmp(a, b) == -key_cmp(b, a),
{
    match (a, b) {
        (Some(ValueModel::String(x)), Some(ValueModel::String(y))) => lemma_text_cmp_antisym(x, y),
        _ => {},
    }
}

/// Swapping two documents negates their order under `ORDER BY` keys.
pub proof fn lemma_order_cmp_antisym(keys: Seq<OrderBy>, a: Document, b: Document)
    ensures
        order_cmp(keys, a, b) == -order_cmp(keys, b, a),
    decreases keys.len(),
{
    if keys.len() > 0 {
        lemma_key_cmp_antisym(lookup_model(a.fields@, keys[0].column@), lookup_model(b.fields@, keys[0].column@));
        lemma_order_cmp_antisym(keys.subrange(1, keys.len() as int), a, b);
    }
}

/// `s` lists documents in key order, ties in increasing index order.
pub open spec fn in_key_order(docs: Seq<Document>, s: Seq<int>, keys: Seq<OrderBy>) -> bool {
    forall|k: int|
        0 <= k < s.len() - 1 ==> order_cmp(keys, docs[#[trigger] s[k]], docs[s[k + 1]]) <= 0 && (order_cmp(
            keys,
            docs[s[k]],
            docs[s[k + 1]],
        ) == 0 ==> s[k] < s[k + 1])
}

/// `idx` holds increasing indices of `docs`.
pub open spec fn increasing(docs: Seq<Document>, idx: Seq<int>) -> bool {
    &&& forall|k: int| 0 <= k < idx.len() ==> 0 <= #[trigger] idx[k] < docs.len()
    &&& forall|j: int, k: int| 0 <= j < k < idx.len() ==> idx[j] < idx[k]
}

proof fn lemma_insert_pos_facts(docs: Seq<Document>, s: Seq<int>, keys: Seq<OrderBy>, d: Document)
    requires
        forall|k: int| 0 <= k < s.len() ==> 0 <= #[trigger] s[k] < docs.len(),
    ensures
        0 <= insert_pos(docs, s, keys, d) <= s.len(),
        forall|k: int| 0 <= k < insert_pos(docs, s, keys, d) ==> order_cmp(keys, docs[#[trigger] s[k]], d) <= 0,
        insert_pos(docs, s, keys, d) < s.len() ==> order_cmp(keys, docs[s[insert_pos(docs, s, keys, d)]], d) > 0,
    decreases s.len(),
{
    if s.len() > 0 {
        lemma_insert_pos_facts(docs, s.drop_last(), keys, d);
        let f = insert_pos(docs, s.drop_last(), keys, d);
        assert forall|k: int| 0 <= k < s.len() - 1 implies s.drop_last()[k] == s[k] by {}
    }
}

proof fn lemma_sort_contents(docs: Seq<Document>, idx: Seq<int>, keys: Seq<OrderBy>)
    requires
        forall|k: int| 0 <= k < idx.len() ==> 0 <= #[trigger] idx[k] < docs.len(),
    ensures
        sort_indices(docs, idx, keys).len() == idx.len(),
        forall|k: int|
            0 <= k < sort_indices(docs, idx, keys).len() ==> exists|j: int|
                0 <= j < idx.len() && #[trigger] sort_indices(docs, idx, keys)[k] == idx[j],
    decreases idx.len(),
{
    lemma_sort_len(docs, idx, keys);
    if idx.len() > 0 {
        let pre = idx.drop_last();
        lemma_sort_contents(docs, pre, keys);
        let s = sort_indices(docs, pre, keys);
        lemma_insert_pos_bound(docs, s, keys, docs[idx.last()]);
        let p = insert_pos(docs, s, keys, docs[idx.last()]);
        let r = s.insert(p, idx.last());
        assert forall|k: int| 0 <= k < r.len() implies exists|j: int| 0 <= j < idx.len() && #[trigger] r[k] == idx[j] by {
            if k < p {
                let j = choose|j: int| 0 <= j < pre.len() && s[k] == pre[j];
                assert(r[k] == idx[j]);
            } else if k == p {
                assert(r[k] == idx[idx.len() - 1]);
            } else {
                let j = choose|j: int| 0 <= j < pre.len() && s[k - 1] == pre[j];
                assert(r[k] == idx[j]);
            }
        }
    }
}

/// Sorting by `ORDER BY` keys puts each document at or before the next in
/// key order, and documents that tie stay in scan order.
pub proof fn lemma_sorted(docs: Seq<Document>, idx: Seq<int>, keys: Seq<OrderBy>)
    requires
        increasing(docs, idx),
    ensures
        in_key_order(docs, sort_indices(docs, idx, keys), keys),
    decreases idx.len(),
{
    if idx.len() > 0 {
        let pre = idx.drop_last();
        assert(increasing(docs, pre));
        lemma_sorted(docs, pre, keys);
        lemma_sort_contents(docs, pre, keys);
        let s = sort_indices(docs, pre, keys);
        let i = idx.last();
        let d = docs[i];
        lemma_insert_pos_facts(docs, s, keys, d);
        let p = insert_pos(docs, s, keys, d);
        let r = s.insert(p, i);
        assert forall|k: int| 0 <= k < r.len() - 1 implies order_cmp(keys, docs[#[trigger] r[k]], docs[r[k + 1]]) <= 0 && (
        order_cmp(keys, docs[r[k]], docs[r[k + 1]]) == 0 ==> r[k] < r[k + 1]) by {
            if k + 1 < p {
                assert(r[k] == s[k] && r[k + 1] == s[k + 1]);
            } else if k + 1 == p {
                assert(r[k] == s[k] && r[k + 1] == i);
                let j = choose|j: int| 0 <= j < pre.len() && s[k] == pre[j];
                assert(pre[j] < i);
            } else if k == p {
                assert(r[k] == i && r[k + 1] == s[p]);
                lemma_order_cmp_antisym(keys, docs[s[p]], d);
            } else {
                assert(r[k] == s[k - 1] && r[k + 1] == s[k]);
            }
        }
    }
}

/// The documents a `SELECT` keeps, sorted: exactly the matching ones, in
/// key order, ties in scan order.
pub proof fn lemma_select_sorted(docs: Seq<Document>, stmt: SelectStmt)
    ensures
        in_key_order(docs, sort_indices(docs, matching(docs, stmt.where_clause), stmt.order_by@), stmt.order_by@),
        sort_indices(docs, matching(docs, stmt.where_clause), stmt.order_by@).len() == matching(docs, stmt.where_clause).len(),
        forall|j: int|
            #![trigger matching(docs, stmt.where_clause)[j]]
            0 <= j < matching(docs, stmt.where_clause).len() ==> exists|k: int|
                0 <= k < matching(docs, stmt.where_clause).len() && #[trigger] sort_indices(
                    docs,
                    matching(docs, stmt.where_clause),
                    stmt.order_by@,
                )[k] == matching(docs, stmt.where_clause)[j],
{
    lemma_matching_increasing(docs, stmt.where_clause);
    lemma_sorted(docs, matching(docs, stmt.where_clause), stmt.order_by@);
    lemma_sort_permutes(docs, matching(docs, stmt.where_clause), stmt.order_by@);
}

/// The matching indices increase.
pub proof fn lemma_matching_increasing(docs: Seq<Document>, w: Option<Expr>)
    ensures
        increasing(docs, matching(docs, w)),
    decreases docs.len(),
{
    if docs.len() > 0 {
        lemma_matching_increasing(docs.drop_last(), w);
    }
}

} // verus!

verus! {

/// Sorting neither loses nor adds indices: every index of `idx` appears in
/// the result, which has the same length.
pub proof fn lemma_sort_permutes(docs: Seq<Document>, idx: Seq<int>, keys: Seq<OrderBy>)
    requires
        forall|k: int| 0 <= k < idx.len() ==> 0 <= #[trigger] idx[k] < docs.len(),
    ensures
        sort_indices(docs, idx, keys).len() == idx.len(),
        forall|j: int|
            #![trigger idx[j]]
            0 <= j < idx.len() ==> exists|k: int|
                0 <= k < idx.len() && #[trigger] sort_indices(docs, idx, keys)[k] == idx[j],
        forall|k: int|
            0 <= k < idx.len() ==> exists|j: int| 0 <= j < idx.len() && #[trigger] sort_indices(docs, idx, keys)[k] == idx[j],
    decreases idx.len(),
{
    lemma_sort_contents(docs, idx, keys);
    if idx.len() > 0 {
        let pre = idx.drop_last();
        lemma_sort_permutes(docs, pre, keys);
        let s = sort_indices(docs, pre, keys);
        lemma_insert_pos_bound(docs, s, keys, docs[idx.last()]);
        let p = insert_pos(docs, s, keys, docs[idx.last()]);
        let r = s.insert(p, idx.last());
        assert forall|j: int| #![trigger idx[j]] 0 <= j < idx.len() implies exists|k: int| 0 <= k < idx.len() && #[trigger] r[k] == idx[j] by {
            if j == idx.len() - 1 {
                assert(r[p] == idx[j]);
            } else {
                assert(pre[j] == idx[j]);
                let k = choose|k: int| 0 <= k < pre.len() && #[trigger] s[k] == pre[j];
                if k < p {
                    assert(r[k] == idx[j]);
                } else {
                    assert(r[k + 1] == idx[j]);
                }
            }
        }
    }
}

} // verus!
