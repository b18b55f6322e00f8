//! Resolving two versions of a document edited concurrently.
use vstd::prelude::*;
use crate::document::{lookup_model, model_eq, Document, ValueModel};
use crate::error::Error;
use crate::filter::values_equal;
use crate::text::push_text;

verus! {

/// How to resolve a conflict between two versions of a document.
#[derive(Debug, Clone, Copy, PartialEq, Eq, Structural)]
pub enum ConflictResolution {
    /// Keep the local version.
    Ours,
    /// Keep the remote version.
    Theirs,
    /// Merge field by field.
    MergeFields,
    /// Keep both bodies between conflict markers; remote fields win.
    ConcatenateBody,
    /// Refuse, and leave it to a person.
    Manual,
}

impl Default for ConflictResolution {
    fn default() -> (r: Self)
        ensures
            r == ConflictResolution::MergeFields,
    {
        ConflictResolution::MergeFields
    }
}

/// Three-way merge of one field: a value both sides agree on, or the local
/// value when only it changed from the base, is kept (values compared with
/// [`model_eq`]); otherwise the remote
/// value wins when there is one, else the local one.
pub open spec fn merged_value(b: Option<ValueModel>, o: Option<ValueModel>, t: Option<ValueModel>) -> Option<ValueModel> {
    match t {
        Some(tv) => match o {
            Some(ov) => if model_eq(ov, tv) || (b matches Some(bv) && model_eq(bv, tv)) { Some(ov) } else { Some(tv) },
            None => Some(tv),
        },
        None => o,
    }
}

/// The base value of field `k`, if there is a base.
pub open spec fn base_value(base: Option<Document>, k: Seq<char>) -> Option<ValueModel> {
    match base {
        Some(d) => lookup_model(d.fields@, k),
        None => None,
    }
}

/// `r` merges `ours` and `theirs` field by field over `base`; its body is the
/// remote one (the two agree when they are equal).
pub open spec fn merged_doc(base: Option<Document>, ours: Document, theirs: Document, r: Document) -> bool {
    &&& r.id@ == ours.id@
    &&& r.body@ == theirs.body@
    &&& forall|k: Seq<char>|
        #[trigger] lookup_model(r.fields@, k) == merged_value(
            base_value(base, k),
            lookup_model(ours.fields@, k),
            lookup_model(theirs.fields@, k),
        )
}

fn merged_for(base: Option<&Document>, ours: &Document, theirs: &Document, key: &str) -> (r: Option<crate::document::Value>)
    ensures
        match r {
            Some(v) => merged_value(
                base_value(match base { Some(d) => Some(*d), None => None }, key@),
                lookup_model(ours.fields@, key@),
                lookup_model(theirs.fields@, key@),
            ) == Some(v@),
            None => merged_value(
                base_value(match base { Some(d) => Some(*d), None => None }, key@),
                lookup_model(ours.fields@, key@),
                lookup_model(theirs.fields@, key@),
            ).is_none(),
        },
{
    let o = ours.get(key);
    let t = theirs.get(key);
    let b = match base {
        Some(d) => d.get(key),
        None => None,
    };
    match t {
        Some(tv) => match o {
            Some(ov) => {
                let base_is_t = match b {
                    Some(bv) => values_equal(bv, tv),
                    None => false,
                };
                if values_equal(ov, tv) || base_is_t {
                    Some(ov.copy())
                } else {
                    Some(tv.copy())
                }
            },
            None => Some(tv.copy()),
        },
        None => match o {
            Some(ov) => Some(ov.copy()),
            None => None,
        },
    }
}

/// Merges two versions field by field (see [`merged_doc`]).
pub fn merge_fields(base: Option<&Document>, ours: &Document, theirs: &Document) -> (r: Result<Document, Error>)
    ensures
        r matches Ok(d) && merged_doc(match base { Some(b) => Some(*b), None => None }, *ours, *theirs, d),
{
    let ghost gb = match base { Some(b) => Some(*b), None => None };
    let mut result = Document::new(ours.id.as_str());
    let mut i: usize = 0;
    while i < ours.fields.len()
        invariant
            i <= ours.fields@.len(),
            gb == match base { Some(b) => Some(*b), None => None::<Document> },
            result.id@ == ours.id@,
            forall|k: Seq<char>|
                #[trigger] lookup_model(result.fields@, k) == if exists|j: int| 0 <= j < i && ours.fields@[j].0@ == k {
                    merged_value(base_value(gb, k), lookup_model(ours.fields@, k), lookup_model(theirs.fields@, k))
                } else {
                    None
                },
        decreases ours.fields@.len() - i,
    {
        let key = ours.fields[i].0.as_str();
        let ghost kk = key@;
        let ghost before = result.fields@;
        proof {
            crate::document::lemma_has_key_lookup(ours.fields@, kk, i as int);
        }
        match merged_for(base, ours, theirs, key) {
            Some(v) => { result.set(key, v); },
            None => {},
        }
        proof {
            assert forall|k: Seq<char>| #[trigger] lookup_model(result.fields@, k) == if exists|j: int| 0 <= j < i + 1 && ours.fields@[j].0@ == k {
                merged_value(base_value(gb, k), lookup_model(ours.fields@, k), lookup_model(theirs.fields@, k))
            } else {
                None
            } by {
                assert(lookup_model(before, k) == if exists|j: int| 0 <= j < i && ours.fields@[j].0@ == k {
                    merged_value(base_value(gb, k), lookup_model(ours.fields@, k), lookup_model(theirs.fields@, k))
                } else {
                    None
                });
                if k != kk {
                    if exists|j: int| 0 <= j < i + 1 && ours.fields@[j].0@ == k {
                        let j = choose|j: int| 0 <= j < i + 1 && ours.fields@[j].0@ == k;
                        assert(j < i);
                    }
                } else {
                    assert(ours.fields@[i as int].0@ == k);
                }
            }
        }
        i = i + 1;
    }
    let mut t: usize = 0;
    while t < theirs.fields.len()
        invariant
            t <= theirs.fields@.len(),
            gb == match base { Some(b) => Some(*b), None => None::<Document> },
            result.id@ == ours.id@,
            forall|k: Seq<char>|
                #[trigger] lookup_model(result.fields@, k) == if (exists|j: int| 0 <= j < ours.fields@.len() && ours.fields@[j].0@ == k)
                    || (exists|j: int| 0 <= j < t && theirs.fields@[j].0@ == k) {
                    merged_value(base_value(gb, k), lookup_model(ours.fields@, k), lookup_model(theirs.fields@, k))
                } else {
                    None
                },
        decreases theirs.fields@.len() - t,
    {
        let key = theirs.fields[t].0.as_str();
        let ghost kk = key@;
        let ghost before = result.fields@;
        proof {
            crate::document::lemma_has_key_lookup(theirs.fields@, kk, t as int);
        }
        match merged_for(base, ours, theirs, key) {
            Some(v) => { result.set(key, v); },
            None => {},
        }
        proof {
            assert forall|k: Seq<char>| #[trigger] lookup_model(result.fields@, k) == if (exists|j: int| 0 <= j < ours.fields@.len() && ours.fields@[j].0@ == k)
                || (exists|j: int| 0 <= j < t + 1 && theirs.fields@[j].0@ == k) {
                merged_value(base_value(gb, k), lookup_model(ours.fields@, k), lookup_model(theirs.fields@, k))
            } else {
                None
            } by {
                assert(lookup_model(before, k) == if (exists|j: int| 0 <= j < ours.fields@.len() && ours.fields@[j].0@ == k)
                    || (exists|j: int| 0 <= j < t && theirs.fields@[j].0@ == k) {
                    merged_value(base_value(gb, k), lookup_model(ours.fields@, k), lookup_model(theirs.fields@, k))
                } else {
                    None
                });
                if k != kk {
                    if exists|j: int| 0 <= j < t + 1 && theirs.fields@[j].0@ == k {
                        let j = choose|j: int| 0 <= j < t + 1 && theirs.fields@[j].0@ == k;
                        assert(j < t);
                    }
                } else {
                    assert(theirs.fields@[t as int].0@ == k);
                }
            }
        }
        t = t + 1;
    }
    proof {
        assert forall|k: Seq<char>| #[trigger] lookup_model(result.fields@, k) == merged_value(
            base_value(gb, k),
            lookup_model(ours.fields@, k),
            lookup_model(theirs.fields@, k),
        ) by {
            if !(exists|j: int| 0 <= j < ours.fields@.len() && ours.fields@[j].0@ == k) {
                crate::document::lemma_no_key_lookup(ours.fields@, k);
            }
            if !(exists|j: int| 0 <= j < theirs.fields@.len() && theirs.fields@[j].0@ == k) {
                crate::document::lemma_no_key_lookup(theirs.fields@, k);
            }
        }
    }
    result.body = theirs.body.clone();
    Ok(result)
}

/// `d` is `ours` with both bodies between conflict markers when they differ,
/// and the remote value for every field the remote version has.
pub open spec fn concatenated(ours: Document, theirs: Document, d: Document) -> bool {
    &&& d.id@ == ours.id@
    &&& (ours.body@ == theirs.body@ ==> d.body@ == ours.body@)
    &&& (ours.body@ != theirs.body@ ==> d.body@ == "<<<<<<< OURS\n"@ + ours.body@ + "\n=======\n"@ + theirs.body@
        + "\n>>>>>>> THEIRS"@)
    &&& forall|k: Seq<char>|
        #[trigger] lookup_model(d.fields@, k) == match lookup_model(theirs.fields@, k) {
            Some(v) => Some(v),
            None => lookup_model(ours.fields@, k),
        }
}

/// Keeps `ours` with both bodies between conflict markers when they differ,
/// and the remote value for every field the remote version has.
pub fn concatenate_body(ours: &Document, theirs: &Document) -> (r: Result<Document, Error>)
    ensures
        r matches Ok(d) && concatenated(*ours, *theirs, d),
{
    let mut result = ours.copy();
    if ours.body != theirs.body {
        let mut b = String::new();
        push_text(&mut b, "<<<<<<< OURS\n");
        push_text(&mut b, ours.body.as_str());
        push_text(&mut b, "\n=======\n");
        push_text(&mut b, theirs.body.as_str());
        push_text(&mut b, "\n>>>>>>> THEIRS");
        assert(b@ =~= "<<<<<<< OURS\n"@ + ours.body@ + "\n=======\n"@ + theirs.body@ + "\n>>>>>>> THEIRS"@);
        result.body = b;
    }
    proof {
        assert forall|k: Seq<char>| #[trigger] lookup_model(result.fields@, k) == lookup_model(ours.fields@, k) by {
            crate::document::lemma_same_fields_lookup(result.fields@, ours.fields@, k);
        }
    }
    let mut t: usize = 0;
    while t < theirs.fields.len()
        invariant
            t <= theirs.fields@.len(),
            result.id@ == ours.id@,
            ours.body@ == theirs.body@ ==> result.body@ == ours.body@,
            ours.body@ != theirs.body@ ==> result.body@ == "<<<<<<< OURS\n"@ + ours.body@ + "\n=======\n"@ + theirs.body@
                + "\n>>>>>>> THEIRS"@,
            forall|k: Seq<char>|
                #[trigger] lookup_model(result.fields@, k) == if exists|j: int| 0 <= j < t && theirs.fields@[j].0@ == k {
                    lookup_model(theirs.fields@, k)
                } else {
                    lookup_model(ours.fields@, k)
                },
        decreases theirs.fields@.len() - t,
    {
        let key = theirs.fields[t].0.as_str();
        let ghost kk = key@;
        let ghost before = result.fields@;
        proof {
            crate::document::lemma_has_key_lookup(theirs.fields@, kk, t as int);
        }
        match theirs.get(key) {
            Some(v) => { result.set(key, v.copy()); },
            None => {},
        }
        proof {
            assert forall|k: Seq<char>| #[trigger] lookup_model(result.fields@, k) == if exists|j: int| 0 <= j < t + 1 && theirs.fields@[j].0@ == k {
                lookup_model(theirs.fields@, k)
            } else {
                lookup_model(ours.fields@, k)
            } by {
                assert(lookup_model(before, k) == if exists|j: int| 0 <= j < t && theirs.fields@[j].0@ == k {
                    lookup_model(theirs.fields@, k)
                } else {
                    lookup_model(ours.fields@, k)
                });
                if k != kk {
                    if exists|j: int| 0 <= j < t + 1 && theirs.fields@[j].0@ == k {
                        let j = choose|j: int| 0 <= j < t + 1 && theirs.fields@[j].0@ == k;
                        assert(j < t);
                    }
                } else {
                    assert(theirs.fields@[t as int].0@ == k);
                }
            }
        }
        t = t + 1;
    }
    proof {
        assert forall|k: Seq<char>| #[trigger] lookup_model(result.fields@, k) == match lookup_model(theirs.fields@, k) {
            Some(v) => Some(v),
            None => lookup_model(ours.fields@, k),
        } by {
            if !(exists|j: int| 0 <= j < theirs.fields@.len() && theirs.fields@[j].0@ == k) {
                crate::document::lemma_no_key_lookup(theirs.fields@, k);
            } else {
                let j = choose|j: int| 0 <= j < theirs.fields@.len() && theirs.fields@[j].0@ == k;
                crate::document::lemma_has_key_lookup(theirs.fields@, k, j);
            }
        }
    }
    Ok(result)
}

/// Resolves a conflict between `ours` and `theirs` with `strategy`;
/// `Manual` always fails.
pub fn resolve(
    base: Option<&Document>,
    ours: &Document,
    theirs: &Document,
    strategy: ConflictResolution,
) -> (r: Result<Document, Error>)
    ensures
        strategy == ConflictResolution::Ours ==> (r matches Ok(d) && crate::document::same_doc(d, *ours)),
        strategy == ConflictResolution::Theirs ==> (r matches Ok(d) && crate::document::same_doc(d, *theirs)),
        strategy == ConflictResolution::MergeFields ==> (r matches Ok(d) && merged_doc(
            match base { Some(b) => Some(*b), None => None },
            *ours,
            *theirs,
            d,
        )),
        strategy == ConflictResolution::Manual ==> r is Err,
        strategy == ConflictResolution::ConcatenateBody ==> (r matches Ok(d) && concatenated(*ours, *theirs, d)),
{
    match strategy {
        ConflictResolution::Ours => Ok(ours.copy()),
        ConflictResolution::Theirs => Ok(theirs.copy()),
        ConflictResolution::MergeFields => merge_fields(base, ours, theirs),
        ConflictResolution::ConcatenateBody => concatenate_body(ours, theirs),
        ConflictResolution::Manual => {
            let mut m = String::new();
            push_text(&mut m, "Manual conflict resolution required for document '");
            push_text(&mut m, ours.id.as_str());
            push_text(&mut m, "'");
            Err(Error::Other(m))
        },
    }
}

} // verus!
