//! Where collections live: `<root>/collections/<name>`.
use vstd::prelude::*;
use crate::text::push_text;

verus! {

/// A collection's name and directory.
#[derive(Debug)]
pub struct Collection {
    pub name: String,
    pub path: String,
}

impl Collection {
    /// The collection `name` of the database rooted at `base_path`.
    pub fn open(name: &str, base_path: &str) -> (r: Collection)
        ensures
            r.name@ == name@,
            r.path@ == base_path@ + "/collections/"@ + name@,
    {
        let mut path = base_path.to_owned();
        push_text(&mut path, "/collections/");
        push_text(&mut path, name);
        Collection { name: name.to_owned(), path }
    }
}

} // verus!
