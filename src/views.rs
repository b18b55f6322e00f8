//! Saved queries: a view is a `SELECT` with an optional template.
use vstd::prelude::*;
use vstd::view::View as Viewable;
use crate::ast::SelectStmt;

verus! {

/// Output formats a view can be rendered to.
#[derive(Debug, Clone, Copy, PartialEq, Eq, Structural)]
pub enum OutputFormat {
    Html,
    Json,
    Markdown,
    Csv,
}

impl Default for OutputFormat {
    fn default() -> (r: Self)
        ensures
            r == OutputFormat::Html,
    {
        OutputFormat::Html
    }
}

/// A view definition.
#[derive(Debug)]
pub struct View {
    pub name: String,
    pub query: SelectStmt,
    pub template: Option<String>,
    pub formats: Vec<OutputFormat>,
}

impl View {
    /// A view named `name` over `query`, rendered to HTML and JSON.
    pub fn new(name: &str, query: SelectStmt) -> (r: View)
        ensures
            r.name@ == name@,
            r.query == query,
            r.template.is_none(),
            r.formats@ == seq![OutputFormat::Html, OutputFormat::Json],
    {
        let formats = vec![OutputFormat::Html, OutputFormat::Json];
        View { name: name.to_owned(), query, template: None, formats }
    }

    /// This view rendered with `template`.
    pub fn with_template(self, template: &str) -> (r: View)
        ensures
            r.name == self.name,
            r.query == self.query,
            r.template matches Some(t) && t@ == template@,
            r.formats == self.formats,
    {
        let mut v = self;
        v.template = Some(template.to_owned());
        v
    }
}

} // verus!
