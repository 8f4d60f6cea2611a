use vstd::prelude::*;

verus! {

/// Where a snippet can be inserted.
#[derive(Clone, Copy, Debug, PartialEq, Eq, Structural)]
pub enum SnippetCategory {
    PreRequest,
    PostResponse,
    RequestBody,
}

/// How a snippet's text is inserted.
#[derive(Clone, Copy, Debug, PartialEq, Eq, Structural)]
pub enum SnippetKind {
    Plain,
}

/// A reusable piece of script or body text.
#[derive(Debug, PartialEq, Eq)]
pub struct Snippet {
    pub name: String,
    pub category: SnippetCategory,
    pub kind: SnippetKind,
    pub body: String,
}

} // verus!
