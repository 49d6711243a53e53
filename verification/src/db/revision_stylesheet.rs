//! Stylesheet artifacts: the one compiled aggregate each revision carries,
//! keyed by (revision, name).

use vstd::prelude::*;

verus! {

/// The mathematical value of a stylesheet artifact.
pub ghost struct RevisionStylesheetView {
    pub revision: int,
    pub name: Seq<char>,
    pub data: Seq<char>,
}

/// A stored stylesheet artifact: the compiled text of one revision's
/// aggregate sheet.
#[derive(Debug, Clone, PartialEq, Eq)]
pub struct RevisionStylesheet {
    pub revision: usize,
    pub name: String,
    pub data: String,
}

impl View for RevisionStylesheet {
    type V = RevisionStylesheetView;

    open spec fn view(&self) -> RevisionStylesheetView {
        RevisionStylesheetView { revision: self.revision as int, name: self.name@, data: self.data@ }
    }
}

/// A stylesheet artifact as handed to the store for insertion.
#[derive(Debug, Clone, PartialEq, Eq)]
pub struct RevisionStylesheetIn {
    pub revision: usize,
    pub name: String,
    pub data: String,
}

impl View for RevisionStylesheetIn {
    type V = RevisionStylesheetView;

    open spec fn view(&self) -> RevisionStylesheetView {
        RevisionStylesheetView { revision: self.revision as int, name: self.name@, data: self.data@ }
    }
}

/// The views of a sequence of stylesheet artifacts.
pub open spec fn stylesheet_views(s: Seq<RevisionStylesheet>) -> Seq<RevisionStylesheetView> {
    s.map_values(|x: RevisionStylesheet| x@)
}

/// Does `sheets` hold an artifact keyed (`revision`, `name`)?
pub open spec fn has_stylesheet_key(
    sheets: Seq<RevisionStylesheetView>,
    revision: int,
    name: Seq<char>,
) -> bool {
    exists|i: int|
        0 <= i < sheets.len() && #[trigger] sheets[i].revision == revision && sheets[i].name == name
}

} // verus!
