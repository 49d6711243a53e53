//! Routes: the externally addressable mapping from a request path to
//! revisioned content, derived per revision and persisted for serving-time
//! lookup.

use vstd::prelude::*;

verus! {

/// What a route resolves to.
#[derive(Debug, Clone, Copy, PartialEq, Eq, Structural)]
pub enum RevisionRouteKind {
    Unknown,
    StaticAsset,
    Page,
    Stylesheet,
    PageRedirect,
}

/// The mathematical value of a route row.
pub ghost struct RevisionRouteView {
    pub revision: int,
    pub route_path: Seq<char>,
    pub parent_route_path: Option<Seq<char>>,
    pub kind: RevisionRouteKind,
    pub hash: Seq<char>,
    pub path: Seq<char>,
    pub template: Option<Seq<char>>,
}

/// A stored route row.
#[derive(Debug, Clone, PartialEq, Eq)]
pub struct RevisionRoute {
    pub revision: usize,
    pub route_path: String,
    pub parent_route_path: Option<String>,
    pub kind: RevisionRouteKind,
    pub hash: String,
    pub path: String,
    pub template: Option<String>,
}

impl View for RevisionRoute {
    type V = RevisionRouteView;

    open spec fn view(&self) -> RevisionRouteView {
        RevisionRouteView {
            revision: self.revision as int,
            route_path: self.route_path@,
            parent_route_path: match self.parent_route_path {
                Some(p) => Some(p@),
                None => None,
            },
            kind: self.kind,
            hash: self.hash@,
            path: self.path@,
            template: match self.template {
                Some(t) => Some(t@),
                None => None,
            },
        }
    }
}

/// A route row as handed to the store for insertion.
#[derive(Debug, Clone, PartialEq, Eq)]
pub struct RevisionRouteIn {
    pub revision: usize,
    pub route_path: String,
    pub parent_route_path: Option<String>,
    pub kind: RevisionRouteKind,
    pub hash: String,
    pub path: String,
    pub template: Option<String>,
}

impl View for RevisionRouteIn {
    type V = RevisionRouteView;

    open spec fn view(&self) -> RevisionRouteView {
        RevisionRouteView {
            revision: self.revision as int,
            route_path: self.route_path@,
            parent_route_path: match self.parent_route_path {
                Some(p) => Some(p@),
                None => None,
            },
            kind: self.kind,
            hash: self.hash@,
            path: self.path@,
            template: match self.template {
                Some(t) => Some(t@),
                None => None,
            },
        }
    }
}

/// The views of a sequence of route rows.
pub open spec fn route_views(s: Seq<RevisionRoute>) -> Seq<RevisionRouteView> {
    s.map_values(|x: RevisionRoute| x@)
}

} // verus!
