//! Route derivation: the pure mapping from a revision's committed membership
//! to servable routes — static assets, pages, and the revision's stylesheet.

use vstd::prelude::*;

use crate::db::revision_files::RevisionFileView;
use crate::db::revision_routes::{
    route_views, RevisionRouteIn, RevisionRouteKind, RevisionRouteView,
};
use crate::db::pages::{Page, PageView};
use crate::db::{spec_membership_at, Store};
use crate::text;

verus! {

/// Is `p` a recognized page document path?
pub open spec fn is_page_path(p: Seq<char>) -> bool {
    ".md"@.is_suffix_of(p)
}

/// Is `p` a style source, gathered into the revision's stylesheet?
pub open spec fn is_style_source(p: Seq<char>) -> bool {
    "sass/"@.is_prefix_of(p) && ".scss"@.is_suffix_of(p)
}

/// The route path of a page document: the logical path with the content-root
/// prefix, an index-file suffix and the final extension stripped.
pub open spec fn spec_to_route_path(p: Seq<char>) -> Seq<char> {
    text::drop_final_extension(
        text::strip_prefix_all(
            text::strip_suffix_all(text::strip_prefix_all(p, "content"@), "/index.md"@),
            "/"@,
        ),
    )
}

/// Compute a page's route path from its logical path.
pub fn to_route_path(path: &str) -> (r: String)
    ensures
        r@ == spec_to_route_path(path@),
{
    let s1 = text::strip_prefix_matches(path, "content");
    let s2 = text::strip_suffix_matches(s1.as_str(), "/index.md");
    let s3 = text::strip_prefix_matches(s2.as_str(), "/");
    text::strip_final_extension(s3.as_str())
}

/// The directory component of a route path: everything before the last `/`,
/// the empty string when there is no `/`, and nothing for the empty path.
pub open spec fn spec_parent_path(p: Seq<char>) -> Option<Seq<char>> {
    if p.len() == 0 {
        None
    } else {
        match p.index_of_last('/') {
            Some(i) => Some(p.take(i)),
            None => Some(Seq::empty()),
        }
    }
}

/// Compute the parent of a route path.
pub fn do_parent_path(path: &str) -> (r: Option<String>)
    ensures
        match spec_parent_path(path@) {
            None => r is None,
            Some(s) => r matches Some(x) && x@ == s,
        },
{
    let n = path.unicode_len();
    if n == 0 {
        return None;
    }
    let mut j: usize = n;
    while j > 0
        invariant
            j <= n,
            n == path@.len(),
            forall|k: int| j <= k < n ==> path@[k] != '/',
        decreases j,
    {
        if path.get_char(j - 1) == '/' {
            proof {
                path@.index_of_last_ensures('/');
                assert(path@.contains('/')) by {
                    assert(path@[j as int - 1] == '/');
                }
                assert(path@.index_of_last('/') == Some(j as int - 1));
            }
            let r = path.substring_char(0, j - 1).to_owned();
            assert(r@ =~= path@.take(j as int - 1));
            return Some(r);
        }
        j -= 1;
    }
    proof {
        path@.index_of_last_ensures('/');
        assert(path@.index_of_last('/') is None);
    }
    let empty = String::new();
    proof {
        assert(empty@ =~= Seq::<char>::empty());
    }
    Some(empty)
}

/// The static-asset route of one member: the logical path with a fixed
/// `static/` prefix stripped, no parent, no template.
pub open spec fn static_route_of(rev: int, hash: Seq<char>, path: Seq<char>) -> RevisionRouteView {
    RevisionRouteView {
        revision: rev,
        route_path: text::strip_prefix_all(path, "static/"@),
        parent_route_path: None,
        kind: RevisionRouteKind::StaticAsset,
        hash: hash,
        path: path,
        template: None,
    }
}

/// The static-asset routes that revision `rev`'s membership rows derive, in
/// stored order: one per non-page member.
pub open spec fn spec_static_routes(rows: Seq<RevisionFileView>, rev: int) -> Seq<
    RevisionRouteView,
> {
    rows.filter(|rf: RevisionFileView| rf.revision == rev && !is_page_path(rf.path)).map_values(
        |rf: RevisionFileView| static_route_of(rev, rf.hash, rf.path),
    )
}

/// The route of one page of the revision.
pub open spec fn page_route_of(rev: int, p: PageView) -> RevisionRouteView {
    RevisionRouteView {
        revision: rev,
        route_path: p.route_path,
        parent_route_path: spec_parent_path(p.route_path),
        kind: RevisionRouteKind::Page,
        hash: p.hash,
        path: p.path,
        template: p.template,
    }
}

/// The page routes of revision `rev`: one per page record whose content
/// record is a member, in stored page order.
pub open spec fn spec_page_routes(s: Store, rev: int) -> Seq<RevisionRouteView> {
    s.pages@.filter(
        |p: Page| spec_membership_at(s, rev).contains((p.hash@, p.path@)),
    ).map_values(|p: Page| page_route_of(rev, p@))
}

/// The one stylesheet route of a revision, at its fixed path.
pub open spec fn stylesheet_route_of(rev: int) -> RevisionRouteView {
    RevisionRouteView {
        revision: rev,
        route_path: "style.css"@,
        parent_route_path: None,
        kind: RevisionRouteKind::Stylesheet,
        hash: ""@,
        path: "style"@,
        template: None,
    }
}

/// Every route one committed revision derives, in derivation order: the
/// static-asset routes of its membership, then its page routes, then the
/// stylesheet route when a sheet was compiled.
pub open spec fn spec_derived_routes(
    members: Seq<(Seq<char>, Seq<char>)>,
    pages: Seq<PageView>,
    rev: int,
    with_style: bool,
) -> Seq<RevisionRouteView> {
    members.filter(|hp: (Seq<char>, Seq<char>)| !is_page_path(hp.1)).map_values(
        |hp: (Seq<char>, Seq<char>)| static_route_of(rev, hp.0, hp.1),
    ) + pages.filter(|p: PageView| members.to_set().contains((p.hash, p.path))).map_values(
        |p: PageView| page_route_of(rev, p),
    ) + if with_style {
        seq![stylesheet_route_of(rev)]
    } else {
        Seq::<RevisionRouteView>::empty()
    }
}

/// Route derivation is pure: two enumerations of the same membership, over
/// the same page records, derive the same set of routes.
pub proof fn lemma_route_derivation_pure(
    m1: Seq<(Seq<char>, Seq<char>)>,
    m2: Seq<(Seq<char>, Seq<char>)>,
    pages: Seq<PageView>,
    rev: int,
    with_style: bool,
)
    requires
        m1.to_set() == m2.to_set(),
    ensures
        spec_derived_routes(m1, pages, rev, with_style).to_set() == spec_derived_routes(
            m2,
            pages,
            rev,
            with_style,
        ).to_set(),
{
    let not_page = |hp: (Seq<char>, Seq<char>)| !is_page_path(hp.1);
    let mk = |hp: (Seq<char>, Seq<char>)| static_route_of(rev, hp.0, hp.1);
    let s1 = m1.filter(not_page).map_values(mk);
    let s2 = m2.filter(not_page).map_values(mk);
    crate::lemmas::lemma_filter_map_to_set(m1, not_page, mk);
    crate::lemmas::lemma_filter_map_to_set(m2, not_page, mk);
    assert(s1.to_set() =~= s2.to_set());
    crate::lemmas::lemma_filter_congruent(
        pages,
        |p: PageView| m1.to_set().contains((p.hash, p.path)),
        |p: PageView| m2.to_set().contains((p.hash, p.path)),
    );
    let p1 = pages.filter(|p: PageView| m1.to_set().contains((p.hash, p.path))).map_values(
        |p: PageView| page_route_of(rev, p),
    );
    let p2 = pages.filter(|p: PageView| m2.to_set().contains((p.hash, p.path))).map_values(
        |p: PageView| page_route_of(rev, p),
    );
    assert(p1 == p2);
    let tail = if with_style {
        seq![stylesheet_route_of(rev)]
    } else {
        Seq::<RevisionRouteView>::empty()
    };
    crate::lemmas::lemma_concat_to_set(s1, p1 + tail);
    crate::lemmas::lemma_concat_to_set(s2, p2 + tail);
    crate::lemmas::lemma_concat_to_set(p1, tail);
    crate::lemmas::lemma_concat_to_set(p2, tail);
    assert(s1 + p1 + tail =~= s1 + (p1 + tail));
    assert(s2 + p2 + tail =~= s2 + (p2 + tail));
    assert(spec_derived_routes(m1, pages, rev, with_style).to_set() =~= spec_derived_routes(
        m2,
        pages,
        rev,
        with_style,
    ).to_set());
}

/// Create routes for all static assets of revision `rev_id`: every member
/// whose path is not a page document gets one, derived from its logical path.
pub fn create_static_asset_routes(db: &mut Store, rev_id: usize)
    requires
        old(db).wf(),
    ensures
        final(db).wf(),
        route_views(final(db).revision_routes@) == route_views(old(db).revision_routes@)
            + spec_static_routes(
            crate::db::revision_files::member_views(old(db).revision_files@),
            rev_id as int,
        ),
        final(db).input_files == old(db).input_files,
        final(db).pages == old(db).pages,
        final(db).page_tags == old(db).page_tags,
        final(db).revision_files == old(db).revision_files,
        final(db).revision_stylesheets == old(db).revision_stylesheets,
{
    let ghost rows = crate::db::revision_files::member_views(old(db).revision_files@);
    let ghost pred = |rf: RevisionFileView| rf.revision == rev_id as int && !is_page_path(rf.path);
    let ghost mk = |rf: RevisionFileView| static_route_of(rev_id as int, rf.hash, rf.path);
    let n = db.revision_files.len();
    let mut i: usize = 0;
    proof {
        assert(rows.take(0) =~= Seq::<RevisionFileView>::empty());
        assert(rows.take(0).filter(pred).map_values(mk) =~= Seq::<RevisionRouteView>::empty());
        assert(route_views(db.revision_routes@) =~= route_views(old(db).revision_routes@)
            + rows.take(0).filter(pred).map_values(mk));
    }
    while i < n
        invariant
            i <= n,
            db.wf(),
            pred == (|rf: RevisionFileView| rf.revision == rev_id as int && !is_page_path(rf.path)),
            mk == (|rf: RevisionFileView| static_route_of(rev_id as int, rf.hash, rf.path)),
            rows == crate::db::revision_files::member_views(db.revision_files@),
            n == rows.len(),
            route_views(db.revision_routes@) == route_views(old(db).revision_routes@) + rows.take(
                i as int,
            ).filter(pred).map_values(mk),
            db.input_files == old(db).input_files,
            db.pages == old(db).pages,
            db.page_tags == old(db).page_tags,
            db.revision_files == old(db).revision_files,
            db.revision_stylesheets == old(db).revision_stylesheets,
        decreases n - i,
    {
        let row_hash;
        let row_path;
        let row_rev;
        {
            let row = &db.revision_files[i];
            row_hash = row.hash.clone();
            row_path = row.path.clone();
            row_rev = row.revision;
        }
        assert(rows[i as int].hash == row_hash@ && rows[i as int].path == row_path@
            && rows[i as int].revision == row_rev as int);
        if row_rev == rev_id && !text::has_suffix(row_path.as_str(), ".md") {
            let route_path = text::strip_prefix_matches(row_path.as_str(), "static/");
            let route = RevisionRouteIn {
                revision: rev_id,
                route_path,
                parent_route_path: None,
                kind: RevisionRouteKind::StaticAsset,
                hash: row_hash,
                path: row_path,
                template: None,
            };
            assert(route@ == mk(rows[i as int]));
            db.insert_revision_route(&route);
        }
        proof {
            assert(rows.take(i + 1) =~= rows.take(i as int) + seq![rows[i as int]]);
            Seq::filter_distributes_over_add(rows.take(i as int), seq![rows[i as int]], pred);
            reveal_with_fuel(Seq::<RevisionFileView>::filter, 2);
            assert(seq![rows[i as int]].drop_last() =~= Seq::<RevisionFileView>::empty());
            if pred(rows[i as int]) {
                assert(seq![rows[i as int]].filter(pred) =~= seq![rows[i as int]]);
                assert(rows.take(i + 1).filter(pred).map_values(mk) =~= rows.take(
                    i as int,
                ).filter(pred).map_values(mk).push(mk(rows[i as int])));
            } else {
                assert(seq![rows[i as int]].filter(pred) =~= Seq::<RevisionFileView>::empty());
                assert(rows.take(i + 1).filter(pred) =~= rows.take(i as int).filter(pred));
            }
        }
        i += 1;
    }
    proof {
        assert(rows.take(n as int) =~= rows);
    }
}

/// Create routes for the pages of revision `rev_id`: each page record whose
/// content record is a member gets a route at its precomputed route path,
/// with the path's directory component as parent.
pub fn create_page_routes(db: &mut Store, rev_id: usize)
    requires
        old(db).wf(),
    ensures
        final(db).wf(),
        route_views(final(db).revision_routes@) == route_views(old(db).revision_routes@)
            + spec_page_routes(*old(db), rev_id as int),
        final(db).input_files == old(db).input_files,
        final(db).pages == old(db).pages,
        final(db).page_tags == old(db).page_tags,
        final(db).revision_files == old(db).revision_files,
        final(db).revision_stylesheets == old(db).revision_stylesheets,
{
    let pages = Page::for_revision(db, rev_id);
    let ghost mk = |p: Page| page_route_of(rev_id as int, p@);
    let n = pages.len();
    let mut i: usize = 0;
    proof {
        assert(pages@.take(0) =~= Seq::<Page>::empty());
        assert(pages@.take(0).map_values(mk) =~= Seq::<RevisionRouteView>::empty());
        assert(route_views(db.revision_routes@) =~= route_views(old(db).revision_routes@)
            + pages@.take(0).map_values(mk));
    }
    while i < n
        invariant
            i <= n,
            db.wf(),
            mk == (|p: Page| page_route_of(rev_id as int, p@)),
            n == pages@.len(),
            route_views(db.revision_routes@) == route_views(old(db).revision_routes@)
                + pages@.take(i as int).map_values(mk),
            db.input_files == old(db).input_files,
            db.pages == old(db).pages,
            db.page_tags == old(db).page_tags,
            db.revision_files == old(db).revision_files,
            db.revision_stylesheets == old(db).revision_stylesheets,
        decreases n - i,
    {
        let page = &pages[i];
        let parent = do_parent_path(page.route_path.as_str());
        let route = RevisionRouteIn {
            revision: rev_id,
            route_path: page.route_path.clone(),
            parent_route_path: parent,
            kind: RevisionRouteKind::Page,
            hash: page.hash.clone(),
            path: page.path.clone(),
            template: match &page.template {
                Some(t) => Some(t.clone()),
                None => None,
            },
        };
        assert(route@ == mk(pages@[i as int]));
        db.insert_revision_route(&route);
        proof {
            assert(pages@.take(i + 1) =~= pages@.take(i as int).push(pages@[i as int]));
            assert(pages@.take(i + 1).map_values(mk) =~= pages@.take(i as int).map_values(mk).push(
                mk(pages@[i as int]),
            ));
        }
        i += 1;
    }
    proof {
        assert(pages@.take(n as int) =~= pages@);
        let pred = |p: Page| spec_membership_at(*old(db), rev_id as int).contains((p.hash@, p.path@));
        assert(pages@ == old(db).pages@.filter(pred));
    }
}

} // verus!
