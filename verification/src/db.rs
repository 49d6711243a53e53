//! The record store: the tables that hold content records, page metadata,
//! revision membership, derived routes and stylesheet artifacts, together
//! with the invariants a committed store keeps — unique keys, every row
//! referencing an existing content record, and a contiguous revision
//! sequence.

use vstd::prelude::*;

use crate::db::input_files::{
    file_views, has_file_key, or_ignore_file, InputFile, InputFileIn, InputFileView,
};
use crate::db::pages::{
    has_page_key, has_tag_key, or_ignore_page, or_ignore_tags_of, page_of_insert, page_views,
    tag_views, Page, PageIn, PageTag, PageTagView,
};
use crate::db::revision_files::{max_rev_of, member_views, RevisionFile, RevisionFileIn};
use crate::db::revision_routes::{route_views, RevisionRoute, RevisionRouteIn};
use crate::db::revision_stylesheet::{
    has_stylesheet_key, stylesheet_views, RevisionStylesheet, RevisionStylesheetIn,
};
use crate::text;

pub mod input_files;
pub mod pages;
pub mod revision_files;
pub mod revision_routes;
pub mod revision_stylesheet;

verus! {

/// Does some membership row carry revision `r`?
pub open spec fn has_revision(
    rows: Seq<crate::db::revision_files::RevisionFileView>,
    r: int,
) -> bool {
    exists|i: int| 0 <= i < rows.len() && #[trigger] rows[i].revision == r
}

/// The membership of revision `rev`: the set of (hash, path) pairs whose row
/// carries that revision number.
pub open spec fn spec_membership_at(s: Store, rev: int) -> Set<(Seq<char>, Seq<char>)> {
    Set::new(
        |hp: (Seq<char>, Seq<char>)|
            has_member_row(member_views(s.revision_files@), hp.0, hp.1, rev),
    )
}

/// Does `rows` hold the row (`hash`, `path`, `rev`)?
pub open spec fn has_member_row(
    rows: Seq<crate::db::revision_files::RevisionFileView>,
    hash: Seq<char>,
    path: Seq<char>,
    rev: int,
) -> bool {
    exists|i: int|
        0 <= i < rows.len() && #[trigger] rows[i].hash == hash && rows[i].path == path
            && rows[i].revision == rev
}

/// The number the next committed revision receives: one past the stored
/// maximum, or zero for an empty store.
pub open spec fn spec_next_revision(s: Store) -> int {
    match max_rev_of(member_views(s.revision_files@)) {
        None => 0,
        Some(m) => m + 1,
    }
}

/// The tables of the record store, held in insertion order.
pub struct Store {
    pub input_files: Vec<InputFile>,
    pub pages: Vec<Page>,
    pub page_tags: Vec<PageTag>,
    pub revision_files: Vec<RevisionFile>,
    pub revision_routes: Vec<RevisionRoute>,
    pub revision_stylesheets: Vec<RevisionStylesheet>,
}

impl Store {
    /// The invariants of a committed store: unique keys per table, every
    /// membership row and page referencing an existing content record, and
    /// revision numbers contiguous from zero.
    pub open spec fn wf(&self) -> bool {
        let files = file_views(self.input_files@);
        let pages = page_views(self.pages@);
        let rows = member_views(self.revision_files@);
        let sheets = stylesheet_views(self.revision_stylesheets@);
        &&& (forall|i: int, j: int| #![trigger files[i], files[j]]
            0 <= i < j < files.len() ==> !(files[i].hash == files[j].hash && files[i].path
                == files[j].path))
        &&& (forall|i: int, j: int| #![trigger pages[i], pages[j]]
            0 <= i < j < pages.len() ==> !(pages[i].hash == pages[j].hash && pages[i].path
                == pages[j].path))
        &&& (forall|i: int, j: int| #![trigger rows[i], rows[j]]
            0 <= i < j < rows.len() ==> !(rows[i].hash == rows[j].hash && rows[i].path
                == rows[j].path && rows[i].revision == rows[j].revision))
        &&& (forall|i: int, j: int| #![trigger sheets[i], sheets[j]]
            0 <= i < j < sheets.len() ==> !(sheets[i].revision == sheets[j].revision
                && sheets[i].name == sheets[j].name))
        &&& (forall|i: int|
            0 <= i < rows.len() ==> has_file_key(files, #[trigger] rows[i].hash, rows[i].path))
        &&& (forall|i: int|
            0 <= i < pages.len() ==> has_file_key(files, #[trigger] pages[i].hash, pages[i].path))
        &&& (match max_rev_of(rows) {
            None => true,
            Some(m) => forall|r: int| 0 <= r <= m ==> #[trigger] has_revision(rows, r),
        })
        &&& (forall|i: int|
            0 <= i < sheets.len() ==> has_revision(rows, #[trigger] sheets[i].revision))
    }

    /// An empty store.
    pub fn new() -> (r: Store)
        ensures
            r.wf(),
            r.input_files@ == Seq::<InputFile>::empty(),
            r.pages@ == Seq::<Page>::empty(),
            r.page_tags@ == Seq::<PageTag>::empty(),
            r.revision_files@ == Seq::<RevisionFile>::empty(),
            r.revision_routes@ == Seq::<RevisionRoute>::empty(),
            r.revision_stylesheets@ == Seq::<RevisionStylesheet>::empty(),
    {
        let r = Store {
            input_files: Vec::new(),
            pages: Vec::new(),
            page_tags: Vec::new(),
            revision_files: Vec::new(),
            revision_routes: Vec::new(),
            revision_stylesheets: Vec::new(),
        };
        proof {
            assert(member_views(r.revision_files@) =~= Seq::<
                crate::db::revision_files::RevisionFileView,
            >::empty());
        }
        r
    }

    /// Does the store hold a content record keyed (`hash`, `path`)?
    pub fn has_file(&self, hash: &str, path: &str) -> (r: bool)
        ensures
            r == has_file_key(file_views(self.input_files@), hash@, path@),
    {
        let ghost files = file_views(self.input_files@);
        let n = self.input_files.len();
        let mut i: usize = 0;
        while i < n
            invariant
                i <= n,
                files == file_views(self.input_files@),
                n == files.len(),
                forall|j: int| 0 <= j < i ==> !(#[trigger] files[j].hash == hash@ && files[j].path
                    == path@),
            decreases n - i,
        {
            let f = &self.input_files[i];
            if text::str_eq(f.hash.as_str(), hash) && text::str_eq(f.path.as_str(), path) {
                assert(files[i as int].hash == hash@ && files[i as int].path == path@);
                return true;
            }
            i += 1;
        }
        false
    }

    /// Does the store hold a page record keyed (`hash`, `path`)?
    pub fn has_page(&self, hash: &str, path: &str) -> (r: bool)
        ensures
            r == has_page_key(page_views(self.pages@), hash@, path@),
    {
        let ghost pages = page_views(self.pages@);
        let n = self.pages.len();
        let mut i: usize = 0;
        while i < n
            invariant
                i <= n,
                pages == page_views(self.pages@),
                n == pages.len(),
                forall|j: int| 0 <= j < i ==> !(#[trigger] pages[j].hash == hash@ && pages[j].path
                    == path@),
            decreases n - i,
        {
            let p = &self.pages[i];
            if text::str_eq(p.hash.as_str(), hash) && text::str_eq(p.path.as_str(), path) {
                assert(pages[i as int].hash == hash@ && pages[i as int].path == path@);
                return true;
            }
            i += 1;
        }
        false
    }

    /// Does the store hold the tag row (`hash`, `path`, `tag`)?
    fn has_tag(&self, hash: &str, path: &str, tag: &str) -> (r: bool)
        ensures
            r == has_tag_key(tag_views(self.page_tags@), hash@, path@, tag@),
    {
        let ghost tags = tag_views(self.page_tags@);
        let n = self.page_tags.len();
        let mut i: usize = 0;
        while i < n
            invariant
                i <= n,
                tags == tag_views(self.page_tags@),
                n == tags.len(),
                forall|j: int| 0 <= j < i ==> !(#[trigger] tags[j].hash == hash@ && tags[j].path
                    == path@ && tags[j].tag == tag@),
            decreases n - i,
        {
            let t = &self.page_tags[i];
            if text::str_eq(t.hash.as_str(), hash) && text::str_eq(t.path.as_str(), path)
                && text::str_eq(t.tag.as_str(), tag) {
                assert(tags[i as int].hash == hash@ && tags[i as int].path == path@
                    && tags[i as int].tag == tag@);
                return true;
            }
            i += 1;
        }
        false
    }

    /// Is (`hash`, `path`) a member of revision `rev`?
    pub fn is_member(&self, hash: &str, path: &str, rev: usize) -> (r: bool)
        ensures
            r == spec_membership_at(*self, rev as int).contains((hash@, path@)),
    {
        let ghost rows = member_views(self.revision_files@);
        let n = self.revision_files.len();
        let mut i: usize = 0;
        while i < n
            invariant
                i <= n,
                rows == member_views(self.revision_files@),
                n == rows.len(),
                forall|j: int| 0 <= j < i ==> !(#[trigger] rows[j].hash == hash@ && rows[j].path
                    == path@ && rows[j].revision == rev as int),
            decreases n - i,
        {
            let row = &self.revision_files[i];
            if row.revision == rev && text::str_eq(row.hash.as_str(), hash) && text::str_eq(
                row.path.as_str(),
                path,
            ) {
                assert(rows[i as int].hash == hash@ && rows[i as int].path == path@
                    && rows[i as int].revision == rev as int);
                return true;
            }
            i += 1;
        }
        false
    }

    /// Insert a content record unless its key is already present.
    pub fn insert_input_file(&mut self, f: &InputFileIn)
        requires
            old(self).wf(),
        ensures
            final(self).wf(),
            file_views(final(self).input_files@) == or_ignore_file(
                file_views(old(self).input_files@),
                f@,
            ),
            final(self).pages == old(self).pages,
            final(self).page_tags == old(self).page_tags,
            final(self).revision_files == old(self).revision_files,
            final(self).revision_routes == old(self).revision_routes,
            final(self).revision_stylesheets == old(self).revision_stylesheets,
    {
        let ghost files = file_views(old(self).input_files@);
        if self.has_file(f.hash.as_str(), f.path.as_str()) {
            return;
        }
        let row = InputFile {
            hash: f.hash.clone(),
            path: f.path.clone(),
            contents: clone_bytes(&f.contents),
            size: f.size,
            inline: f.inline,
        };
        assert(row@ == f@);
        self.input_files.push(row);
        proof {
            assert(file_views(self.input_files@) =~= files.push(f@));
            assert forall|i: int|
                0 <= i < member_views(self.revision_files@).len() implies has_file_key(
                file_views(self.input_files@),
                #[trigger] member_views(self.revision_files@)[i].hash,
                member_views(self.revision_files@)[i].path,
            ) by {
                lemma_has_file_key_push(
                    files,
                    f@,
                    member_views(self.revision_files@)[i].hash,
                    member_views(self.revision_files@)[i].path,
                );
            }
            assert forall|i: int|
                0 <= i < page_views(self.pages@).len() implies has_file_key(
                file_views(self.input_files@),
                #[trigger] page_views(self.pages@)[i].hash,
                page_views(self.pages@)[i].path,
            ) by {
                lemma_has_file_key_push(
                    files,
                    f@,
                    page_views(self.pages@)[i].hash,
                    page_views(self.pages@)[i].path,
                );
            }
        }
    }

    /// Insert a page record unless its key is already present, then each of
    /// its tags as a tag row, likewise ignoring duplicates.
    pub fn insert_page(&mut self, p: &PageIn)
        requires
            old(self).wf(),
            has_file_key(file_views(old(self).input_files@), p.hash@, p.path@),
        ensures
            final(self).wf(),
            page_views(final(self).pages@) == or_ignore_page(
                page_views(old(self).pages@),
                page_of_insert(p@),
            ),
            tag_views(final(self).page_tags@) == or_ignore_tags_of(
                tag_views(old(self).page_tags@),
                p@,
                p@.tags.len() as int,
            ),
            final(self).input_files == old(self).input_files,
            final(self).revision_files == old(self).revision_files,
            final(self).revision_routes == old(self).revision_routes,
            final(self).revision_stylesheets == old(self).revision_stylesheets,
    {
        let ghost pages0 = page_views(old(self).pages@);
        if !self.has_page(p.hash.as_str(), p.path.as_str()) {
            let row = Page {
                hash: p.hash.clone(),
                path: p.path.clone(),
                title: p.title.clone(),
                date: p.date.clone(),
                content_offset: p.content_offset,
                template: match &p.template {
                    Some(t) => Some(t.clone()),
                    None => None,
                },
                route_path: p.route_path.clone(),
                draft: p.draft,
            };
            assert(row@ == page_of_insert(p@));
            self.pages.push(row);
            proof {
                assert(page_views(self.pages@) =~= pages0.push(page_of_insert(p@)));
            }
        }
        let ghost tags0 = tag_views(old(self).page_tags@);
        let n = p.tags.len();
        let mut i: usize = 0;
        while i < n
            invariant
                i <= n,
                n == p.tags@.len(),
                page_views(self.pages@) == or_ignore_page(
                    page_views(old(self).pages@),
                    page_of_insert(p@),
                ),
                self.input_files == old(self).input_files,
                self.revision_files == old(self).revision_files,
                self.revision_routes == old(self).revision_routes,
                self.revision_stylesheets == old(self).revision_stylesheets,
                tags0 == tag_views(old(self).page_tags@),
                tag_views(self.page_tags@) == or_ignore_tags_of(tags0, p@, i as int),
                self.wf(),
            decreases n - i,
        {
            let tag = &p.tags[i];
            assert(p@.tags[i as int] == tag@);
            let ghost cur = tag_views(self.page_tags@);
            if !self.has_tag(p.hash.as_str(), p.path.as_str(), tag.as_str()) {
                let row = PageTag { hash: p.hash.clone(), path: p.path.clone(), tag: tag.clone() };
                assert(row@ == (PageTagView { hash: p@.hash, path: p@.path, tag: p@.tags[i as int] }));
                self.page_tags.push(row);
                proof {
                    assert(tag_views(self.page_tags@) =~= cur.push(
                        PageTagView { hash: p@.hash, path: p@.path, tag: p@.tags[i as int] },
                    ));
                }
            }
            i += 1;
        }
    }

    /// Insert a membership row. The row must be new, reference a stored
    /// content record, and carry at most the next unused revision number, so
    /// that the revision sequence stays contiguous.
    pub fn insert_revision_file(&mut self, rf: &RevisionFileIn)
        requires
            old(self).wf(),
            has_file_key(file_views(old(self).input_files@), rf.hash@, rf.path@),
            !spec_membership_at(*old(self), rf.revision as int).contains((rf.hash@, rf.path@)),
            rf.revision as int <= spec_next_revision(*old(self)),
        ensures
            final(self).wf(),
            member_views(final(self).revision_files@) == member_views(
                old(self).revision_files@,
            ).push(rf@),
            final(self).input_files == old(self).input_files,
            final(self).pages == old(self).pages,
            final(self).page_tags == old(self).page_tags,
            final(self).revision_routes == old(self).revision_routes,
            final(self).revision_stylesheets == old(self).revision_stylesheets,
    {
        let ghost rows0 = member_views(old(self).revision_files@);
        let row = RevisionFile {
            hash: rf.hash.clone(),
            path: rf.path.clone(),
            revision: rf.revision,
        };
        assert(row@ == rf@);
        self.revision_files.push(row);
        proof {
            let rows1 = member_views(self.revision_files@);
            assert(rows1 =~= rows0.push(rf@));
            crate::db::revision_files::lemma_max_rev_of(rows0);
            assert(rows1.drop_last() =~= rows0);
            let files = file_views(self.input_files@);
            assert forall|i: int| 0 <= i < rows1.len() implies has_file_key(
                files,
                #[trigger] rows1[i].hash,
                rows1[i].path,
            ) by {
                if i < rows0.len() {
                    assert(rows1[i] == rows0[i]);
                }
            }
            let sheets = stylesheet_views(self.revision_stylesheets@);
            assert forall|i: int| 0 <= i < sheets.len() implies has_revision(
                rows1,
                #[trigger] sheets[i].revision,
            ) by {
                let rv = sheets[i].revision;
                assert(has_revision(rows0, rv));
                let j = choose|j: int| 0 <= j < rows0.len() && #[trigger] rows0[j].revision == rv;
                assert(rows1[j].revision == rv);
            }
            match max_rev_of(rows1) {
                None => {
                    assert(false);
                },
                Some(m) => {
                    assert forall|r: int| 0 <= r <= m implies #[trigger] has_revision(
                        rows1,
                        r,
                    ) by {
                        if r == rf.revision as int {
                            assert(rows1[rows1.len() - 1].revision == r);
                        } else {
                            assert(has_revision(rows0, r));
                            let j = choose|j: int|
                                0 <= j < rows0.len() && #[trigger] rows0[j].revision == r;
                            assert(rows1[j].revision == r);
                        }
                    }
                },
            }
        }
    }

    /// Insert a route row; routes carry no uniqueness constraint.
    pub fn insert_revision_route(&mut self, route: &RevisionRouteIn)
        requires
            old(self).wf(),
        ensures
            final(self).wf(),
            route_views(final(self).revision_routes@) == route_views(
                old(self).revision_routes@,
            ).push(route@),
            final(self).input_files == old(self).input_files,
            final(self).pages == old(self).pages,
            final(self).page_tags == old(self).page_tags,
            final(self).revision_files == old(self).revision_files,
            final(self).revision_stylesheets == old(self).revision_stylesheets,
    {
        let row = RevisionRoute {
            revision: route.revision,
            route_path: route.route_path.clone(),
            parent_route_path: match &route.parent_route_path {
                Some(s) => Some(s.clone()),
                None => None,
            },
            kind: route.kind,
            hash: route.hash.clone(),
            path: route.path.clone(),
            template: match &route.template {
                Some(s) => Some(s.clone()),
                None => None,
            },
        };
        assert(row@ == route@);
        self.revision_routes.push(row);
        proof {
            assert(route_views(self.revision_routes@) =~= route_views(
                old(self).revision_routes@,
            ).push(route@));
        }
    }

    /// Insert a stylesheet artifact under a (revision, name) key not yet
    /// present.
    pub fn insert_revision_stylesheet(&mut self, sheet: &RevisionStylesheetIn)
        requires
            old(self).wf(),
            !has_stylesheet_key(
                stylesheet_views(old(self).revision_stylesheets@),
                sheet.revision as int,
                sheet.name@,
            ),
            has_revision(member_views(old(self).revision_files@), sheet.revision as int),
        ensures
            final(self).wf(),
            stylesheet_views(final(self).revision_stylesheets@) == stylesheet_views(
                old(self).revision_stylesheets@,
            ).push(sheet@),
            final(self).input_files == old(self).input_files,
            final(self).pages == old(self).pages,
            final(self).page_tags == old(self).page_tags,
            final(self).revision_files == old(self).revision_files,
            final(self).revision_routes == old(self).revision_routes,
    {
        let row = RevisionStylesheet {
            revision: sheet.revision,
            name: sheet.name.clone(),
            data: sheet.data.clone(),
        };
        assert(row@ == sheet@);
        self.revision_stylesheets.push(row);
        proof {
            assert(stylesheet_views(self.revision_stylesheets@) =~= stylesheet_views(
                old(self).revision_stylesheets@,
            ).push(sheet@));
        }
    }

    /// The greatest committed revision number, or `None` for an empty store.
    pub fn max_revision(&self) -> (r: Option<usize>)
        ensures
            match max_rev_of(member_views(self.revision_files@)) {
                None => r is None,
                Some(m) => 0 <= m <= usize::MAX && r == Some(m as usize),
            },
    {
        let ghost rows = member_views(self.revision_files@);
        let n = self.revision_files.len();
        let mut best: Option<usize> = None;
        let mut i: usize = 0;
        proof {
            assert(rows.take(0) =~= Seq::<crate::db::revision_files::RevisionFileView>::empty());
        }
        while i < n
            invariant
                i <= n,
                rows == member_views(self.revision_files@),
                n == rows.len(),
                match max_rev_of(rows.take(i as int)) {
                    None => best is None,
                    Some(m) => best == Some(m as usize),
                },
            decreases n - i,
        {
            let rev = self.revision_files[i].revision;
            assert(rows[i as int].revision == rev as int);
            best = match best {
                None => Some(rev),
                Some(b) => if rev > b {
                    Some(rev)
                } else {
                    Some(b)
                },
            };
            proof {
                assert(rows.take(i + 1).drop_last() =~= rows.take(i as int));
                assert(rows.take(i + 1).last() == rows[i as int]);
                crate::db::revision_files::lemma_max_rev_of(rows.take(i + 1));
                crate::db::revision_files::lemma_max_rev_of(rows.take(i as int));
                assert(forall|j: int|
                    0 <= j < rows.len() ==> 0 <= (#[trigger] rows[j]).revision <= usize::MAX);
                assert(forall|j: int|
                    0 <= j < i + 1 ==> rows.take(i + 1)[j] == rows[j]);
            }
            i += 1;
        }
        proof {
            assert(rows.take(n as int) =~= rows);
            crate::db::revision_files::lemma_max_rev_of(rows);
            assert(forall|j: int|
                0 <= j < rows.len() ==> 0 <= (#[trigger] rows[j]).revision <= usize::MAX);
        }
        best
    }

    /// The (hash, path) pairs of revision `rev`'s membership, in stored
    /// order.
    pub fn membership_at(&self, rev: usize) -> (r: Vec<(String, String)>)
        ensures
            crate::walk::revision_set::pair_views(r@).to_set() == spec_membership_at(
                *self,
                rev as int,
            ),
    {
        let ghost rows = member_views(self.revision_files@);
        let n = self.revision_files.len();
        let mut out: Vec<(String, String)> = Vec::new();
        let mut i: usize = 0;
        while i < n
            invariant
                i <= n,
                rows == member_views(self.revision_files@),
                n == rows.len(),
                forall|hp: (Seq<char>, Seq<char>)|
                    #[trigger] crate::walk::revision_set::pair_views(out@).contains(hp)
                        <==> has_member_row(rows.take(i as int), hp.0, hp.1, rev as int),
            decreases n - i,
        {
            let ghost before = crate::walk::revision_set::pair_views(out@);
            let row = &self.revision_files[i];
            assert(rows[i as int] == row@);
            if row.revision == rev {
                out.push((row.hash.clone(), row.path.clone()));
                proof {
                    assert(crate::walk::revision_set::pair_views(out@) =~= before.push(
                        (row.hash@, row.path@),
                    ));
                }
            }
            proof {
                assert(rows.take(i + 1) =~= rows.take(i as int).push(rows[i as int]));
                assert forall|hp: (Seq<char>, Seq<char>)|
                    #[trigger] crate::walk::revision_set::pair_views(out@).contains(hp)
                        <==> has_member_row(rows.take(i + 1), hp.0, hp.1, rev as int) by {
                    let cur = crate::walk::revision_set::pair_views(out@);
                    if cur.contains(hp) {
                        let j = choose|j: int| 0 <= j < cur.len() && #[trigger] cur[j] == hp;
                        if j < before.len() {
                            assert(before[j] == hp);
                            assert(before.contains(hp));
                            let k = choose|k: int|
                                0 <= k < rows.take(i as int).len() && #[trigger] rows.take(
                                    i as int,
                                )[k].hash == hp.0 && rows.take(i as int)[k].path == hp.1
                                    && rows.take(i as int)[k].revision == rev as int;
                            assert(rows.take(i + 1)[k].hash == hp.0);
                        } else {
                            assert(hp == (rows[i as int].hash, rows[i as int].path));
                            assert(rows.take(i + 1)[i as int].hash == hp.0);
                        }
                    }
                    if has_member_row(rows.take(i + 1), hp.0, hp.1, rev as int) {
                        let k = choose|k: int|
                            0 <= k < rows.take(i + 1).len() && #[trigger] rows.take(i + 1)[k].hash
                                == hp.0 && rows.take(i + 1)[k].path == hp.1 && rows.take(
                                i + 1,
                            )[k].revision == rev as int;
                        if k < i {
                            assert(rows.take(i as int)[k].hash == hp.0);
                            assert(has_member_row(rows.take(i as int), hp.0, hp.1, rev as int));
                            assert(before.contains(hp));
                            let j = choose|j: int|
                                0 <= j < before.len() && #[trigger] before[j] == hp;
                            assert(cur[j] == hp);
                        } else {
                            assert(rows[i as int].revision == rev as int);
                            assert(cur[cur.len() - 1] == hp);
                        }
                    }
                }
            }
            i += 1;
        }
        proof {
            assert(rows.take(n as int) =~= rows);
            assert(crate::walk::revision_set::pair_views(out@).to_set() =~= spec_membership_at(
                *self,
                rev as int,
            ));
        }
        out
    }

    /// Is some membership row carrying revision `rev` stored?
    fn has_revision_row(&self, rev: usize) -> (r: bool)
        ensures
            r == has_revision(member_views(self.revision_files@), rev as int),
    {
        let ghost rows = member_views(self.revision_files@);
        let n = self.revision_files.len();
        let mut i: usize = 0;
        while i < n
            invariant
                i <= n,
                rows == member_views(self.revision_files@),
                n == rows.len(),
                forall|j: int| 0 <= j < i ==> (#[trigger] rows[j]).revision != rev as int,
            decreases n - i,
        {
            if self.revision_files[i].revision == rev {
                assert(rows[i as int].revision == rev as int);
                return true;
            }
            i += 1;
        }
        false
    }

    /// No two content records share a key.
    fn files_unique(&self) -> (r: bool)
        ensures
            r == (forall|i: int, j: int|
                #![trigger file_views(self.input_files@)[i], file_views(self.input_files@)[j]]
                0 <= i < j < file_views(self.input_files@).len() ==> !(file_views(
                    self.input_files@,
                )[i].hash == file_views(self.input_files@)[j].hash && file_views(
                    self.input_files@,
                )[i].path == file_views(self.input_files@)[j].path)),
    {
        let ghost files = file_views(self.input_files@);
        let n = self.input_files.len();
        let mut i: usize = 0;
        while i < n
            invariant
                i <= n,
                files == file_views(self.input_files@),
                n == files.len(),
                forall|a: int, b: int| #![trigger files[a], files[b]]
                    0 <= a < b < files.len() && a < i ==> !(files[a].hash == files[b].hash
                        && files[a].path == files[b].path),
            decreases n - i,
        {
            let mut j = i + 1;
            while j < n
                invariant
                    i < j <= n,
                    i < n,
                    files == file_views(self.input_files@),
                    n == files.len(),
                    forall|b: int| i < b < j ==> !((#[trigger] files[b]).hash == files[i as int].hash && files[b].path == files[i as int].path),
                decreases n - j,
            {
                let a = &self.input_files[i];
                let b = &self.input_files[j];
                if text::str_eq(a.hash.as_str(), b.hash.as_str()) && text::str_eq(
                    a.path.as_str(),
                    b.path.as_str(),
                ) {
                    assert(files[i as int].hash == files[j as int].hash && files[i as int].path
                        == files[j as int].path);
                    return false;
                }
                j += 1;
            }
            i += 1;
        }
        true
    }

    /// No two page records share a key.
    fn pages_unique(&self) -> (r: bool)
        ensures
            r == (forall|i: int, j: int|
                #![trigger page_views(self.pages@)[i], page_views(self.pages@)[j]]
                0 <= i < j < page_views(self.pages@).len() ==> !(page_views(self.pages@)[i].hash
                    == page_views(self.pages@)[j].hash && page_views(self.pages@)[i].path
                    == page_views(self.pages@)[j].path)),
    {
        let ghost pages = page_views(self.pages@);
        let n = self.pages.len();
        let mut i: usize = 0;
        while i < n
            invariant
                i <= n,
                pages == page_views(self.pages@),
                n == pages.len(),
                forall|a: int, b: int| #![trigger pages[a], pages[b]]
                    0 <= a < b < pages.len() && a < i ==> !(pages[a].hash == pages[b].hash
                        && pages[a].path == pages[b].path),
            decreases n - i,
        {
            let mut j = i + 1;
            while j < n
                invariant
                    i < j <= n,
                    i < n,
                    pages == page_views(self.pages@),
                    n == pages.len(),
                    forall|b: int| i < b < j ==> !((#[trigger] pages[b]).hash == pages[i as int].hash && pages[b].path == pages[i as int].path),
                decreases n - j,
            {
                let a = &self.pages[i];
                let b = &self.pages[j];
                if text::str_eq(a.hash.as_str(), b.hash.as_str()) && text::str_eq(
                    a.path.as_str(),
                    b.path.as_str(),
                ) {
                    assert(pages[i as int].hash == pages[j as int].hash && pages[i as int].path
                        == pages[j as int].path);
                    return false;
                }
                j += 1;
            }
            i += 1;
        }
        true
    }

    /// No two membership rows share a (hash, path, revision) triple.
    fn members_unique(&self) -> (r: bool)
        ensures
            r == (forall|i: int, j: int|
                #![trigger member_views(self.revision_files@)[i], member_views(self.revision_files@)[j]]
                0 <= i < j < member_views(self.revision_files@).len() ==> !(member_views(
                    self.revision_files@,
                )[i].hash == member_views(self.revision_files@)[j].hash && member_views(
                    self.revision_files@,
                )[i].path == member_views(self.revision_files@)[j].path && member_views(
                    self.revision_files@,
                )[i].revision == member_views(self.revision_files@)[j].revision)),
    {
        let ghost rows = member_views(self.revision_files@);
        let n = self.revision_files.len();
        let mut i: usize = 0;
        while i < n
            invariant
                i <= n,
                rows == member_views(self.revision_files@),
                n == rows.len(),
                forall|a: int, b: int| #![trigger rows[a], rows[b]]
                    0 <= a < b < rows.len() && a < i ==> !(rows[a].hash == rows[b].hash
                        && rows[a].path == rows[b].path && rows[a].revision == rows[b].revision),
            decreases n - i,
        {
            let mut j = i + 1;
            while j < n
                invariant
                    i < j <= n,
                    i < n,
                    rows == member_views(self.revision_files@),
                    n == rows.len(),
                    forall|b: int| i < b < j ==> !((#[trigger] rows[b]).hash == rows[i as int].hash
                        && rows[b].path == rows[i as int].path && rows[b].revision == rows[i as int].revision),
                decreases n - j,
            {
                let a = &self.revision_files[i];
                let b = &self.revision_files[j];
                if a.revision == b.revision && text::str_eq(a.hash.as_str(), b.hash.as_str())
                    && text::str_eq(a.path.as_str(), b.path.as_str()) {
                    assert(rows[i as int].hash == rows[j as int].hash && rows[i as int].path
                        == rows[j as int].path && rows[i as int].revision == rows[j as int].revision);
                    return false;
                }
                j += 1;
            }
            i += 1;
        }
        true
    }

    /// No two stylesheet artifacts share a (revision, name) key.
    fn sheets_unique(&self) -> (r: bool)
        ensures
            r == (forall|i: int, j: int|
                #![trigger stylesheet_views(self.revision_stylesheets@)[i], stylesheet_views(self.revision_stylesheets@)[j]]
                0 <= i < j < stylesheet_views(self.revision_stylesheets@).len() ==> !(
                stylesheet_views(self.revision_stylesheets@)[i].revision == stylesheet_views(
                    self.revision_stylesheets@,
                )[j].revision && stylesheet_views(self.revision_stylesheets@)[i].name
                    == stylesheet_views(self.revision_stylesheets@)[j].name)),
    {
        let ghost sheets = stylesheet_views(self.revision_stylesheets@);
        let n = self.revision_stylesheets.len();
        let mut i: usize = 0;
        while i < n
            invariant
                i <= n,
                sheets == stylesheet_views(self.revision_stylesheets@),
                n == sheets.len(),
                forall|a: int, b: int| #![trigger sheets[a], sheets[b]]
                    0 <= a < b < sheets.len() && a < i ==> !(sheets[a].revision
                        == sheets[b].revision && sheets[a].name == sheets[b].name),
            decreases n - i,
        {
            let mut j = i + 1;
            while j < n
                invariant
                    i < j <= n,
                    i < n,
                    sheets == stylesheet_views(self.revision_stylesheets@),
                    n == sheets.len(),
                    forall|b: int| i < b < j ==> !((#[trigger] sheets[b]).revision == sheets[i as int].revision && sheets[b].name == sheets[i as int].name),
                decreases n - j,
            {
                let a = &self.revision_stylesheets[i];
                let b = &self.revision_stylesheets[j];
                if a.revision == b.revision && text::str_eq(a.name.as_str(), b.name.as_str()) {
                    assert(sheets[i as int].revision == sheets[j as int].revision
                        && sheets[i as int].name == sheets[j as int].name);
                    return false;
                }
                j += 1;
            }
            i += 1;
        }
        true
    }

    /// Every membership row references a stored content record.
    fn members_reference_files(&self) -> (r: bool)
        ensures
            r == (forall|i: int|
                0 <= i < member_views(self.revision_files@).len() ==> has_file_key(
                    file_views(self.input_files@),
                    (#[trigger] member_views(self.revision_files@)[i]).hash,
                    member_views(self.revision_files@)[i].path,
                )),
    {
        let ghost rows = member_views(self.revision_files@);
        let n = self.revision_files.len();
        let mut i: usize = 0;
        while i < n
            invariant
                i <= n,
                rows == member_views(self.revision_files@),
                n == rows.len(),
                forall|j: int| 0 <= j < i ==> has_file_key(
                    file_views(self.input_files@),
                    (#[trigger] rows[j]).hash,
                    rows[j].path,
                ),
            decreases n - i,
        {
            let row_hash;
            let row_path;
            {
                let row = &self.revision_files[i];
                row_hash = row.hash.clone();
                row_path = row.path.clone();
            }
            assert(rows[i as int].hash == row_hash@ && rows[i as int].path == row_path@);
            if !self.has_file(row_hash.as_str(), row_path.as_str()) {
                return false;
            }
            i += 1;
        }
        true
    }

    /// Every page record references a stored content record.
    fn pages_reference_files(&self) -> (r: bool)
        ensures
            r == (forall|i: int|
                0 <= i < page_views(self.pages@).len() ==> has_file_key(
                    file_views(self.input_files@),
                    (#[trigger] page_views(self.pages@)[i]).hash,
                    page_views(self.pages@)[i].path,
                )),
    {
        let ghost pages = page_views(self.pages@);
        let n = self.pages.len();
        let mut i: usize = 0;
        while i < n
            invariant
                i <= n,
                pages == page_views(self.pages@),
                n == pages.len(),
                forall|j: int| 0 <= j < i ==> has_file_key(
                    file_views(self.input_files@),
                    (#[trigger] pages[j]).hash,
                    pages[j].path,
                ),
            decreases n - i,
        {
            let page_hash;
            let page_path;
            {
                let page = &self.pages[i];
                page_hash = page.hash.clone();
                page_path = page.path.clone();
            }
            assert(pages[i as int].hash == page_hash@ && pages[i as int].path == page_path@);
            if !self.has_file(page_hash.as_str(), page_path.as_str()) {
                return false;
            }
            i += 1;
        }
        true
    }

    /// Every revision number up to the stored maximum is present.
    fn revisions_contiguous(&self) -> (r: bool)
        ensures
            r == (match max_rev_of(member_views(self.revision_files@)) {
                None => true,
                Some(m) => forall|rr: int| 0 <= rr <= m ==> #[trigger] has_revision(
                    member_views(self.revision_files@),
                    rr,
                ),
            }),
    {
        let ghost rows = member_views(self.revision_files@);
        let m = match self.max_revision() {
            None => {
                return true;
            },
            Some(m) => m,
        };
        let mut rv: usize = 0;
        while rv < m
            invariant
                rv <= m,
                rows == member_views(self.revision_files@),
                max_rev_of(rows) == Some(m as int),
                forall|rr: int| 0 <= rr < rv ==> #[trigger] has_revision(rows, rr),
            decreases m - rv,
        {
            if !self.has_revision_row(rv) {
                return false;
            }
            rv += 1;
        }
        if !self.has_revision_row(m) {
            return false;
        }
        true
    }

    /// Every stylesheet artifact belongs to a committed revision.
    fn sheets_reference_revisions(&self) -> (r: bool)
        ensures
            r == (forall|i: int|
                0 <= i < stylesheet_views(self.revision_stylesheets@).len() ==> has_revision(
                    member_views(self.revision_files@),
                    (#[trigger] stylesheet_views(self.revision_stylesheets@)[i]).revision,
                )),
    {
        let ghost sheets = stylesheet_views(self.revision_stylesheets@);
        let n = self.revision_stylesheets.len();
        let mut i: usize = 0;
        while i < n
            invariant
                i <= n,
                sheets == stylesheet_views(self.revision_stylesheets@),
                n == sheets.len(),
                forall|j: int| 0 <= j < i ==> has_revision(
                    member_views(self.revision_files@),
                    (#[trigger] sheets[j]).revision,
                ),
            decreases n - i,
        {
            let rev = self.revision_stylesheets[i].revision;
            assert(sheets[i as int].revision == rev as int);
            if !self.has_revision_row(rev) {
                return false;
            }
            i += 1;
        }
        true
    }

    /// Decide the store invariant. A state the library's own commits built
    /// always satisfies it; one assembled elsewhere — loaded from disk, say —
    /// is checked here before anything is built on it.
    pub fn check_wf(&self) -> (r: bool)
        ensures
            r == self.wf(),
    {
        self.files_unique() && self.pages_unique() && self.members_unique()
            && self.sheets_unique() && self.members_reference_files()
            && self.pages_reference_files() && self.revisions_contiguous()
            && self.sheets_reference_revisions()
    }
}

/// The next revision number strictly exceeds every committed one: revision
/// numbers increase and are never reused.
pub proof fn lemma_next_revision_strictly_greater(s: Store)
    ensures
        forall|i: int|
            0 <= i < member_views(s.revision_files@).len() ==> (#[trigger] member_views(
                s.revision_files@,
            )[i]).revision < spec_next_revision(s),
{
    crate::db::revision_files::lemma_max_rev_of(member_views(s.revision_files@));
}

/// A content-record key stays present when another record is appended.
pub proof fn lemma_has_file_key_push(
    files: Seq<InputFileView>,
    x: InputFileView,
    hash: Seq<char>,
    path: Seq<char>,
)
    requires
        has_file_key(files, hash, path),
    ensures
        has_file_key(files.push(x), hash, path),
{
    let i = choose|i: int|
        0 <= i < files.len() && #[trigger] files[i].hash == hash && files[i].path == path;
    assert(files.push(x)[i].hash == hash);
}

/// Copy a byte vector.
pub(crate) fn clone_bytes(v: &Vec<u8>) -> (r: Vec<u8>)
    ensures
        r@ == v@,
{
    let mut out: Vec<u8> = Vec::new();
    let n = v.len();
    let mut i: usize = 0;
    while i < n
        invariant
            i <= n,
            n == v@.len(),
            out@ =~= v@.take(i as int),
        decreases n - i,
    {
        out.push(v[i]);
        proof {
            assert(v@.take(i + 1) =~= v@.take(i as int).push(v@[i as int]));
        }
        i += 1;
    }
    proof {
        assert(v@.take(n as int) =~= v@);
    }
    out
}

} // verus!
