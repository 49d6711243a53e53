//! Page records: metadata for recognized page documents, one per content
//! record of a page, plus the page's tags as separate rows keyed by
//! (hash, path, tag).

use vstd::prelude::*;

use crate::db::Store;

verus! {

/// The mathematical value of a page record.
pub ghost struct PageView {
    pub hash: Seq<char>,
    pub path: Seq<char>,
    pub title: Seq<char>,
    pub date: Seq<char>,
    pub content_offset: int,
    pub template: Option<Seq<char>>,
    pub route_path: Seq<char>,
    pub draft: bool,
}

/// A stored page record.
#[derive(Debug, Clone, PartialEq, Eq)]
pub struct Page {
    pub hash: String,
    pub path: String,
    pub title: String,
    pub date: String,
    pub content_offset: usize,
    pub template: Option<String>,
    pub route_path: String,
    pub draft: bool,
}

impl View for Page {
    type V = PageView;

    open spec fn view(&self) -> PageView {
        PageView {
            hash: self.hash@,
            path: self.path@,
            title: self.title@,
            date: self.date@,
            content_offset: self.content_offset as int,
            template: match self.template {
                Some(t) => Some(t@),
                None => None,
            },
            route_path: self.route_path@,
            draft: self.draft,
        }
    }
}

/// The mathematical value of a page insert, tags included.
pub ghost struct PageInView {
    pub hash: Seq<char>,
    pub path: Seq<char>,
    pub title: Seq<char>,
    pub date: Seq<char>,
    pub tags: Seq<Seq<char>>,
    pub content_offset: int,
    pub route_path: Seq<char>,
    pub template: Option<Seq<char>>,
    pub draft: bool,
}

/// A page record as handed to the store for insertion; its tags become
/// separate tag rows.
#[derive(Debug, Clone, PartialEq, Eq)]
pub struct PageIn {
    pub hash: String,
    pub path: String,
    pub title: String,
    pub date: String,
    pub tags: Vec<String>,
    pub content_offset: usize,
    pub route_path: String,
    pub template: Option<String>,
    pub draft: bool,
}

impl View for PageIn {
    type V = PageInView;

    open spec fn view(&self) -> PageInView {
        PageInView {
            hash: self.hash@,
            path: self.path@,
            title: self.title@,
            date: self.date@,
            tags: self.tags@.map_values(|t: String| t@),
            content_offset: self.content_offset as int,
            route_path: self.route_path@,
            template: match self.template {
                Some(t) => Some(t@),
                None => None,
            },
            draft: self.draft,
        }
    }
}

/// The page row that a page insert stands for.
pub open spec fn page_of_insert(p: PageInView) -> PageView {
    PageView {
        hash: p.hash,
        path: p.path,
        title: p.title,
        date: p.date,
        content_offset: p.content_offset,
        template: p.template,
        route_path: p.route_path,
        draft: p.draft,
    }
}

/// The views of a sequence of page records.
pub open spec fn page_views(s: Seq<Page>) -> Seq<PageView> {
    s.map_values(|x: Page| x@)
}

/// The views of a sequence of page inserts.
pub open spec fn page_in_views(s: Seq<PageIn>) -> Seq<PageInView> {
    s.map_values(|x: PageIn| x@)
}

/// Does `pages` hold a record keyed (`hash`, `path`)?
pub open spec fn has_page_key(pages: Seq<PageView>, hash: Seq<char>, path: Seq<char>) -> bool {
    exists|i: int| 0 <= i < pages.len() && #[trigger] pages[i].hash == hash && pages[i].path == path
}

/// One insert-or-ignore step on a sequence of page records.
pub open spec fn or_ignore_page(base: Seq<PageView>, p: PageView) -> Seq<PageView> {
    if has_page_key(base, p.hash, p.path) {
        base
    } else {
        base.push(p)
    }
}

/// The mathematical value of a tag row.
pub ghost struct PageTagView {
    pub hash: Seq<char>,
    pub path: Seq<char>,
    pub tag: Seq<char>,
}

/// One tag of a page, keyed by (hash, path, tag).
#[derive(Debug, Clone, PartialEq, Eq)]
pub struct PageTag {
    pub hash: String,
    pub path: String,
    pub tag: String,
}

impl View for PageTag {
    type V = PageTagView;

    open spec fn view(&self) -> PageTagView {
        PageTagView { hash: self.hash@, path: self.path@, tag: self.tag@ }
    }
}

/// The views of a sequence of tag rows.
pub open spec fn tag_views(s: Seq<PageTag>) -> Seq<PageTagView> {
    s.map_values(|x: PageTag| x@)
}

/// Does `tags` hold the row (`hash`, `path`, `tag`)?
pub open spec fn has_tag_key(
    tags: Seq<PageTagView>,
    hash: Seq<char>,
    path: Seq<char>,
    tag: Seq<char>,
) -> bool {
    exists|i: int|
        0 <= i < tags.len() && #[trigger] tags[i].hash == hash && tags[i].path == path
            && tags[i].tag == tag
}

/// One insert-or-ignore step on a sequence of tag rows.
pub open spec fn or_ignore_tag(base: Seq<PageTagView>, t: PageTagView) -> Seq<PageTagView> {
    if has_tag_key(base, t.hash, t.path, t.tag) {
        base
    } else {
        base.push(t)
    }
}

/// Insert-or-ignore of a whole batch of page inserts, in arrival order.
pub open spec fn or_ignore_pages(base: Seq<PageView>, adds: Seq<PageInView>) -> Seq<PageView>
    decreases adds.len(),
{
    if adds.len() == 0 {
        base
    } else {
        or_ignore_page(or_ignore_pages(base, adds.drop_last()), page_of_insert(adds.last()))
    }
}

/// Insert-or-ignore of every tag of one page insert, in order.
pub open spec fn or_ignore_tags_of(base: Seq<PageTagView>, p: PageInView, k: int) -> Seq<
    PageTagView,
>
    decreases k,
{
    if k <= 0 {
        base
    } else {
        or_ignore_tag(
            or_ignore_tags_of(base, p, k - 1),
            PageTagView { hash: p.hash, path: p.path, tag: p.tags[k - 1] },
        )
    }
}

/// Insert-or-ignore of the tags of a whole batch of page inserts.
pub open spec fn or_ignore_all_tags(base: Seq<PageTagView>, adds: Seq<PageInView>) -> Seq<
    PageTagView,
>
    decreases adds.len(),
{
    if adds.len() == 0 {
        base
    } else {
        or_ignore_tags_of(
            or_ignore_all_tags(base, adds.drop_last()),
            adds.last(),
            adds.last().tags.len() as int,
        )
    }
}

impl Page {
    /// The page records whose content record is a member of revision
    /// `rev_id`, in stored order.
    pub fn for_revision(db: &Store, rev_id: usize) -> (r: Vec<Page>)
        requires
            db.wf(),
        ensures
            r@ == db.pages@.filter(
                |p: Page|
                    crate::db::spec_membership_at(*db, rev_id as int).contains((p.hash@, p.path@)),
            ),
    {
        let ghost pred = |p: Page|
            crate::db::spec_membership_at(*db, rev_id as int).contains((p.hash@, p.path@));
        let n = db.pages.len();
        let mut out: Vec<Page> = Vec::new();
        let mut i: usize = 0;
        proof {
            assert(db.pages@.take(0) =~= Seq::<Page>::empty());
            assert(out@ =~= db.pages@.take(0).filter(pred));
        }
        while i < n
            invariant
                i <= n,
                n == db.pages@.len(),
                db.wf(),
                pred == (|p: Page|
                    crate::db::spec_membership_at(*db, rev_id as int).contains((p.hash@, p.path@))),
                out@ == db.pages@.take(i as int).filter(pred),
            decreases n - i,
        {
            let page = &db.pages[i];
            if db.is_member(page.hash.as_str(), page.path.as_str(), rev_id) {
                let copy = Page {
                    hash: page.hash.clone(),
                    path: page.path.clone(),
                    title: page.title.clone(),
                    date: page.date.clone(),
                    content_offset: page.content_offset,
                    template: match &page.template {
                        Some(t) => Some(t.clone()),
                        None => None,
                    },
                    route_path: page.route_path.clone(),
                    draft: page.draft,
                };
                assert(copy == db.pages@[i as int]);
                out.push(copy);
            }
            proof {
                assert(db.pages@.take(i + 1) =~= db.pages@.take(i as int).push(
                    db.pages@[i as int],
                ));
                Seq::filter_distributes_over_add(
                    db.pages@.take(i as int),
                    seq![db.pages@[i as int]],
                    pred,
                );
                assert(db.pages@.take(i as int) + seq![db.pages@[i as int]] =~= db.pages@.take(
                    i + 1,
                ));
                reveal_with_fuel(Seq::<Page>::filter, 2);
                assert(seq![db.pages@[i as int]].drop_last() =~= Seq::<Page>::empty());
            }
            i += 1;
        }
        proof {
            assert(db.pages@.take(n as int) =~= db.pages@);
        }
        out
    }
}

} // verus!
