//! Ingestion events: normalized descriptions of observed filesystem changes,
//! and how one event mutates a build cycle's revision set and pending record
//! writes.

use vstd::prelude::*;

use crate::db::input_files::{file_in_views, InputFileIn, InputFileView};
use crate::db::pages::{page_in_views, PageIn, PageInView};
use crate::frontmatter::{spec_page_meta, spec_parse_error, Error, FrontMatter};
use crate::walk::revision_route::{is_page_path, spec_to_route_path, to_route_path};
use crate::walk::revision_set::RevisionSet;
use crate::text;

verus! {

/// One observed file: its classification, logical and disk paths,
/// fingerprint, size, and bytes.
#[derive(Debug)]
pub struct WalkerItem {
    pub inline: bool,
    pub path: String,
    pub disk_path: String,
    pub hash: String,
    pub size: i64,
    pub contents: Vec<u8>,
}

/// One ingestion event of a batch.
#[derive(Debug)]
pub enum WalkerEvent {
    /// A file first seen by a walk.
    Add(WalkerItem),
    /// A removal, keyed by logical path; a directory removal carries the
    /// directory's path and so removes every member under it.
    Remove(String),
    /// A file reported changed; an unchanged (same hash, same path) update
    /// is a touch and has no effect.
    Update(WalkerItem),
}

/// The record writes a batch has accumulated, applied at commit.
pub struct PendingWrites {
    pub input_files: Vec<InputFileIn>,
    pub pages: Vec<PageIn>,
}

impl PendingWrites {
    /// No writes yet.
    pub fn new() -> (r: PendingWrites)
        ensures
            r.input_files@ == Seq::<InputFileIn>::empty(),
            r.pages@ == Seq::<PageIn>::empty(),
    {
        PendingWrites { input_files: Vec::new(), pages: Vec::new() }
    }
}

/// The state an event acts on: the membership so far and the writes so far.
#[verifier::ext_equal]
pub ghost struct BatchState {
    pub members: Set<(Seq<char>, Seq<char>)>,
    pub files: Seq<InputFileView>,
    pub pages: Seq<PageInView>,
}

/// The content record an item persists.
pub open spec fn item_file(item: WalkerItem) -> InputFileView {
    InputFileView {
        hash: item.hash@,
        path: item.path@,
        contents: item.contents@,
        size: item.size as int,
        inline: item.inline,
    }
}

/// The page record an item persists, given its parsed front matter and body
/// offset.
pub open spec fn item_page(item: WalkerItem, fm: FrontMatter, off: int) -> PageInView {
    PageInView {
        hash: item.hash@,
        path: item.path@,
        title: fm.title@,
        date: fm.date@,
        tags: fm.tags@.map_values(|t: String| t@),
        content_offset: off,
        route_path: spec_to_route_path(item.path@),
        template: match fm.template {
            Some(t) => Some(t@),
            None => None,
        },
        draft: false,
    }
}

/// An addition: nothing if the pair is already a member; otherwise the
/// content record is persisted, the pair joins the membership, and a page
/// document also persists its page record — or fails the batch if its front
/// matter does not parse.
pub open spec fn apply_add(st: BatchState, item: WalkerItem) -> Option<BatchState> {
    if st.members.contains((item.hash@, item.path@)) {
        Some(st)
    } else if is_page_path(item.path@) {
        match spec_page_meta(item.contents@) {
            None => None,
            Some(meta) => Some(
                BatchState {
                    members: st.members.insert((item.hash@, item.path@)),
                    files: st.files.push(item_file(item)),
                    pages: st.pages.push(item_page(item, meta.0, meta.1)),
                },
            ),
        }
    } else {
        Some(
            BatchState {
                members: st.members.insert((item.hash@, item.path@)),
                files: st.files.push(item_file(item)),
                pages: st.pages,
            },
        )
    }
}

/// What one event does to the batch state.
pub open spec fn apply_event(st: BatchState, ev: WalkerEvent) -> Option<BatchState> {
    match ev {
        WalkerEvent::Add(item) => apply_add(st, item),
        WalkerEvent::Remove(p) => Some(
            BatchState {
                members: st.members.filter(
                    |hp: (Seq<char>, Seq<char>)| !p@.is_prefix_of(hp.1),
                ),
                files: st.files,
                pages: st.pages,
            },
        ),
        WalkerEvent::Update(item) => if st.members.contains((item.hash@, item.path@)) {
            Some(st)
        } else {
            apply_add(
                BatchState {
                    members: st.members.filter(
                        |hp: (Seq<char>, Seq<char>)| !item.path@.is_prefix_of(hp.1),
                    ),
                    files: st.files,
                    pages: st.pages,
                },
                item,
            )
        },
    }
}

/// A whole batch applied in arrival order; the first front-matter failure
/// fails the batch.
pub open spec fn apply_events(st: BatchState, evs: Seq<WalkerEvent>) -> Option<BatchState>
    decreases evs.len(),
{
    if evs.len() == 0 {
        Some(st)
    } else {
        match apply_event(st, evs.first()) {
            None => None,
            Some(st2) => apply_events(st2, evs.drop_first()),
        }
    }
}

/// The batch state that a revision set and pending writes stand for.
pub open spec fn batch_state_of(rv: RevisionSet, writes: PendingWrites) -> BatchState {
    BatchState {
        members: rv@,
        files: file_in_views(writes.input_files@),
        pages: page_in_views(writes.pages@),
    }
}

/// The error an event reports when its page document's front matter fails to
/// parse; a removal never fails.
pub open spec fn event_error(ev: WalkerEvent) -> Error {
    match ev {
        WalkerEvent::Add(item) => spec_parse_error(item.contents@),
        WalkerEvent::Update(item) => spec_parse_error(item.contents@),
        WalkerEvent::Remove(_) => Error::Eof,
    }
}

/// Re-ingesting an unchanged (same hash, same path) file as an update is a
/// touch: it writes no new records and leaves the membership exactly as it
/// was.
pub proof fn lemma_touch_is_noop(st: BatchState, item: WalkerItem)
    requires
        st.members.contains((item.hash@, item.path@)),
    ensures
        apply_event(st, WalkerEvent::Update(item)) == Some(st),
{
}

/// Record an item: persist its content record, add it to the membership, and
/// for a page document parse its front matter and persist the page record.
pub fn new_input_file(rv: &mut RevisionSet, writes: &mut PendingWrites, item: WalkerItem) -> (r:
    Result<(), Error>)
    requires
        old(rv).wf(),
    ensures
        final(rv).wf(),
        match apply_add(batch_state_of(*old(rv), *old(writes)), item) {
            None => {
                &&& r == Err::<(), Error>(spec_parse_error(item.contents@))
                &&& *final(rv) == *old(rv)
                &&& *final(writes) == *old(writes)
            },
            Some(st) => {
                &&& r is Ok
                &&& batch_state_of(*final(rv), *final(writes)) == st
            },
        },
{
    let ghost st0 = batch_state_of(*old(rv), *old(writes));
    if rv.contains(item.hash.as_str(), item.path.as_str()) {
        proof {
            assert(batch_state_of(*rv, *writes) =~= st0);
        }
        return Ok(());
    }
    if text::has_suffix(item.path.as_str(), ".md") {
        let meta = match FrontMatter::parse(item.contents.as_slice()) {
            Ok(m) => m,
            Err(e) => {
                return Err(e);
            },
        };
        let (fm, offset) = meta;
        let ghost fm0 = fm;
        rv.add(item.hash.as_str(), item.path.as_str());
        let route_path = to_route_path(item.path.as_str());
        let page = PageIn {
            hash: item.hash.clone(),
            path: item.path.clone(),
            title: fm.title,
            date: fm.date,
            tags: fm.tags,
            content_offset: offset,
            route_path,
            template: fm.template,
            draft: false,
        };
        assert(page@ == item_page(item, fm0, offset as int));
        let record = InputFileIn {
            hash: item.hash,
            path: item.path,
            contents: item.contents,
            size: item.size,
            inline: item.inline,
        };
        assert(record@ == item_file(item));
        writes.input_files.push(record);
        writes.pages.push(page);
        proof {
            assert(file_in_views(writes.input_files@) =~= st0.files.push(item_file(item)));
            assert(page_in_views(writes.pages@) =~= st0.pages.push(
                item_page(item, fm0, offset as int),
            ));
        }
        Ok(())
    } else {
        rv.add(item.hash.as_str(), item.path.as_str());
        let record = InputFileIn {
            hash: item.hash,
            path: item.path,
            contents: item.contents,
            size: item.size,
            inline: item.inline,
        };
        assert(record@ == item_file(item));
        writes.input_files.push(record);
        proof {
            assert(file_in_views(writes.input_files@) =~= st0.files.push(item_file(item)));
        }
        Ok(())
    }
}

impl WalkerEvent {
    /// Apply this event to the build cycle's revision set and pending
    /// writes, in the way `apply_event` describes.
    pub fn process(self, revision_set: &mut RevisionSet, writes: &mut PendingWrites) -> (r: Result<
        (),
        Error,
    >)
        requires
            old(revision_set).wf(),
        ensures
            final(revision_set).wf(),
            match apply_event(batch_state_of(*old(revision_set), *old(writes)), self) {
                None => {
                    &&& r == Err::<(), Error>(event_error(self))
                    &&& *final(revision_set) == *old(revision_set)
                    &&& *final(writes) == *old(writes)
                },
                Some(st) => {
                    &&& r is Ok
                    &&& batch_state_of(*final(revision_set), *final(writes)) == st
                },
            },
    {
        let ghost st0 = batch_state_of(*old(revision_set), *old(writes));
        match self {
            WalkerEvent::Add(item) => new_input_file(revision_set, writes, item),
            WalkerEvent::Remove(p) => {
                revision_set.remove_by_path(p.as_str());
                proof {
                    assert(batch_state_of(*revision_set, *writes) =~= (BatchState {
                        members: st0.members.filter(
                            |hp: (Seq<char>, Seq<char>)| !p@.is_prefix_of(hp.1),
                        ),
                        files: st0.files,
                        pages: st0.pages,
                    }));
                }
                Ok(())
            },
            WalkerEvent::Update(item) => {
                if revision_set.contains(item.hash.as_str(), item.path.as_str()) {
                    proof {
                        assert(batch_state_of(*revision_set, *writes) =~= st0);
                    }
                    Ok(())
                } else {
                    if text::has_suffix(item.path.as_str(), ".md") {
                        // A failing page document must leave the cycle's state
                        // untouched, so its front matter is checked before the
                        // stale membership is dropped.
                        match FrontMatter::parse(item.contents.as_slice()) {
                            Ok(_) => (),
                            Err(e) => {
                                return Err(e);
                            },
                        }
                    }
                    revision_set.remove_by_path(item.path.as_str());
                    let ghost st1 = (BatchState {
                        members: st0.members.filter(
                            |hp: (Seq<char>, Seq<char>)| !item.path@.is_prefix_of(hp.1),
                        ),
                        files: st0.files,
                        pages: st0.pages,
                    });
                    proof {
                        assert(batch_state_of(*revision_set, *writes) =~= st1);
                    }
                    new_input_file(revision_set, writes, item)
                }
            },
        }
    }
}

} // verus!
