//! Walking and ingesting content: entries observed on disk, their
//! content-addressed fingerprints, and the classification that decides whether
//! a file's bytes live inline in the record store or in the hash-keyed cache.

use vstd::prelude::*;

use crate::db::input_files::{
    file_in_views, file_views, has_file_key, lemma_or_ignore_files_keys, or_ignore_files,
    InputFileView,
};
use crate::db::pages::{or_ignore_all_tags, or_ignore_pages, page_in_views, page_views, tag_views};
use crate::db::revision_files::{max_rev_of, member_views, RevisionFileIn, RevisionFileView};
use crate::db::revision_routes::{route_views, RevisionRouteIn, RevisionRouteKind};
use crate::db::revision_stylesheet::{
    has_stylesheet_key, stylesheet_views, RevisionStylesheetIn, RevisionStylesheetView,
};
use crate::db::{
    has_member_row, has_revision, spec_membership_at, spec_next_revision, Store,
};
use crate::frontmatter::Error;
use crate::lemmas::{lemma_filter_congruent, lemma_map_filter};
use crate::text;
use crate::walk::revision_route::{
    create_page_routes, create_static_asset_routes, is_page_path, is_style_source, page_route_of,
    spec_derived_routes, spec_page_routes, spec_static_routes, static_route_of,
    stylesheet_route_of,
};
use crate::walk::event::{
    apply_add, apply_event, apply_events, batch_state_of, event_error, BatchState, PendingWrites,
    WalkerEvent, WalkerItem,
};
use crate::walk::revision_set::RevisionSet;

pub mod event;
pub mod revision_route;
pub mod revision_set;

verus! {

/// The digest that the content hasher assigns to a byte sequence; it depends
/// on the bytes alone.
pub uninterp spec fn seahash_of(bytes: Seq<u8>) -> u64;

/// Relies on `seahash::hash`: a hash of the buffer under the crate's fixed,
/// prechosen seed, a function of the bytes alone.
#[verifier::external_body]
fn seahash_digest(contents: &[u8]) -> (r: u64)
    ensures
        r == seahash_of(contents@),
{
    seahash::hash(contents)
}

/// The character standing for the hex digit `n`.
pub open spec fn hex_char(n: int) -> char {
    if n == 0 {
        '0'
    } else if n == 1 {
        '1'
    } else if n == 2 {
        '2'
    } else if n == 3 {
        '3'
    } else if n == 4 {
        '4'
    } else if n == 5 {
        '5'
    } else if n == 6 {
        '6'
    } else if n == 7 {
        '7'
    } else if n == 8 {
        '8'
    } else if n == 9 {
        '9'
    } else if n == 10 {
        'a'
    } else if n == 11 {
        'b'
    } else if n == 12 {
        'c'
    } else if n == 13 {
        'd'
    } else if n == 14 {
        'e'
    } else {
        'f'
    }
}

/// The value `h` written as exactly sixteen lower-case hex digits, most
/// significant first.
pub open spec fn spec_hex16(h: u64) -> Seq<char> {
    Seq::new(16, |i: int| hex_char(((h >> ((15 - i) * 4) as u64) & 0xf) as int))
}

/// The fingerprint of a byte sequence: its digest, rendered as fixed-length
/// hex.
pub open spec fn spec_fingerprint(bytes: Seq<u8>) -> Seq<char> {
    spec_hex16(seahash_of(bytes))
}

/// Fingerprinting is deterministic: identical byte sequences always yield
/// identical fingerprints.
pub proof fn lemma_fingerprint_deterministic(a: Seq<u8>, b: Seq<u8>)
    requires
        a == b,
    ensures
        spec_fingerprint(a) == spec_fingerprint(b),
{
}

/// The hex digit standing for the low four bits of `n`, as a one-character
/// string.
fn hex_digit(n: u64) -> (r: &'static str)
    ensures
        r@.len() == 1,
        r@[0] == hex_char((n & 0xf) as int),
{
    let d = n & 0xf;
    assert(d < 16) by (bit_vector)
        requires
            d == n & 0xf,
    ;
    if d == 0 {
        let r = "0";
        proof {
            reveal_strlit("0");
        }
        r
    } else if d == 1 {
        let r = "1";
        proof {
            reveal_strlit("1");
        }
        r
    } else if d == 2 {
        let r = "2";
        proof {
            reveal_strlit("2");
        }
        r
    } else if d == 3 {
        let r = "3";
        proof {
            reveal_strlit("3");
        }
        r
    } else if d == 4 {
        let r = "4";
        proof {
            reveal_strlit("4");
        }
        r
    } else if d == 5 {
        let r = "5";
        proof {
            reveal_strlit("5");
        }
        r
    } else if d == 6 {
        let r = "6";
        proof {
            reveal_strlit("6");
        }
        r
    } else if d == 7 {
        let r = "7";
        proof {
            reveal_strlit("7");
        }
        r
    } else if d == 8 {
        let r = "8";
        proof {
            reveal_strlit("8");
        }
        r
    } else if d == 9 {
        let r = "9";
        proof {
            reveal_strlit("9");
        }
        r
    } else if d == 10 {
        let r = "a";
        proof {
            reveal_strlit("a");
        }
        r
    } else if d == 11 {
        let r = "b";
        proof {
            reveal_strlit("b");
        }
        r
    } else if d == 12 {
        let r = "c";
        proof {
            reveal_strlit("c");
        }
        r
    } else if d == 13 {
        let r = "d";
        proof {
            reveal_strlit("d");
        }
        r
    } else if d == 14 {
        let r = "e";
        proof {
            reveal_strlit("e");
        }
        r
    } else {
        let r = "f";
        proof {
            reveal_strlit("f");
        }
        r
    }
}

/// Render `h` as exactly sixteen lower-case hex digits, most significant
/// first; the textual half of the fingerprint.
pub fn hex16(h: u64) -> (r: String)
    ensures
        r@ == spec_hex16(h),
{
    let mut out = String::new();
    let mut i: usize = 0;
    while i < 16
        invariant
            i <= 16,
            out@ =~= spec_hex16(h).take(i as int),
        decreases 16 - i,
    {
        let shift: u64 = (15 - i as u64) * 4;
        let nib: u64 = h >> shift;
        out.append(hex_digit(nib));
        proof {
            assert(spec_hex16(h).take(i + 1) =~= spec_hex16(h).take(i as int).push(
                spec_hex16(h)[i as int],
            ));
            assert((nib & 0xf) == ((h >> ((15 - i) * 4) as u64) & 0xf));
        }
        i += 1;
    }
    proof {
        assert(spec_hex16(h).take(16) =~= spec_hex16(h));
    }
    out
}

/// One regular file found under the content tree: where it lies on disk, the
/// logical path it is served under, and its size in bytes.
#[derive(Debug)]
pub struct Entry {
    pub disk_path: String,
    pub logical_path: String,
    pub size: u64,
}

/// The textual or source extensions whose files are stored inline in the
/// record store; everything else goes to the hash-keyed cache. A non-empty
/// stem must precede the final dot of the last component: a hidden file
/// whose whole name is `.md` or the like has no extension and is cached.
pub open spec fn spec_is_inline(disk_path: Seq<char>) -> bool {
    let base = text::drop_final_extension(disk_path);
    let ext = disk_path.skip(base.len() + 1 as int);
    base.len() > 0 && base.last() != '/' && base.len() < disk_path.len() && (ext == "md"@ || ext
        == "scss"@ || ext == "json"@ || ext == "liquid"@)
}

impl Entry {
    /// Is this file's content stored inline, by its extension?
    pub fn is_inline(&self) -> (r: bool)
        ensures
            r == spec_is_inline(self.disk_path@),
    {
        let base = text::strip_final_extension(self.disk_path.as_str());
        let n = self.disk_path.as_str().unicode_len();
        let bn = base.as_str().unicode_len();
        if bn == 0 || bn >= n {
            return false;
        }
        if base.as_str().get_char(bn - 1) == '/' {
            return false;
        }
        let ext = self.disk_path.as_str().substring_char(bn + 1, n);
        proof {
            assert(ext@ =~= self.disk_path@.skip(base@.len() + 1 as int));
        }
        text::str_eq(ext, "md") || text::str_eq(ext, "scss") || text::str_eq(ext, "json")
            || text::str_eq(ext, "liquid")
    }

    /// The content fingerprint of `contents`: a fixed-width digest rendered as
    /// sixteen hex digits.
    pub fn hash(&self, contents: &[u8]) -> (r: String)
        ensures
            r@ == spec_fingerprint(contents@),
    {
        hex16(seahash_digest(contents))
    }
}

/// What `process_entry_inner` promises of the item it builds from an entry
/// and the entry's bytes.
pub open spec fn walker_item_spec(item: WalkerItem, entry: Entry, contents: Seq<u8>) -> bool {
    &&& item.inline == spec_is_inline(entry.disk_path@)
    &&& item.path@ == entry.logical_path@
    &&& item.disk_path@ == entry.disk_path@
    &&& item.hash@ == spec_fingerprint(contents)
    &&& item.size as int == entry.size as int
    &&& item.contents@ == if spec_is_inline(entry.disk_path@) {
        contents
    } else {
        Seq::<u8>::empty()
    }
}

/// Turn one observed entry and its bytes into the ingestion event the
/// pipeline processes: classify it, fingerprint its bytes, and keep the bytes
/// on the item only when they are stored inline. The second result says
/// whether the bytes still must be written to the hash-keyed cache.
pub fn process_entry_inner(entry: Entry, contents: Vec<u8>, update: bool) -> (r: (
    WalkerEvent,
    bool,
))
    requires
        entry.size <= i64::MAX,
    ensures
        update ==> (r.0 matches WalkerEvent::Update(item) && walker_item_spec(
            item,
            entry,
            contents@,
        )),
        !update ==> (r.0 matches WalkerEvent::Add(item) && walker_item_spec(
            item,
            entry,
            contents@,
        )),
        r.1 == !spec_is_inline(entry.disk_path@),
{
    let inline = entry.is_inline();
    let hash = entry.hash(contents.as_slice());
    let item = WalkerItem {
        inline,
        path: entry.logical_path,
        disk_path: entry.disk_path,
        hash,
        size: entry.size as i64,
        contents: if inline {
            contents
        } else {
            Vec::new()
        },
    };
    if update {
        (WalkerEvent::Update(item), !inline)
    } else {
        (WalkerEvent::Add(item), !inline)
    }
}

/// Turn a freshly walked entry into an addition event; see
/// `process_entry_inner`.
pub fn process_entry(entry: Entry, contents: Vec<u8>) -> (r: (WalkerEvent, bool))
    requires
        entry.size <= i64::MAX,
    ensures
        r.0 matches WalkerEvent::Add(item) && walker_item_spec(item, entry, contents@),
        r.1 == !spec_is_inline(entry.disk_path@),
{
    process_entry_inner(entry, contents, false)
}

/// The quiescence window in milliseconds: a batch seals when no event
/// arrives for this long.
pub const QUIESCENCE_MILLIS: u64 = 250;

/// What one timed poll of the ingestion source yielded.
pub enum PollOutcome {
    /// An event arrived within the window.
    Received(WalkerEvent),
    /// The window passed with nothing received.
    TimedOut,
    /// The source is exhausted.
    Closed,
}

/// What the batcher decides after a poll.
pub enum BatchAction {
    /// Keep polling the open batch.
    Wait,
    /// The batch sealed: hand these events to a build cycle and poll on.
    Build(Vec<WalkerEvent>),
    /// The source is exhausted and nothing is pending: stop, letting
    /// in-flight builds finish.
    Finish,
}

/// The event batcher: coalesces bursts of ingestion events across a
/// quiescence window into sealed batches. Each poll outcome is folded in by
/// `handle`; ingestion never waits on a build.
pub struct Batcher {
    /// The open batch, in arrival order.
    pub pending: Vec<WalkerEvent>,
}

impl Batcher {
    /// An empty open batch.
    pub fn new() -> (r: Batcher)
        ensures
            r.pending@ == Seq::<WalkerEvent>::empty(),
    {
        Batcher { pending: Vec::new() }
    }

    /// Fold one poll outcome into the open batch: an event joins it, a
    /// quiet window seals a non-empty batch and reopens an empty one, and an
    /// exhausted source first seals what is pending and then finishes.
    pub fn handle(&mut self, outcome: PollOutcome) -> (a: BatchAction)
        ensures
            match outcome {
                PollOutcome::Received(ev) => final(self).pending@ == old(self).pending@.push(ev)
                    && a is Wait,
                PollOutcome::TimedOut => if old(self).pending@.len() == 0 {
                    a is Wait && final(self).pending@ == old(self).pending@
                } else {
                    a matches BatchAction::Build(b) && b@ == old(self).pending@
                        && final(self).pending@ == Seq::<WalkerEvent>::empty()
                },
                PollOutcome::Closed => if old(self).pending@.len() == 0 {
                    a is Finish && final(self).pending@ == old(self).pending@
                } else {
                    a matches BatchAction::Build(b) && b@ == old(self).pending@
                        && final(self).pending@ == Seq::<WalkerEvent>::empty()
                },
            },
    {
        match outcome {
            PollOutcome::Received(ev) => {
                self.pending.push(ev);
                BatchAction::Wait
            },
            PollOutcome::TimedOut => {
                if self.pending.len() == 0 {
                    BatchAction::Wait
                } else {
                    let mut sealed: Vec<WalkerEvent> = Vec::new();
                    sealed.append(&mut self.pending);
                    BatchAction::Build(sealed)
                }
            },
            PollOutcome::Closed => {
                if self.pending.len() == 0 {
                    BatchAction::Finish
                } else {
                    let mut sealed: Vec<WalkerEvent> = Vec::new();
                    sealed.append(&mut self.pending);
                    BatchAction::Build(sealed)
                }
            },
        }
    }
}

/// The change notifier's state: a counter that increases by one on every
/// successful commit. Subscribers block on its next change; the blocking
/// transport itself is the shell's concern.
pub struct ChangeCounter {
    /// How many commits have been signalled.
    pub count: usize,
}

impl ChangeCounter {
    /// No commit signalled yet.
    pub fn new() -> (r: ChangeCounter)
        ensures
            r.count == 0,
    {
        ChangeCounter { count: 0 }
    }

    /// Signal one successful commit: the counter strictly increases, so a
    /// subscriber comparing values never misses a change.
    pub fn signal(&mut self)
        requires
            old(self).count < usize::MAX,
        ensures
            final(self).count == old(self).count + 1,
    {
        self.count = self.count + 1;
    }
}

/// What the filesystem watcher reported of one path.
#[derive(Debug, Clone, Copy)]
pub enum WatchKind {
    Created,
    Modified,
    Removed,
}

/// What the watch adapter decides for one reported path.
pub enum WatchAction {
    /// Read, hash and ingest the file, as a first sighting or an update.
    IngestFile { update: bool },
    /// Re-walk the directory's subtree, emitting each file found.
    WalkSubtree { update: bool },
    /// Feed this event into the open batch.
    Emit(WalkerEvent),
    /// Neither a file nor a directory: nothing to do.
    Ignore,
}

/// The removal key a watched path stands for: the path, lexically
/// normalized, made relative to the content root — or nothing when it does
/// not lie under the root.
pub open spec fn spec_removal_path(base: Seq<char>, path: Seq<char>) -> Option<Seq<char>> {
    let norm = crate::spec_normalize_path(path);
    if norm == base {
        Some(Seq::empty())
    } else if (base + "/"@).is_prefix_of(norm) {
        Some(norm.skip(base.len() + 1 as int))
    } else {
        None
    }
}

/// Translate one watched path into the adapter's action. A created or
/// modified directory is re-walked with each contained file emitted as an
/// update, so a stale pair at a re-created path is dropped rather than
/// joined. A removed path is keyed lexically, with no filesystem access,
/// since it may no longer exist; one outside the content root is refused.
pub fn translate_watch_event(
    kind: WatchKind,
    path: &str,
    is_file: bool,
    is_dir: bool,
    base: &str,
) -> (r: Option<WatchAction>)
    ensures
        match kind {
            WatchKind::Created => if is_file {
                r == Some(WatchAction::IngestFile { update: false })
            } else if is_dir {
                r == Some(WatchAction::WalkSubtree { update: true })
            } else {
                r == Some(WatchAction::Ignore)
            },
            WatchKind::Modified => if is_file {
                r == Some(WatchAction::IngestFile { update: true })
            } else if is_dir {
                r == Some(WatchAction::WalkSubtree { update: true })
            } else {
                r == Some(WatchAction::Ignore)
            },
            WatchKind::Removed => match spec_removal_path(base@, path@) {
                Some(p) => (r matches Some(a) && a matches WatchAction::Emit(ev) && ev matches
                    WalkerEvent::Remove(x) && x@ == p),
                None => r is None,
            },
        },
{
    match kind {
        WatchKind::Created => {
            if is_file {
                Some(WatchAction::IngestFile { update: false })
            } else if is_dir {
                Some(WatchAction::WalkSubtree { update: true })
            } else {
                Some(WatchAction::Ignore)
            }
        },
        WatchKind::Modified => {
            if is_file {
                Some(WatchAction::IngestFile { update: true })
            } else if is_dir {
                Some(WatchAction::WalkSubtree { update: true })
            } else {
                Some(WatchAction::Ignore)
            }
        },
        WatchKind::Removed => {
            let norm = crate::normalize_path(path);
            if text::str_eq(norm.as_str(), base) {
                let empty = String::new();
                proof {
                    assert(empty@ =~= Seq::<char>::empty());
                }
                Some(WatchAction::Emit(WalkerEvent::Remove(empty)))
            } else {
                let base_slash = String::from_str(base).concat("/");
                proof {
                    reveal_strlit("/");
                    assert(base_slash@ == base@ + "/"@);
                    assert(base_slash@.len() == base@.len() + 1);
                }
                if text::has_prefix(norm.as_str(), base_slash.as_str()) {
                    let bl = base_slash.as_str().unicode_len();
                    let nl = norm.as_str().unicode_len();
                    let rest = norm.as_str().substring_char(bl, nl).to_owned();
                    proof {
                        assert(rest@ =~= crate::spec_normalize_path(path@).skip(base@.len() + 1 as int));
                    }
                    Some(WatchAction::Emit(WalkerEvent::Remove(rest)))
                } else {
                    None
                }
            }
        },
    }
}

/// The membership that seeds a build cycle: the previous revision's, or
/// nothing for an empty store.
pub open spec fn spec_seed_members(s: Store) -> Set<(Seq<char>, Seq<char>)> {
    match max_rev_of(member_views(s.revision_files@)) {
        None => Set::empty(),
        Some(m) => spec_membership_at(s, m),
    }
}

/// The batch state a build cycle starts from.
pub open spec fn seed_state(s: Store) -> BatchState {
    BatchState { members: spec_seed_members(s), files: Seq::empty(), pages: Seq::empty() }
}

/// The error of the first event that fails a batch; meaningful only when
/// `apply_events` yields nothing.
pub open spec fn batch_error(st: BatchState, evs: Seq<WalkerEvent>) -> Error
    decreases evs.len(),
{
    if evs.len() == 0 {
        Error::Eof
    } else {
        match apply_event(st, evs.first()) {
            None => event_error(evs.first()),
            Some(st2) => batch_error(st2, evs.drop_first()),
        }
    }
}

/// Every member and every pending page of the state is covered by a content
/// record, either stored or pending.
pub open spec fn state_fits(s: Store, st: BatchState) -> bool {
    &&& (forall|hp: (Seq<char>, Seq<char>)| #[trigger]
        st.members.contains(hp) ==> has_file_key(
            file_views(s.input_files@) + st.files,
            hp.0,
            hp.1,
        ))
    &&& (forall|i: int|
        0 <= i < st.pages.len() ==> has_file_key(
            file_views(s.input_files@) + st.files,
            (#[trigger] st.pages[i]).hash,
            st.pages[i].path,
        ))
}

/// What one sealed batch resolved to: the surviving membership and the
/// record writes to commit with it.
pub struct RevisionPlan {
    pub members: RevisionSet,
    pub writes: PendingWrites,
}

/// The plan's members and pages are covered by content records of the store
/// or of the plan itself; what a commit of the plan against `s` relies on.
pub open spec fn plan_fits(s: Store, plan: RevisionPlan) -> bool {
    state_fits(s, batch_state_of(plan.members, plan.writes))
}

proof fn lemma_apply_add_fits(s: Store, st: BatchState, item: WalkerItem)
    requires
        state_fits(s, st),
    ensures
        match apply_add(st, item) {
            None => true,
            Some(st2) => state_fits(s, st2),
        },
{
    let key = (item.hash@, item.path@);
    match apply_add(st, item) {
        None => {},
        Some(st2) => {
            if st.members.contains(key) {
            } else {
                let base = file_views(s.input_files@);
                assert(base + st2.files =~= (base + st.files).push(
                    crate::walk::event::item_file(item),
                ));
                assert forall|hp: (Seq<char>, Seq<char>)| #[trigger]
                    st2.members.contains(hp) implies has_file_key(
                    base + st2.files,
                    hp.0,
                    hp.1,
                ) by {
                    if hp == key {
                        assert((base + st2.files)[(base + st2.files).len() - 1].hash == hp.0);
                    } else {
                        assert(st.members.contains(hp));
                        crate::db::lemma_has_file_key_push(
                            base + st.files,
                            crate::walk::event::item_file(item),
                            hp.0,
                            hp.1,
                        );
                    }
                }
                assert forall|i: int| 0 <= i < st2.pages.len() implies has_file_key(
                    base + st2.files,
                    (#[trigger] st2.pages[i]).hash,
                    st2.pages[i].path,
                ) by {
                    if i < st.pages.len() {
                        assert(st2.pages[i] == st.pages[i]);
                        crate::db::lemma_has_file_key_push(
                            base + st.files,
                            crate::walk::event::item_file(item),
                            st.pages[i].hash,
                            st.pages[i].path,
                        );
                    } else {
                        assert((base + st2.files)[(base + st2.files).len() - 1].hash
                            == st2.pages[i].hash);
                    }
                }
            }
        },
    }
}

proof fn lemma_apply_event_fits(s: Store, st: BatchState, ev: WalkerEvent)
    requires
        state_fits(s, st),
    ensures
        match apply_event(st, ev) {
            None => true,
            Some(st2) => state_fits(s, st2),
        },
{
    match ev {
        WalkerEvent::Add(item) => {
            lemma_apply_add_fits(s, st, item);
        },
        WalkerEvent::Remove(_) => {},
        WalkerEvent::Update(item) => {
            if !st.members.contains((item.hash@, item.path@)) {
                let st1 = BatchState {
                    members: st.members.filter(
                        |hp: (Seq<char>, Seq<char>)| !item.path@.is_prefix_of(hp.1),
                    ),
                    files: st.files,
                    pages: st.pages,
                };
                assert(state_fits(s, st1));
                lemma_apply_add_fits(s, st1, item);
            }
        },
    }
}

/// Resolve one sealed batch against the store: seed the revision set from
/// the prior revision's membership, apply the batch's events in arrival
/// order, and hand back the surviving membership with the record writes to
/// commit. The first event whose page document fails to parse fails the
/// whole batch, with nothing to commit.
#[verifier::loop_isolation(false)]
pub fn plan_revision(store: &Store, events: Vec<WalkerEvent>) -> (r: Result<RevisionPlan, Error>)
    requires
        store.wf(),
    ensures
        match r {
            Ok(plan) => {
                &&& plan.members.wf()
                &&& Some(batch_state_of(plan.members, plan.writes)) == apply_events(
                    seed_state(*store),
                    events@,
                )
                &&& plan_fits(*store, plan)
            },
            Err(e) => {
                &&& apply_events(seed_state(*store), events@) is None
                &&& e == batch_error(seed_state(*store), events@)
            },
        },
{
    let ghost evs = events@;
    let mut revision_set = RevisionSet::new();
    match store.max_revision() {
        Some(last) => {
            let seed = store.membership_at(last);
            revision_set.fill(seed);
            proof {
                assert(revision_set@ =~= spec_seed_members(*store));
            }
        },
        None => {
            proof {
                assert(revision_set@ =~= spec_seed_members(*store));
            }
        },
    }
    let mut writes = PendingWrites::new();
    proof {
        assert(batch_state_of(revision_set, writes) =~= seed_state(*store));
        let base = file_views(store.input_files@);
        assert forall|hp: (Seq<char>, Seq<char>)| #[trigger]
            spec_seed_members(*store).contains(hp) implies has_file_key(
            base + Seq::<InputFileView>::empty(),
            hp.0,
            hp.1,
        ) by {
            let rows = member_views(store.revision_files@);
            let m = max_rev_of(rows)->0;
            let i = choose|i: int|
                0 <= i < rows.len() && #[trigger] rows[i].hash == hp.0 && rows[i].path == hp.1
                    && rows[i].revision == m;
            assert(has_file_key(base, hp.0, hp.1));
            let j = choose|j: int|
                0 <= j < base.len() && #[trigger] base[j].hash == hp.0 && base[j].path == hp.1;
            assert((base + Seq::<InputFileView>::empty())[j].hash == hp.0);
        }
        assert(state_fits(*store, batch_state_of(revision_set, writes)));
    }
    let mut remaining = events;
    let n0 = remaining.len();
    assert(evs.len() == n0);
    let mut k: usize = 0;
    while remaining.len() > 0
        invariant
            store.wf(),
            revision_set.wf(),
            evs.len() <= usize::MAX,
            k + remaining@.len() == evs.len(),
            remaining@ == evs.skip(k as int),
            apply_events(seed_state(*store), evs) == apply_events(
                batch_state_of(revision_set, writes),
                remaining@,
            ),
            batch_error(seed_state(*store), evs) == batch_error(
                batch_state_of(revision_set, writes),
                remaining@,
            ),
            state_fits(*store, batch_state_of(revision_set, writes)),
        decreases remaining@.len(),
    {
        let ghost cur = batch_state_of(revision_set, writes);
        let ghost rem0 = remaining@;
        let ev = remaining.remove(0);
        assert(ev == rem0.first());
        proof {
            assert(remaining@ =~= rem0.drop_first());
            assert(remaining@ =~= evs.skip(k + 1));
            lemma_apply_event_fits(*store, cur, ev);
        }
        match ev.process(&mut revision_set, &mut writes) {
            Ok(_) => {},
            Err(e) => {
                proof {
                    assert(apply_event(cur, ev) is None);
                    assert(apply_events(cur, rem0) is None);
                    assert(batch_error(cur, rem0) == event_error(ev));
                }
                return Err(e);
            },
        }
        k += 1;
    }
    proof {
        assert(remaining@ =~= Seq::<WalkerEvent>::empty());
        assert(apply_events(batch_state_of(revision_set, writes), remaining@) == Some(
            batch_state_of(revision_set, writes),
        ));
    }
    Ok(RevisionPlan { members: revision_set, writes })
}

/// Persist the plan's content records, ignoring keys already stored.
fn commit_files(store: &mut Store, files: &Vec<crate::db::input_files::InputFileIn>)
    requires
        old(store).wf(),
    ensures
        final(store).wf(),
        file_views(final(store).input_files@) == or_ignore_files(
            file_views(old(store).input_files@),
            file_in_views(files@),
        ),
        final(store).pages == old(store).pages,
        final(store).page_tags == old(store).page_tags,
        final(store).revision_files == old(store).revision_files,
        final(store).revision_routes == old(store).revision_routes,
        final(store).revision_stylesheets == old(store).revision_stylesheets,
{
    let ghost base = file_views(old(store).input_files@);
    let ghost adds = file_in_views(files@);
    let n = files.len();
    let mut i: usize = 0;
    proof {
        assert(adds.take(0) =~= Seq::<InputFileView>::empty());
    }
    while i < n
        invariant
            i <= n,
            store.wf(),
            n == files@.len(),
            base == file_views(old(store).input_files@),
            adds == file_in_views(files@),
            file_views(store.input_files@) == or_ignore_files(base, adds.take(i as int)),
            store.pages == old(store).pages,
            store.page_tags == old(store).page_tags,
            store.revision_files == old(store).revision_files,
            store.revision_routes == old(store).revision_routes,
            store.revision_stylesheets == old(store).revision_stylesheets,
        decreases n - i,
    {
        store.insert_input_file(&files[i]);
        proof {
            assert(adds.take(i + 1).drop_last() =~= adds.take(i as int));
            assert(adds.take(i + 1).last() == adds[i as int]);
        }
        i += 1;
    }
    proof {
        assert(adds.take(n as int) =~= adds);
    }
}

/// Persist the plan's page records and their tags, ignoring keys already
/// stored.
fn commit_pages(store: &mut Store, pages: &Vec<crate::db::pages::PageIn>)
    requires
        old(store).wf(),
        forall|i: int|
            0 <= i < page_in_views(pages@).len() ==> has_file_key(
                file_views(old(store).input_files@),
                (#[trigger] page_in_views(pages@)[i]).hash,
                page_in_views(pages@)[i].path,
            ),
    ensures
        final(store).wf(),
        page_views(final(store).pages@) == or_ignore_pages(
            page_views(old(store).pages@),
            page_in_views(pages@),
        ),
        tag_views(final(store).page_tags@) == or_ignore_all_tags(
            tag_views(old(store).page_tags@),
            page_in_views(pages@),
        ),
        final(store).input_files == old(store).input_files,
        final(store).revision_files == old(store).revision_files,
        final(store).revision_routes == old(store).revision_routes,
        final(store).revision_stylesheets == old(store).revision_stylesheets,
{
    let ghost pbase = page_views(old(store).pages@);
    let ghost tbase = tag_views(old(store).page_tags@);
    let ghost adds = page_in_views(pages@);
    let n = pages.len();
    let mut i: usize = 0;
    proof {
        assert(adds.take(0) =~= Seq::<crate::db::pages::PageInView>::empty());
    }
    while i < n
        invariant
            i <= n,
            store.wf(),
            n == pages@.len(),
            pbase == page_views(old(store).pages@),
            tbase == tag_views(old(store).page_tags@),
            adds == page_in_views(pages@),
            forall|j: int|
                0 <= j < adds.len() ==> has_file_key(
                    file_views(old(store).input_files@),
                    (#[trigger] adds[j]).hash,
                    adds[j].path,
                ),
            page_views(store.pages@) == or_ignore_pages(pbase, adds.take(i as int)),
            tag_views(store.page_tags@) == or_ignore_all_tags(tbase, adds.take(i as int)),
            store.input_files == old(store).input_files,
            store.revision_files == old(store).revision_files,
            store.revision_routes == old(store).revision_routes,
            store.revision_stylesheets == old(store).revision_stylesheets,
        decreases n - i,
    {
        assert(adds[i as int] == pages@[i as int]@);
        store.insert_page(&pages[i]);
        proof {
            assert(adds.take(i + 1).drop_last() =~= adds.take(i as int));
            assert(adds.take(i + 1).last() == adds[i as int]);
        }
        i += 1;
    }
    proof {
        assert(adds.take(n as int) =~= adds);
    }
}

/// The membership rows that a committed revision set stands for.
pub open spec fn member_rows_of(elems: Seq<(Seq<char>, Seq<char>)>, rev: int) -> Seq<
    RevisionFileView,
> {
    elems.map_values(
        |hp: (Seq<char>, Seq<char>)| RevisionFileView { hash: hp.0, path: hp.1, revision: rev },
    )
}

/// Persist one membership row per member, all carrying revision `rev`.
fn commit_membership(store: &mut Store, members: &RevisionSet, rev: usize)
    requires
        old(store).wf(),
        members.wf(),
        rev as int == spec_next_revision(*old(store)),
        forall|hp: (Seq<char>, Seq<char>)| #[trigger]
            members@.contains(hp) ==> has_file_key(
                file_views(old(store).input_files@),
                hp.0,
                hp.1,
            ),
    ensures
        final(store).wf(),
        member_views(final(store).revision_files@) == member_views(old(store).revision_files@)
            + member_rows_of(members.elems(), rev as int),
        spec_membership_at(*final(store), rev as int) == members@,
        forall|r: int|
            r != rev as int ==> spec_membership_at(*final(store), r) == spec_membership_at(
                *old(store),
                r,
            ),
        final(store).input_files == old(store).input_files,
        final(store).pages == old(store).pages,
        final(store).page_tags == old(store).page_tags,
        final(store).revision_routes == old(store).revision_routes,
        final(store).revision_stylesheets == old(store).revision_stylesheets,
{
    let ghost rows0 = member_views(old(store).revision_files@);
    let ghost elems = members.elems();
    proof {
        members.lemma_elems();
        crate::db::revision_files::lemma_max_rev_of(rows0);
        assert(forall|j: int| 0 <= j < rows0.len() ==> (#[trigger] rows0[j]).revision < rev as int);
    }
    let n = members.count();
    let mut i: usize = 0;
    proof {
        assert(elems.take(0) =~= Seq::<(Seq<char>, Seq<char>)>::empty());
        assert(member_views(store.revision_files@) =~= rows0 + member_rows_of(
            elems.take(0),
            rev as int,
        ));
    }
    while i < n
        invariant
            i <= n,
            store.wf(),
            members.wf(),
            n == members@.len(),
            elems == members.elems(),
            n == elems.len(),
            rows0 == member_views(old(store).revision_files@),
            rev as int == spec_next_revision(*old(store)),
            forall|j: int| 0 <= j < rows0.len() ==> (#[trigger] rows0[j]).revision < rev as int,
            forall|hp: (Seq<char>, Seq<char>)| #[trigger]
                members@.contains(hp) ==> has_file_key(
                    file_views(old(store).input_files@),
                    hp.0,
                    hp.1,
                ),
            member_views(store.revision_files@) == rows0 + member_rows_of(
                elems.take(i as int),
                rev as int,
            ),
            max_rev_of(member_views(store.revision_files@)) == if i == 0 {
                max_rev_of(rows0)
            } else {
                Some(rev as int)
            },
            store.input_files == old(store).input_files,
            store.pages == old(store).pages,
            store.page_tags == old(store).page_tags,
            store.revision_routes == old(store).revision_routes,
            store.revision_stylesheets == old(store).revision_stylesheets,
        decreases n - i,
    {
        let ghost rows_cur = member_views(store.revision_files@);
        let pair = members.get(i);
        assert((pair.0@, pair.1@) == elems[i as int]);
        proof {
            members.lemma_elems();
            assert(members@.contains(elems[i as int]));
            assert forall|k: int|
                0 <= k < rows_cur.len() implies !((#[trigger] rows_cur[k]).hash == pair.0@
                && rows_cur[k].path == pair.1@ && rows_cur[k].revision == rev as int) by {
                if k < rows0.len() {
                    assert(rows_cur[k].revision < rev as int);
                } else {
                    let j = k - rows0.len();
                    assert(rows_cur[k] == member_rows_of(elems.take(i as int), rev as int)[j]);
                    assert(elems.take(i as int)[j] == elems[j]);
                    if elems[j] == elems[i as int] {
                        assert(false);
                    }
                }
            }
        }
        let row = RevisionFileIn { hash: pair.0.clone(), path: pair.1.clone(), revision: rev };
        store.insert_revision_file(&row);
        proof {
            let rows_new = member_views(store.revision_files@);
            assert(rows_new =~= rows_cur.push(row@));
            assert(rows_new =~= rows0 + member_rows_of(elems.take(i + 1), rev as int));
            assert(rows_new.drop_last() =~= rows_cur);
            assert(rows_new.last() == row@);
            if i == 0 {
                match max_rev_of(rows0) {
                    None => {},
                    Some(m) => {
                        assert(m + 1 == rev as int);
                    },
                }
            }
            assert(max_rev_of(rows_new) == Some(rev as int));
        }
        i += 1;
    }
    proof {
        assert(elems.take(n as int) =~= elems);
        let rows_fin = member_views(store.revision_files@);
        members.lemma_elems();
        assert forall|hp: (Seq<char>, Seq<char>)|
            spec_membership_at(*store, rev as int).contains(hp) == #[trigger] members@.contains(
            hp,
        ) by {
            if has_member_row(rows_fin, hp.0, hp.1, rev as int) {
                let k = choose|k: int|
                    0 <= k < rows_fin.len() && #[trigger] rows_fin[k].hash == hp.0
                        && rows_fin[k].path == hp.1 && rows_fin[k].revision == rev as int;
                if k < rows0.len() {
                    assert(false);
                } else {
                    assert(elems[k - rows0.len()] == hp);
                    assert(elems.to_set().contains(hp));
                }
            }
            if members@.contains(hp) {
                let j = choose|j: int| 0 <= j < elems.len() && #[trigger] elems[j] == hp;
                assert(rows_fin[rows0.len() + j].hash == hp.0 && rows_fin[rows0.len() + j].path
                    == hp.1 && rows_fin[rows0.len() + j].revision == rev as int);
            }
        }
        assert(spec_membership_at(*store, rev as int) =~= members@);
        assert forall|r: int| r != rev as int implies spec_membership_at(*store, r)
            == spec_membership_at(*old(store), r) by {
            assert forall|hp: (Seq<char>, Seq<char>)|
                has_member_row(rows_fin, hp.0, hp.1, r) == has_member_row(
                rows0,
                hp.0,
                hp.1,
                r,
            ) by {
                if has_member_row(rows_fin, hp.0, hp.1, r) {
                    let k = choose|k: int|
                        0 <= k < rows_fin.len() && #[trigger] rows_fin[k].hash == hp.0
                            && rows_fin[k].path == hp.1 && rows_fin[k].revision == r;
                    assert(k < rows0.len());
                    assert(rows0[k].hash == hp.0);
                }
                if has_member_row(rows0, hp.0, hp.1, r) {
                    let k = choose|k: int|
                        0 <= k < rows0.len() && #[trigger] rows0[k].hash == hp.0 && rows0[k].path
                            == hp.1 && rows0[k].revision == r;
                    assert(rows_fin[k].hash == hp.0);
                }
            }
            assert(spec_membership_at(*store, r) =~= spec_membership_at(*old(store), r));
        }
    }
}

/// The first stored contents under key (`hash`, `path`), scanning forward.
pub open spec fn first_content(
    files: Seq<InputFileView>,
    hash: Seq<char>,
    path: Seq<char>,
) -> Option<Seq<u8>>
    decreases files.len(),
{
    if files.len() == 0 {
        None
    } else if files.first().hash == hash && files.first().path == path {
        Some(files.first().contents)
    } else {
        first_content(files.drop_first(), hash, path)
    }
}

/// The contents a member resolves to while its revision builds: the plan's
/// pending records first, then the store's.
pub open spec fn spec_member_content(
    s: Store,
    plan: RevisionPlan,
    hash: Seq<char>,
    path: Seq<char>,
) -> Seq<u8> {
    match first_content(file_in_views(plan.writes.input_files@), hash, path) {
        Some(c) => c,
        None => match first_content(file_views(s.input_files@), hash, path) {
            Some(c) => c,
            None => Seq::empty(),
        },
    }
}

/// The style sources of the planned revision, in membership order: each
/// style-source member's path with the contents its record holds.
pub open spec fn spec_style_sources(s: Store, plan: RevisionPlan) -> Seq<(Seq<char>, Seq<u8>)> {
    plan.members.elems().filter(|hp: (Seq<char>, Seq<char>)| is_style_source(hp.1)).map_values(
        |hp: (Seq<char>, Seq<char>)| (hp.1, spec_member_content(s, plan, hp.0, hp.1)),
    )
}

/// Scan pending content records for the first one keyed (`hash`, `path`).
fn find_pending_content(
    files: &Vec<crate::db::input_files::InputFileIn>,
    hash: &str,
    path: &str,
) -> (r: Option<Vec<u8>>)
    ensures
        match first_content(file_in_views(files@), hash@, path@) {
            None => r is None,
            Some(c) => (r matches Some(v) && v@ == c),
        },
{
    let ghost views = file_in_views(files@);
    let n = files.len();
    let mut i: usize = 0;
    proof {
        assert(views.skip(0) =~= views);
    }
    while i < n
        invariant
            i <= n,
            views == file_in_views(files@),
            n == views.len(),
            first_content(views, hash@, path@) == first_content(
                views.skip(i as int),
                hash@,
                path@,
            ),
        decreases n - i,
    {
        let f = &files[i];
        proof {
            assert(views.skip(i as int).first() == views[i as int]);
            assert(views.skip(i as int).drop_first() =~= views.skip(i + 1));
        }
        if text::str_eq(f.hash.as_str(), hash) && text::str_eq(f.path.as_str(), path) {
            return Some(crate::db::clone_bytes(&f.contents));
        }
        i += 1;
    }
    proof {
        assert(views.skip(n as int) =~= Seq::<InputFileView>::empty());
    }
    None
}

/// Scan stored content records for the first one keyed (`hash`, `path`).
fn find_stored_content(
    files: &Vec<crate::db::input_files::InputFile>,
    hash: &str,
    path: &str,
) -> (r: Option<Vec<u8>>)
    ensures
        match first_content(file_views(files@), hash@, path@) {
            None => r is None,
            Some(c) => (r matches Some(v) && v@ == c),
        },
{
    let ghost views = file_views(files@);
    let n = files.len();
    let mut i: usize = 0;
    proof {
        assert(views.skip(0) =~= views);
    }
    while i < n
        invariant
            i <= n,
            views == file_views(files@),
            n == views.len(),
            first_content(views, hash@, path@) == first_content(
                views.skip(i as int),
                hash@,
                path@,
            ),
        decreases n - i,
    {
        let f = &files[i];
        proof {
            assert(views.skip(i as int).first() == views[i as int]);
            assert(views.skip(i as int).drop_first() =~= views.skip(i + 1));
        }
        if text::str_eq(f.hash.as_str(), hash) && text::str_eq(f.path.as_str(), path) {
            return Some(crate::db::clone_bytes(&f.contents));
        }
        i += 1;
    }
    proof {
        assert(views.skip(n as int) =~= Seq::<InputFileView>::empty());
    }
    None
}

/// Gather every style-source member of the planned revision together with
/// its contents, ready to be laid out in a source tree and compiled into the
/// revision's one aggregate stylesheet.
pub fn gather_style_sources(store: &Store, plan: &RevisionPlan) -> (r: Vec<(String, Vec<u8>)>)
    requires
        plan.members.wf(),
    ensures
        r@.map_values(|p: (String, Vec<u8>)| (p.0@, p.1@)) == spec_style_sources(*store, *plan),
{
    let ghost elems = plan.members.elems();
    let ghost style = |hp: (Seq<char>, Seq<char>)| is_style_source(hp.1);
    let ghost mk = |hp: (Seq<char>, Seq<char>)| (hp.1, spec_member_content(*store, *plan, hp.0, hp.1));
    let ghost out_view = |p: (String, Vec<u8>)| (p.0@, p.1@);
    let n = plan.members.count();
    let mut out: Vec<(String, Vec<u8>)> = Vec::new();
    let mut i: usize = 0;
    proof {
        plan.members.lemma_elems();
        assert(elems.take(0) =~= Seq::<(Seq<char>, Seq<char>)>::empty());
        assert(out@.map_values(out_view) =~= elems.take(0).filter(style).map_values(mk));
    }
    while i < n
        invariant
            i <= n,
            plan.members.wf(),
            elems == plan.members.elems(),
            n == plan.members@.len(),
            n == elems.len(),
            style == (|hp: (Seq<char>, Seq<char>)| is_style_source(hp.1)),
            mk == (|hp: (Seq<char>, Seq<char>)|
                (hp.1, spec_member_content(*store, *plan, hp.0, hp.1))),
            out_view == (|p: (String, Vec<u8>)| (p.0@, p.1@)),
            out@.map_values(out_view) == elems.take(i as int).filter(style).map_values(mk),
        decreases n - i,
    {
        let ghost before = out@.map_values(out_view);
        let pair = plan.members.get(i);
        assert((pair.0@, pair.1@) == elems[i as int]);
        if text::has_prefix(pair.1.as_str(), "sass/") && text::has_suffix(pair.1.as_str(), ".scss")
        {
            let contents = match find_pending_content(
                &plan.writes.input_files,
                pair.0.as_str(),
                pair.1.as_str(),
            ) {
                Some(c) => c,
                None => match find_stored_content(
                    &store.input_files,
                    pair.0.as_str(),
                    pair.1.as_str(),
                ) {
                    Some(c) => c,
                    None => Vec::new(),
                },
            };
            assert(contents@ == spec_member_content(*store, *plan, pair.0@, pair.1@));
            let path_copy = pair.1.clone();
            out.push((path_copy, contents));
            proof {
                assert(out@.map_values(out_view) =~= before.push(mk(elems[i as int])));
            }
        }
        proof {
            assert(elems.take(i + 1) =~= elems.take(i as int) + seq![elems[i as int]]);
            Seq::filter_distributes_over_add(elems.take(i as int), seq![elems[i as int]], style);
            reveal_with_fuel(Seq::<(Seq<char>, Seq<char>)>::filter, 2);
            assert(seq![elems[i as int]].drop_last() =~= Seq::<(Seq<char>, Seq<char>)>::empty());
            if style(elems[i as int]) {
                assert(seq![elems[i as int]].filter(style) =~= seq![elems[i as int]]);
                assert(elems.take(i + 1).filter(style).map_values(mk) =~= elems.take(
                    i as int,
                ).filter(style).map_values(mk).push(mk(elems[i as int])));
            } else {
                assert(seq![elems[i as int]].filter(style) =~= Seq::<(Seq<char>, Seq<char>)>::empty());
                assert(elems.take(i + 1).filter(style) =~= elems.take(i as int).filter(style));
            }
        }
        i += 1;
    }
    proof {
        assert(elems.take(n as int) =~= elems);
    }
    out
}

/// Commit one planned revision as a unit: persist its content and page
/// records, materialize its membership under the next revision number,
/// derive its routes, and record its compiled stylesheet when one was
/// produced. Nothing of earlier revisions changes, and the revision sequence
/// stays contiguous.
#[verifier::rlimit(50)]
pub fn commit_revision(store: &mut Store, plan: RevisionPlan, css: Option<String>) -> (rev: usize)
    requires
        old(store).wf(),
        plan.members.wf(),
        plan_fits(*old(store), plan),
        plan.members@.len() > 0,
        spec_next_revision(*old(store)) <= usize::MAX,
    ensures
        final(store).wf(),
        rev as int == spec_next_revision(*old(store)),
        spec_membership_at(*final(store), rev as int) == plan.members@,
        forall|r: int|
            r != rev as int ==> spec_membership_at(*final(store), r) == spec_membership_at(
                *old(store),
                r,
            ),
        file_views(final(store).input_files@) == or_ignore_files(
            file_views(old(store).input_files@),
            file_in_views(plan.writes.input_files@),
        ),
        page_views(final(store).pages@) == or_ignore_pages(
            page_views(old(store).pages@),
            page_in_views(plan.writes.pages@),
        ),
        tag_views(final(store).page_tags@) == or_ignore_all_tags(
            tag_views(old(store).page_tags@),
            page_in_views(plan.writes.pages@),
        ),
        member_views(final(store).revision_files@) == member_views(old(store).revision_files@)
            + member_rows_of(plan.members.elems(), rev as int),
        route_views(final(store).revision_routes@) == route_views(old(store).revision_routes@)
            + spec_derived_routes(
            plan.members.elems(),
            page_views(final(store).pages@),
            rev as int,
            css is Some,
        ),
        stylesheet_views(final(store).revision_stylesheets@) == if css is Some {
            stylesheet_views(old(store).revision_stylesheets@).push(
                RevisionStylesheetView { revision: rev as int, name: "style"@, data: css->0@ },
            )
        } else {
            stylesheet_views(old(store).revision_stylesheets@)
        },
{
    let ghost base_files = file_views(old(store).input_files@);
    let ghost adds_files = file_in_views(plan.writes.input_files@);
    let ghost elems = plan.members.elems();
    proof {
        plan.members.lemma_elems();
    }
    let rev = match store.max_revision() {
        Some(m) => m + 1,
        None => 0,
    };
    assert(rev as int == spec_next_revision(*old(store)));
    commit_files(store, &plan.writes.input_files);
    proof {
        let pviews = page_in_views(plan.writes.pages@);
        assert forall|j: int| 0 <= j < pviews.len() implies has_file_key(
            file_views(store.input_files@),
            (#[trigger] pviews[j]).hash,
            pviews[j].path,
        ) by {
            assert(has_file_key(base_files + adds_files, pviews[j].hash, pviews[j].path));
            lemma_or_ignore_files_keys(base_files, adds_files, pviews[j].hash, pviews[j].path);
        }
    }
    commit_pages(store, &plan.writes.pages);
    proof {
        assert forall|hp: (Seq<char>, Seq<char>)| #[trigger]
            plan.members@.contains(hp) implies has_file_key(
            file_views(store.input_files@),
            hp.0,
            hp.1,
        ) by {
            assert(batch_state_of(plan.members, plan.writes).members.contains(hp));
            assert(has_file_key(base_files + adds_files, hp.0, hp.1));
            lemma_or_ignore_files_keys(base_files, adds_files, hp.0, hp.1);
        }
        assert(member_views(store.revision_files@) == member_views(old(store).revision_files@));
        assert(rev as int == spec_next_revision(*store));
    }
    let ghost s_pre = *store;
    commit_membership(store, &plan.members, rev);
    let ghost s_mid = *store;
    let ghost rows0 = member_views(old(store).revision_files@);
    let ghost rows_mid = member_views(store.revision_files@);
    let ghost pages_fin = page_views(store.pages@);
    let ghost routes0 = route_views(store.revision_routes@);
    create_static_asset_routes(store, rev);
    let ghost not_page = |hp: (Seq<char>, Seq<char>)| !is_page_path(hp.1);
    let ghost mk_static = |hp: (Seq<char>, Seq<char>)| static_route_of(rev as int, hp.0, hp.1);
    proof {
        let pred = |rf: RevisionFileView| rf.revision == rev as int && !is_page_path(rf.path);
        let row_of = |hp: (Seq<char>, Seq<char>)|
            RevisionFileView { hash: hp.0, path: hp.1, revision: rev as int };
        assert(rows_mid == rows0 + member_rows_of(elems, rev as int));
        Seq::filter_distributes_over_add(rows0, member_rows_of(elems, rev as int), pred);
        crate::db::revision_files::lemma_max_rev_of(rows0);
        rows0.filter_lemma(pred);
        if rows0.filter(pred).len() > 0 {
            crate::lemmas::lemma_filter_subset(rows0, pred, 0);
            let k = choose|k: int| 0 <= k < rows0.len() && rows0[k] == rows0.filter(pred)[0];
            assert(pred(rows0.filter(pred)[0]));
            assert(rows0[k].revision == rev as int);
            assert(false);
        }
        assert(rows0.filter(pred) =~= Seq::<RevisionFileView>::empty());
        assert(member_rows_of(elems, rev as int) == elems.map_values(row_of));
        lemma_map_filter(elems, row_of, pred);
        lemma_filter_congruent(elems, |hp: (Seq<char>, Seq<char>)| pred(row_of(hp)), not_page);
        assert(spec_static_routes(rows_mid, rev as int) =~= elems.filter(not_page).map_values(
            mk_static,
        ));
        assert(route_views(store.revision_routes@) == routes0 + spec_static_routes(
            rows_mid,
            rev as int,
        ));
    }
    let ghost s2 = *store;
    create_page_routes(store, rev);
    let ghost pred_view = |p: crate::db::pages::PageView|
        elems.to_set().contains((p.hash, p.path));
    let ghost mk_page = |p: crate::db::pages::PageView| page_route_of(rev as int, p);
    proof {
        let pred_page = |p: crate::db::pages::Page|
            spec_membership_at(s2, rev as int).contains((p.hash@, p.path@));
        let alt = |p: crate::db::pages::Page| elems.to_set().contains((p.hash@, p.path@));
        let view_fn = |p: crate::db::pages::Page| p@;
        assert(spec_membership_at(s2, rev as int) =~= plan.members@);
        assert(plan.members@ == elems.to_set());
        lemma_filter_congruent(s2.pages@, pred_page, alt);
        lemma_map_filter(s2.pages@, view_fn, pred_view);
        lemma_filter_congruent(
            s2.pages@,
            |p: crate::db::pages::Page| pred_view(view_fn(p)),
            alt,
        );
        assert(pages_fin == page_views(s2.pages@));
        assert(page_views(s2.pages@) =~= s2.pages@.map_values(view_fn));
        assert(pages_fin.filter(pred_view) == s2.pages@.filter(alt).map_values(view_fn));
        assert(spec_page_routes(s2, rev as int) =~= pages_fin.filter(pred_view).map_values(
            mk_page,
        ));
        assert(route_views(store.revision_routes@) =~= routes0 + spec_static_routes(
            rows_mid,
            rev as int,
        ) + spec_page_routes(s2, rev as int));
    }
    let has_css = match &css {
        Some(_) => true,
        None => false,
    };
    match css {
        Some(c) => {
            proof {
                let sheets = stylesheet_views(store.revision_stylesheets@);
                crate::db::revision_files::lemma_max_rev_of(rows0);
                if has_stylesheet_key(sheets, rev as int, "style"@) {
                    let k = choose|k: int|
                        0 <= k < sheets.len() && #[trigger] sheets[k].revision == rev as int
                            && sheets[k].name == "style"@;
                    assert(has_revision(rows0, rev as int));
                    let j = choose|j: int|
                        0 <= j < rows0.len() && #[trigger] rows0[j].revision == rev as int;
                    assert(false);
                }
                assert(elems.len() > 0);
                assert(member_views(store.revision_files@)[rows0.len() as int].revision
                    == rev as int);
                assert(has_revision(member_views(store.revision_files@), rev as int));
            }
            let sheet = RevisionStylesheetIn {
                revision: rev,
                name: String::from_str("style"),
                data: c,
            };
            store.insert_revision_stylesheet(&sheet);
            let route = RevisionRouteIn {
                revision: rev,
                route_path: String::from_str("style.css"),
                parent_route_path: None,
                kind: RevisionRouteKind::Stylesheet,
                hash: String::new(),
                path: String::from_str("style"),
                template: None,
            };
            proof {
                reveal_strlit("");
                assert(route@.hash =~= ""@);
                assert(route@ == stylesheet_route_of(rev as int));
            }
            store.insert_revision_route(&route);
        },
        None => {},
    }
    proof {
        let style_tail = if has_css {
            seq![stylesheet_route_of(rev as int)]
        } else {
            Seq::<crate::db::revision_routes::RevisionRouteView>::empty()
        };
        assert(route_views(store.revision_routes@) =~= routes0 + (elems.filter(
            not_page,
        ).map_values(mk_static) + pages_fin.filter(pred_view).map_values(mk_page) + style_tail));
        assert(spec_derived_routes(elems, pages_fin, rev as int, has_css) == elems.filter(
            not_page,
        ).map_values(mk_static) + pages_fin.filter(pred_view).map_values(mk_page) + style_tail);
        assert forall|r: int| r != rev as int implies spec_membership_at(*store, r)
            == spec_membership_at(*old(store), r) by {
            assert(spec_membership_at(*store, r) =~= spec_membership_at(s_mid, r));
            assert(spec_membership_at(s_pre, r) =~= spec_membership_at(*old(store), r));
        }
        assert(spec_membership_at(*store, rev as int) =~= spec_membership_at(s_mid, rev as int));
    }
    rev
}

} // verus!
