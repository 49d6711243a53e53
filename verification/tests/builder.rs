use emphasize::db::pages::Page;
use emphasize::db::revision_files::RevisionFile;
use emphasize::db::revision_routes::RevisionRouteKind;
use emphasize::db::Store;
use emphasize::walk::event::{PendingWrites, WalkerEvent, WalkerItem};
use emphasize::walk::revision_set::RevisionSet;
use emphasize::walk::{
    commit_revision, gather_style_sources, hex16, plan_revision, process_entry,
    process_entry_inner, Entry,
};

fn entry(path: &str, contents: &[u8]) -> Entry {
    Entry {
        disk_path: path.to_string(),
        logical_path: path.to_string(),
        size: contents.len() as u64,
    }
}

fn add_event(path: &str, contents: &[u8]) -> WalkerEvent {
    let (ev, _) = process_entry(entry(path, contents), contents.to_vec());
    ev
}

const POST: &[u8] = b"---\ntitle: Hi\ndate: 2024-01-01\n---\nHello";

#[test]
fn ingested_page_yields_content_record_page_record_and_page_route() {
    let mut store = Store::new();
    let plan = plan_revision(&store, vec![add_event("content/post.md", POST)])
        .expect("the batch parses");
    assert!(!plan.members.is_empty());
    let rev = commit_revision(&mut store, plan, None);
    assert_eq!(rev, 0);

    assert_eq!(store.input_files.len(), 1);
    let record = &store.input_files[0];
    assert_eq!(record.path, "content/post.md");
    assert_eq!(record.hash.len(), 16);
    assert!(record.inline);
    assert_eq!(record.contents, POST.to_vec());

    assert_eq!(store.pages.len(), 1);
    let page = &store.pages[0];
    assert_eq!(page.title, "Hi");
    assert_eq!(page.date, "2024-01-01");
    assert_eq!(page.route_path, "post");
    assert_eq!(page.content_offset, 35);

    assert_eq!(store.revision_routes.len(), 1);
    let route = &store.revision_routes[0];
    assert_eq!(route.kind, RevisionRouteKind::Page);
    assert_eq!(route.route_path, "post");
    assert_eq!(route.revision, 0);
    assert_eq!(route.parent_route_path, Some(String::new()));
}

#[test]
fn ingested_asset_is_cached_not_inlined_and_routed() {
    let script = b"console.log(1);" as &[u8];
    let (ev, needs_cache) = process_entry(entry("static/app.js", script), script.to_vec());
    assert!(needs_cache, "non-inline bytes go to the hash-keyed cache");
    match &ev {
        WalkerEvent::Add(item) => {
            assert!(!item.inline);
            assert!(item.contents.is_empty(), "cached bytes stay out of the record store");
        },
        _ => panic!("a walked file is an addition"),
    }

    let mut store = Store::new();
    let plan = plan_revision(&store, vec![ev]).expect("no page to parse");
    let rev = commit_revision(&mut store, plan, None);

    assert_eq!(store.input_files.len(), 1);
    assert!(!store.input_files[0].inline);
    assert_eq!(store.pages.len(), 0);
    assert_eq!(store.revision_routes.len(), 1);
    let route = &store.revision_routes[0];
    assert_eq!(route.kind, RevisionRouteKind::StaticAsset);
    assert_eq!(route.route_path, "app.js");
    assert_eq!(route.revision, rev);
    assert_eq!(route.parent_route_path, None);
}

#[test]
fn ingest_then_remove_within_one_batch_leaves_no_trace() {
    let mut store = Store::new();
    let events = vec![
        add_event("static/keep.bin", b"k"),
        add_event("content/a.md", b"---\ntitle: A\ndate: d\n---\nx"),
        WalkerEvent::Remove("content/a.md".to_string()),
    ];
    let plan = plan_revision(&store, events).expect("the batch parses");
    let rev = commit_revision(&mut store, plan, None);

    for row in &store.revision_files {
        assert_ne!(row.path, "content/a.md");
    }
    for route in &store.revision_routes {
        assert_ne!(route.path, "content/a.md");
    }
    assert_eq!(rev, 0);
    assert_eq!(store.revision_files.len(), 1);
    assert_eq!(store.revision_files[0].path, "static/keep.bin");
}

#[test]
fn two_style_sources_one_artifact_one_route() {
    let mut store = Store::new();
    let events = vec![
        add_event("sass/style.scss", b"@import 'other';"),
        add_event("sass/other.scss", b"body { margin: 0; }"),
    ];
    let plan = plan_revision(&store, events).expect("no page to parse");
    let sources = gather_style_sources(&store, &plan);
    assert_eq!(sources.len(), 2);
    assert!(sources.iter().any(|s| s.0 == "sass/style.scss"));
    assert!(sources.iter().any(|s| s.0 == "sass/other.scss"));

    let rev = commit_revision(&mut store, plan, Some("body{margin:0}".to_string()));

    assert_eq!(store.revision_stylesheets.len(), 1);
    let sheet = &store.revision_stylesheets[0];
    assert_eq!(sheet.revision, rev);
    assert_eq!(sheet.name, "style");
    assert_eq!(sheet.data, "body{margin:0}");

    let style_routes: Vec<_> = store
        .revision_routes
        .iter()
        .filter(|r| r.kind == RevisionRouteKind::Stylesheet)
        .collect();
    assert_eq!(style_routes.len(), 1);
    assert_eq!(style_routes[0].route_path, "style.css");
}

#[test]
fn membership_evolves_by_exactly_the_batch_edits() {
    let mut store = Store::new();
    let plan = plan_revision(&store, vec![add_event("static/a.bin", b"a")]).unwrap();
    let r1 = commit_revision(&mut store, plan, None);

    let plan = plan_revision(
        &mut store,
        vec![
            add_event("static/b.bin", b"b"),
            WalkerEvent::Remove("static/a.bin".to_string()),
        ],
    )
    .unwrap();
    let r2 = commit_revision(&mut store, plan, None);
    assert_eq!(r2, r1 + 1);

    let at_r1 = store.membership_at(r1);
    assert_eq!(at_r1.len(), 1);
    assert_eq!(at_r1[0].1, "static/a.bin");
    let at_r2 = store.membership_at(r2);
    assert_eq!(at_r2.len(), 1);
    assert_eq!(at_r2[0].1, "static/b.bin");
}

#[test]
fn unchanged_update_is_a_touch() {
    let contents = b"payload" as &[u8];
    let mut set = RevisionSet::new();
    let mut writes = PendingWrites::new();
    let (ev, _) = process_entry_inner(entry("static/x.bin", contents), contents.to_vec(), true);
    let (hash, path) = match &ev {
        WalkerEvent::Update(item) => (item.hash.clone(), item.path.clone()),
        _ => panic!("an update was requested"),
    };
    set.add(hash.as_str(), path.as_str());

    ev.process(&mut set, &mut writes).unwrap();
    assert_eq!(set.count(), 1);
    assert!(set.contains(hash.as_str(), path.as_str()));
    assert!(writes.input_files.is_empty(), "a touch writes no records");
    assert!(writes.pages.is_empty());
}

#[test]
fn changed_update_replaces_the_membership() {
    let mut set = RevisionSet::new();
    let mut writes = PendingWrites::new();
    set.add("oldhash", "static/x.bin");
    let (ev, _) = process_entry_inner(entry("static/x.bin", b"new"), b"new".to_vec(), true);
    ev.process(&mut set, &mut writes).unwrap();
    assert_eq!(set.count(), 1);
    assert!(!set.contains("oldhash", "static/x.bin"));
    assert_eq!(writes.input_files.len(), 1);
}

#[test]
fn empty_net_effect_produces_no_revision() {
    let mut store = Store::new();
    let plan = plan_revision(&store, vec![add_event("static/a.bin", b"a")]).unwrap();
    commit_revision(&mut store, plan, None);
    let rows_before = store.revision_files.len();

    // The batch removes everything: the resulting set is empty, so the
    // cycle is cancelled and nothing is committed.
    let plan = plan_revision(&store, vec![WalkerEvent::Remove(String::new())]).unwrap();
    assert!(plan.members.is_empty());
    assert_eq!(store.revision_files.len(), rows_before);
    assert_eq!(store.max_revision(), Some(0));
}

#[test]
fn failing_front_matter_fails_the_batch() {
    let store = Store::new();
    let result = plan_revision(&store, vec![add_event("content/bad.md", b"no front matter")]);
    assert!(result.is_err());
}

#[test]
fn reingesting_an_identical_file_creates_no_new_records() {
    let mut store = Store::new();
    let plan = plan_revision(&store, vec![add_event("static/a.bin", b"a")]).unwrap();
    commit_revision(&mut store, plan, None);
    assert_eq!(store.input_files.len(), 1);

    let item = match add_event("static/a.bin", b"a") {
        WalkerEvent::Add(item) => item,
        _ => unreachable!(),
    };
    let plan = plan_revision(&store, vec![WalkerEvent::Update(item)]).unwrap();
    let r2 = commit_revision(&mut store, plan, None);
    assert_eq!(store.input_files.len(), 1, "an unchanged file is not re-persisted");
    assert_eq!(r2, 1);
}

#[test]
fn hidden_files_are_cached_not_inlined() {
    assert!(entry("content/a.md", b"x").is_inline());
    assert!(entry("sass/style.scss", b"x").is_inline());
    assert!(!entry("static/app.js", b"x").is_inline());
    // A name that is nothing but an extension has no stem, so no extension.
    assert!(!entry(".md", b"x").is_inline());
    assert!(!entry("content/.json", b"x").is_inline());
    assert!(!entry("trailing.", b"x").is_inline());
}

#[test]
fn hex_rendering_is_fixed_width_lower_case() {
    assert_eq!(hex16(0), "0000000000000000");
    assert_eq!(hex16(0xdead), "000000000000dead");
    assert_eq!(hex16(u64::MAX), "ffffffffffffffff");
    assert_eq!(hex16(0x0123456789abcdef), "0123456789abcdef");
}

#[test]
fn fingerprints_are_deterministic_and_fixed_width() {
    let e = entry("static/a.bin", b"abc");
    let h1 = e.hash(b"abc");
    let h2 = e.hash(b"abc");
    assert_eq!(h1, h2);
    assert_eq!(h1.len(), 16);
    assert!(h1.chars().all(|c| c.is_ascii_hexdigit()));
    let h3 = e.hash(b"abd");
    assert_ne!(h1, h3);
}

#[test]
fn pages_for_a_revision_follow_its_membership() {
    let mut store = Store::new();
    let plan = plan_revision(&store, vec![add_event("content/post.md", POST)]).unwrap();
    let r1 = commit_revision(&mut store, plan, None);

    let pages = Page::for_revision(&store, r1);
    assert_eq!(pages.len(), 1);
    assert_eq!(pages[0].title, "Hi");

    // Remove the page; the next revision carries no page for it, while the
    // page record itself persists.
    let plan = plan_revision(
        &store,
        vec![
            add_event("static/keep.bin", b"k"),
            WalkerEvent::Remove("content/post.md".to_string()),
        ],
    )
    .unwrap();
    let r2 = commit_revision(&mut store, plan, None);
    assert!(Page::for_revision(&store, r2).is_empty());
    assert_eq!(store.pages.len(), 1);
}

#[test]
fn store_queries_answer_by_key() {
    let mut store = Store::new();
    assert_eq!(store.max_revision(), None);
    let plan = plan_revision(&store, vec![add_event("static/a.bin", b"a")]).unwrap();
    let rev = commit_revision(&mut store, plan, None);
    assert_eq!(store.max_revision(), Some(rev));
    let hash = store.input_files[0].hash.clone();
    assert!(store.has_file(hash.as_str(), "static/a.bin"));
    assert!(!store.has_file(hash.as_str(), "static/b.bin"));
    assert!(store.is_member(hash.as_str(), "static/a.bin", rev));
    assert!(!store.is_member(hash.as_str(), "static/a.bin", rev + 1));
}

#[test]
fn page_tags_are_separate_rows() {
    let mut store = Store::new();
    let doc = b"---\ntitle: T\ndate: d\ntags:\n  - x\n  - y\n---\nbody";
    let plan = plan_revision(&store, vec![add_event("content/t.md", doc)]).unwrap();
    commit_revision(&mut store, plan, None);
    assert_eq!(store.page_tags.len(), 2);
    assert_eq!(store.page_tags[0].tag, "x");
    assert_eq!(store.page_tags[1].tag, "y");
    assert_eq!(store.page_tags[0].path, "content/t.md");
}

#[test]
fn the_store_invariant_is_decidable() {
    let mut store = Store::new();
    assert!(store.check_wf());
    let plan = plan_revision(&store, vec![add_event("static/a.bin", b"a")]).unwrap();
    commit_revision(&mut store, plan, None);
    assert!(store.check_wf());

    // A membership row with no content record, carrying a skipped revision
    // number, breaks the invariant.
    store.revision_files.push(RevisionFile {
        hash: "nosuch".to_string(),
        path: "nosuch".to_string(),
        revision: 7,
    });
    assert!(!store.check_wf());
    store.revision_files.pop();
    assert!(store.check_wf());

    // So does a duplicated content key.
    let duplicate = store.input_files[0].clone();
    store.input_files.push(duplicate);
    assert!(!store.check_wf());
}

#[test]
fn absent_option_helper() {
    let missing: Option<u32> = emphasize::config::none();
    assert_eq!(missing, None);
}
