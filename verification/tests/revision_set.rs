use emphasize::walk::revision_set::RevisionSet;

#[test]
fn empty_set_has_nothing() {
    let s = RevisionSet::new();
    assert!(s.is_empty());
    assert_eq!(s.count(), 0);
    assert!(!s.contains("h", "p"));
}

#[test]
fn add_reports_newness_and_ignores_duplicates() {
    let mut s = RevisionSet::new();
    assert!(s.add("h1", "content/a.md"));
    assert!(!s.add("h1", "content/a.md"));
    assert_eq!(s.count(), 1);
    assert!(s.contains("h1", "content/a.md"));
    assert!(!s.contains("h1", "content/b.md"));
    assert!(!s.contains("h2", "content/a.md"));
}

#[test]
fn removal_is_by_path_prefix_and_no_other() {
    let mut s = RevisionSet::new();
    s.add("h1", "content/a.md");
    s.add("h2", "content/sub/b.md");
    s.add("h3", "static/app.js");
    // A path that merely contains the removed prefix elsewhere must survive.
    s.add("h4", "mirror/content/c.md");
    s.remove_by_path("content/");
    assert_eq!(s.count(), 2);
    assert!(!s.contains("h1", "content/a.md"));
    assert!(!s.contains("h2", "content/sub/b.md"));
    assert!(s.contains("h3", "static/app.js"));
    assert!(s.contains("h4", "mirror/content/c.md"));
}

#[test]
fn removing_a_file_path_removes_exactly_it() {
    let mut s = RevisionSet::new();
    s.add("h1", "content/a.md");
    s.add("h2", "content/ab.md");
    s.remove_by_path("content/a.md");
    assert!(!s.contains("h1", "content/a.md"));
    assert!(s.contains("h2", "content/ab.md"));
}

#[test]
fn fill_unions_pairs() {
    let mut s = RevisionSet::new();
    s.add("h1", "a");
    s.fill(vec![
        ("h1".to_string(), "a".to_string()),
        ("h2".to_string(), "b".to_string()),
    ]);
    assert_eq!(s.count(), 2);
    assert!(s.contains("h2", "b"));
}

#[test]
fn get_walks_insertion_order() {
    let mut s = RevisionSet::new();
    s.add("h1", "a");
    s.add("h2", "b");
    let first = s.get(0);
    assert_eq!(first.0, "h1");
    assert_eq!(first.1, "a");
    let second = s.get(1);
    assert_eq!(second.0, "h2");
    assert_eq!(second.1, "b");
}
