use emphasize::normalize_path;
use emphasize::text::{has_prefix, has_suffix, str_eq, strip_final_extension, strip_prefix_matches,
    strip_suffix_matches};
use emphasize::walk::revision_route::{do_parent_path, to_route_path};

#[test]
fn str_eq_compares_contents() {
    assert!(str_eq("abc", "abc"));
    assert!(!str_eq("abc", "abd"));
    assert!(!str_eq("abc", "ab"));
}

#[test]
fn prefix_and_suffix() {
    assert!(has_prefix("content/post.md", "content"));
    assert!(!has_prefix("content/post.md", "static"));
    assert!(has_prefix("anything", ""));
    assert!(has_suffix("content/post.md", ".md"));
    assert!(!has_suffix("content/post.md", ".scss"));
    assert!(!has_suffix("md", "post.md"));
}

#[test]
fn strip_repeated_patterns() {
    assert_eq!(strip_prefix_matches("content/post.md", "content"), "/post.md");
    assert_eq!(strip_prefix_matches("abab-rest", "ab"), "-rest");
    assert_eq!(strip_suffix_matches("a/index.md/index.md", "/index.md"), "a");
    assert_eq!(strip_prefix_matches("unrelated", "xyz"), "unrelated");
}

#[test]
fn final_extension_is_dropped() {
    assert_eq!(strip_final_extension("post.md"), "post");
    assert_eq!(strip_final_extension("archive.tar.gz"), "archive.tar");
    assert_eq!(strip_final_extension("no-extension"), "no-extension");
    assert_eq!(strip_final_extension("trailing."), "trailing.");
}

#[test]
fn route_paths_follow_the_transform() {
    assert_eq!(to_route_path("content/post.md"), "post");
    assert_eq!(to_route_path("content/index.md"), "");
    assert_eq!(to_route_path("content/notes/2024/entry.md"), "notes/2024/entry");
    assert_eq!(to_route_path("content/notes/index.md"), "notes");
}

#[test]
fn parent_paths() {
    assert_eq!(do_parent_path("post"), Some(String::new()));
    assert_eq!(do_parent_path("notes/2024/entry"), Some("notes/2024".to_string()));
    assert_eq!(do_parent_path(""), None);
}

#[test]
fn normalization_is_lexical() {
    assert_eq!(normalize_path("a/./b/../c"), "a/c");
    assert_eq!(normalize_path("a//b/"), "a/b");
    assert_eq!(normalize_path("/x/../y"), "/y");
    assert_eq!(normalize_path("../a"), "a");
    assert_eq!(normalize_path("content/a.md"), "content/a.md");
}
