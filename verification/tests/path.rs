use anycms_spa::cleanup::clean_request_path;
use anycms_spa::path::{normalize_path, relative_to_base, PathError};

#[test]
fn test_normalize_path() {
    assert_eq!(normalize_path("a/b/../c").unwrap(), "/a/c");
    assert_eq!(normalize_path("/a//b/").unwrap(), "/a/b");
    // An empty path is the root; no base is ever put in front of it.
    assert_eq!(normalize_path("").unwrap(), "/");
    assert_ne!(normalize_path("").unwrap(), "/base");
}

#[test]
fn test_relative_to_base() {
    assert_eq!(relative_to_base("/app/index.html", "app"), "index.html");
    assert_eq!(relative_to_base("/app/", "app"), "index.html");
    assert_eq!(relative_to_base("/app/css/style.css", "app"), "css/style.css");
    assert_eq!(relative_to_base("/other", "app"), "other");
}

#[test]
fn normalize_clamps_parent_segments_at_the_root() {
    assert_eq!(normalize_path("../../x").unwrap(), "/x");
    assert_eq!(normalize_path("..").unwrap(), "/");
    assert_eq!(normalize_path("/../..").unwrap(), "/");
    assert_eq!(normalize_path("/a/../../b").unwrap(), "/b");
}

#[test]
fn normalize_drops_empty_and_current_segments() {
    assert_eq!(normalize_path("/").unwrap(), "/");
    assert_eq!(normalize_path("///").unwrap(), "/");
    assert_eq!(normalize_path("./a/./b/.").unwrap(), "/a/b");
    assert_eq!(normalize_path("a").unwrap(), "/a");
    assert_eq!(normalize_path("/a/b/c/").unwrap(), "/a/b/c");
}

#[test]
fn normalize_keeps_other_segments_as_they_are() {
    assert_eq!(normalize_path("/.hidden/file.tar.gz").unwrap(), "/.hidden/file.tar.gz");
    assert_eq!(normalize_path("/caf\u{e9}/\u{65e5}\u{672c}").unwrap(), "/caf\u{e9}/\u{65e5}\u{672c}");
    assert_eq!(normalize_path("/a b/c.d").unwrap(), "/a b/c.d");
}

#[test]
fn normalize_rejects_adjacent_dots_inside_a_segment() {
    assert!(matches!(normalize_path("/a..b"), Err(PathError::PathTraversal)));
    assert!(matches!(normalize_path("/..."), Err(PathError::PathTraversal)));
    assert!(matches!(normalize_path("x/y../z"), Err(PathError::PathTraversal)));
    // A segment that is cancelled again does not count.
    assert_eq!(normalize_path("/a..b/../c").unwrap(), "/c");
}

#[test]
fn normalize_is_idempotent_on_samples() {
    for raw in ["", "/", "a/b/../c", "/a//b/", "../../x", "./.", "/x/./y/../z/", "//a///b"] {
        let once = normalize_path(raw).unwrap();
        let twice = normalize_path(&once).unwrap();
        assert_eq!(once, twice);
    }
}

#[test]
fn normalized_paths_have_canonical_shape() {
    for raw in ["", "a", "/a//b/", "../x/", "a/./b//c/.."] {
        let path = normalize_path(raw).unwrap();
        assert!(path.starts_with('/'));
        assert!(!path.contains("//"));
        assert!(!path.contains(".."));
        assert!(path == "/" || !path.ends_with('/'));
    }
}

#[test]
fn path_error_messages() {
    assert_eq!(PathError::PathTraversal.message(), "Path traversal attempt detected");
    assert_eq!(PathError::InvalidPath("a\u{0}b".to_string()).message(), "Invalid path: a\u{0}b");
}

#[test]
fn strip_ignores_slashes_around_the_base() {
    assert_eq!(relative_to_base("/app/a.js", "/app/"), "a.js");
    assert_eq!(relative_to_base("/app/a.js", "//app//"), "a.js");
    assert_eq!(relative_to_base("/app/a.js", "/app"), "a.js");
    assert_eq!(relative_to_base("/a/b/c.js", "/a/b/"), "c.js");
}

#[test]
fn strip_with_empty_base_drops_the_leading_slash() {
    assert_eq!(relative_to_base("/css/style.css", "/"), "css/style.css");
    assert_eq!(relative_to_base("/css/style.css", ""), "css/style.css");
    assert_eq!(relative_to_base("/", "/"), "index.html");
    assert_eq!(relative_to_base("", ""), "index.html");
}

#[test]
fn strip_of_the_mount_point_is_the_index_key() {
    assert_eq!(relative_to_base("/dashboard", "/dashboard"), "index.html");
    assert_eq!(relative_to_base("/dashboard/", "/dashboard"), "index.html");
}

#[test]
fn strip_needs_the_base_to_end_at_a_segment_boundary() {
    assert_eq!(relative_to_base("/application/x", "app"), "application/x");
    assert_eq!(relative_to_base("/ap", "app"), "ap");
    assert_eq!(relative_to_base("/app2", "app"), "app2");
    assert_eq!(relative_to_base("app/x", "app"), "app/x");
}

#[test]
fn strip_reads_the_base_as_text() {
    assert_eq!(relative_to_base("/aXb/c", "a.b"), "aXb/c");
    assert_eq!(relative_to_base("/a.b/c", "a.b"), "c");
    assert_eq!(relative_to_base("/(x/c", "(x"), "c");
}

#[test]
fn keys_of_normalized_paths_are_relative() {
    for (raw, base) in [("", "/"), ("/app", "app"), ("/app//x/../y", "/app/"), ("../z", "app")] {
        let path = normalize_path(raw).unwrap();
        let key = relative_to_base(&path, base);
        assert!(!key.is_empty());
        assert!(!key.starts_with('/'));
        assert!(!key.contains(".."));
    }
}

#[test]
fn cleanup_collapses_runs_of_slashes() {
    assert_eq!(clean_request_path("//a///b/"), "/a/b/");
    assert_eq!(clean_request_path("a/b"), "a/b");
    assert_eq!(clean_request_path(""), "");
    assert_eq!(clean_request_path("////"), "/");
    assert_eq!(clean_request_path("/\u{e9}//\u{e9}"), "/\u{e9}/\u{e9}");
}

#[test]
fn cleanup_does_not_change_the_normal_form() {
    for raw in ["//a///b/", "a//../b", "///", "a/./b//"] {
        let cleaned = clean_request_path(raw);
        assert_eq!(normalize_path(&cleaned).unwrap(), normalize_path(raw).unwrap());
    }
}
