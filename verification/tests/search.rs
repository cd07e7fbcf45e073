use oma::search::{detail, format_path, format_path_with, relativize, relativize_with, sanitize_line};

#[test]
fn results_are_relativized_against_search_root() {
    assert_eq!(relativize("/work/src/main.rs", "/work"), "src/main.rs");
    assert_eq!(relativize("src/main.rs", "/work"), "src/main.rs");
    assert_eq!(relativize("/other/x.rs", "/work"), "/other/x.rs");
}

#[test]
fn relativize_edges() {
    assert_eq!(relativize("/work", "/work"), "/work");
    assert_eq!(relativize("a\\b.rs", "/work"), "a/b.rs");
    assert_eq!(relativize_with("/w/x", Some("")), "/w/x");
    assert_eq!(relativize_with("/w/x", Some("x")), "x");
    assert_eq!(relativize_with("/w/x", None), "/w/x");
}

#[test]
fn grep_paths_are_shown_under_the_root_or_by_name() {
    assert_eq!(format_path("/work", true, "/work/src/lib.rs"), "src/lib.rs");
    assert_eq!(format_path("/work", false, "/work/src/lib.rs"), "lib.rs");
    assert_eq!(format_path("/work", true, "/elsewhere/a.rs"), "a.rs");
    assert_eq!(format_path_with(true, "/w/..x", Some("..x"), Some("..x")), "..x");
    assert_eq!(format_path_with(true, "f", None, None), "f");
}

#[test]
fn match_lines_lose_line_breaks() {
    assert_eq!(sanitize_line("text\r\n"), "text");
    assert_eq!(sanitize_line("a\rb\n\n"), "ab");
    assert_eq!(sanitize_line("plain"), "plain");
    assert_eq!(detail("  boom \n"), ": boom");
    assert_eq!(detail(" \n"), "");
}
