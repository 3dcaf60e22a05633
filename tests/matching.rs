use framework::template_matches;

#[test]
fn test_route_matches() {
    assert!(template_matches("/", "/"));
    assert!(template_matches("/test", "/test"));
    assert!(template_matches("/:id", "/value"));
    assert!(template_matches("/test/:input", "/test/value"));
    assert!(template_matches("/:var/input", "/test/input"));
    assert!(template_matches("/test/input/", "/test/input"));
    assert!(template_matches("/:var/input/", "/test/input"));

    assert!(!template_matches("/var/input", "/test/input"));
    assert!(!template_matches("/var", "/test/input"));
    assert!(!template_matches("/var/test", "/test"));
    assert!(!template_matches("/var/", "/test/input"));
}

#[test]
fn exact_templates_match_themselves() {
    for t in ["", "/", "/a", "/a/b/c", "a/b", "//x//", "/:id/x"] {
        assert!(template_matches(t, t), "{t}");
    }
}

#[test]
fn variable_segment_takes_any_literal() {
    assert!(template_matches("/users/:id/posts", "/users/42/posts"));
    assert!(template_matches("/users/:id/posts", "/users/anything-at-all/posts"));
    assert!(template_matches("/:a/:b", "/x/y"));
}

#[test]
fn variable_segment_needs_a_non_empty_segment() {
    assert!(!template_matches("/:id", "/"));
    assert!(!template_matches("/a/:id/c", "/a//c"));
}

#[test]
fn literal_mismatch_fails_anywhere() {
    assert!(!template_matches("/users/:id/posts", "/users/42/comments"));
    assert!(!template_matches("/a/:id", "/b/1"));
    assert!(!template_matches("/Test", "/test"));
}

#[test]
fn prefix_matches_both_ways() {
    assert!(template_matches("/a", "/a/b"));
    assert!(template_matches("/a/b", "/a"));
    assert!(template_matches("/test", "/test/input"));
    assert!(template_matches("/var/input", "/var"));
}

#[test]
fn trailing_slash_is_insignificant() {
    assert!(template_matches("/test/input/", "/test/input"));
    assert!(template_matches("/test/input", "/test/input/"));
    assert!(template_matches("test/input", "///test/input///"));
}

#[test]
fn non_ascii_segments_compare_by_character() {
    assert!(template_matches("/café/:x", "/café/1"));
    assert!(!template_matches("/café", "/cafe"));
}
