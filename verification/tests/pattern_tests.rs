use muskox::pattern::{has_tag, is_canonical, parent_folder, tags_to_pattern, tx_path};

#[test]
fn udim_token_becomes_wildcard() {
    let p = tags_to_pattern("a.<udim>.exr".to_string());
    assert_eq!(p, "a.*.exr");
}

#[test]
fn plain_path_unchanged() {
    let p = tags_to_pattern("textures/plain.exr".to_string());
    assert_eq!(p, "textures/plain.exr");
}

#[test]
fn several_tokens_each_collapse() {
    assert_eq!(tags_to_pattern("x<a>y<b>z".to_string()), "x*y*z");
    assert_eq!(tags_to_pattern("<>".to_string()), "*");
}

#[test]
fn unclosed_token_kept_verbatim() {
    assert_eq!(tags_to_pattern("a<b".to_string()), "a<b");
    assert_eq!(tags_to_pattern("a>b<c>".to_string()), "a>b*");
}

#[test]
fn parent_of_nested_path() {
    assert_eq!(parent_folder("/a/b/c.exr".to_string()), "/a/b");
    assert_eq!(parent_folder("a/b/c.exr".to_string()), "a/b");
}

#[test]
fn parent_of_bare_name_is_empty() {
    assert_eq!(parent_folder("c.exr".to_string()), "");
    assert_eq!(parent_folder("".to_string()), "");
}

#[test]
fn parent_keeps_root() {
    assert_eq!(parent_folder("/a".to_string()), "/");
    assert_eq!(parent_folder("/".to_string()), "");
}

#[test]
fn parent_ignores_trailing_and_doubled_separators() {
    assert_eq!(parent_folder("a/b/".to_string()), "a");
    assert_eq!(parent_folder("a//b".to_string()), "a");
}

#[test]
fn tx_path_replaces_extension() {
    assert_eq!(tx_path("a.1001.exr"), Some("a.1001.tx".to_string()));
    assert_eq!(tx_path("grid.png"), Some("grid.tx".to_string()));
}

#[test]
fn tx_path_needs_a_dot() {
    assert_eq!(tx_path("noext"), None);
    // The rule cuts at the last dot wherever it stands.
    assert_eq!(tx_path("dir.v2/file"), Some("dir.tx".to_string()));
}

#[test]
fn canonical_extension_detected() {
    assert!(is_canonical("a.1001.tx"));
    assert!(!is_canonical("a.1001.exr"));
    assert!(!is_canonical("tx"));
}

#[test]
fn tag_marker_detected() {
    assert!(has_tag("a.<udim>.exr"));
    assert!(!has_tag("a.1001.exr"));
}

#[test]
fn add_sums() {
    assert_eq!(muskox::add(2, 3), 5);
}
