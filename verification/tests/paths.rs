use dhttp::path::{encode, sanitize, sanitize_win, DangerousPathError};

#[test]
fn parent_segment_is_dangerous() {
    assert!(matches!(sanitize("/a/../b"), Err(DangerousPathError::DangerousPath)));
}

#[test]
fn dot_segments_and_trailing_slash_drop_out() {
    let p = sanitize("/a/./b/").unwrap();
    assert_eq!(p.as_bytes(), b"a/b");
}

#[test]
fn empty_route_becomes_current_directory() {
    let p = sanitize("").unwrap();
    assert_eq!(p.as_bytes(), b".");
    let p2 = sanitize("/").unwrap();
    assert_eq!(p2.as_bytes(), b".");
}

#[test]
fn encoded_parent_segment_is_caught_after_decoding() {
    assert!(matches!(sanitize("%2e%2e/etc/passwd"), Err(DangerousPathError::DangerousPath)));
    assert!(matches!(sanitize("%2E%2e/x"), Err(DangerousPathError::DangerousPath)));
}

#[test]
fn nul_byte_is_invalid() {
    assert!(matches!(sanitize("a%00b"), Err(DangerousPathError::InvalidCharacters)));
}

#[test]
fn plain_routes_pass_through() {
    assert_eq!(sanitize("/static/css/site.css").unwrap().as_bytes(), b"static/css/site.css");
    assert_eq!(sanitize("a//b").unwrap().as_bytes(), b"a/b");
    assert_eq!(sanitize("one%20two").unwrap().as_bytes(), b"one two");
}

#[test]
fn dotted_names_are_not_parent_segments() {
    assert_eq!(sanitize("/a..b/.hidden/c.../..d").unwrap().as_bytes(), b"a..b/.hidden/c.../..d");
}

#[test]
fn reserved_names_are_dangerous() {
    assert!(matches!(sanitize_win("NUL"), Err(DangerousPathError::DangerousPath)));
    assert!(matches!(sanitize_win("docs/nul.txt"), Err(DangerousPathError::DangerousPath)));
    assert!(matches!(sanitize_win("CoM1/x"), Err(DangerousPathError::DangerousPath)));
    assert!(matches!(sanitize_win("lpt9"), Err(DangerousPathError::DangerousPath)));
    assert!(matches!(sanitize_win("a/../b"), Err(DangerousPathError::DangerousPath)));
}

#[test]
fn reserved_strategy_rejects_control_and_separator_bytes() {
    assert!(matches!(sanitize_win("a\\b"), Err(DangerousPathError::InvalidCharacters)));
    assert!(matches!(sanitize_win("c:file"), Err(DangerousPathError::InvalidCharacters)));
    assert!(matches!(sanitize_win("a\tb"), Err(DangerousPathError::InvalidCharacters)));
}

#[test]
fn reserved_strategy_accepts_plain_routes() {
    let p = sanitize_win("/a/./b/").unwrap();
    assert_eq!(p.as_bytes(), b"a/b");
    // the prefix rule applies regardless of suffix
    assert!(matches!(sanitize_win("CONTENTS"), Err(DangerousPathError::DangerousPath)));
    assert_eq!(sanitize_win("docs/readme.txt").unwrap().as_bytes(), b"docs/readme.txt");
}

#[test]
fn sanitized_path_encodes_with_slashes_kept() {
    let p = sanitize("/a b/c").unwrap();
    assert_eq!(encode(&p), "a+b/c");
}
