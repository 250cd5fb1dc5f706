use dhttp::digits::{format_u64, parse_u64, u64_to_string};
use dhttp::files::FilesService;
use dhttp::path::DangerousPathError;

#[test]
fn targets_are_joined_under_the_root() {
    let svc = FilesService::new("/srv/www".to_string());
    assert_eq!(svc.target("/a/b.txt").unwrap(), b"/srv/www/a/b.txt");
    assert_eq!(svc.target("").unwrap(), b"/srv/www/.");
    assert_eq!(svc.target("x%20y").unwrap(), b"/srv/www/x y");
}

#[test]
fn traversal_never_reaches_the_root_join() {
    let svc = FilesService::new("/srv/www".to_string());
    assert!(matches!(svc.target("/../etc/passwd"), Err(DangerousPathError::DangerousPath)));
    assert!(matches!(svc.target("%2e%2e/secret"), Err(DangerousPathError::DangerousPath)));
}

#[test]
fn decimal_parse_and_format_agree() {
    assert_eq!(parse_u64(b"0"), Some(0));
    assert_eq!(parse_u64(b"007"), Some(7));
    assert_eq!(parse_u64(b"18446744073709551615"), Some(u64::MAX));
    assert_eq!(parse_u64(b"18446744073709551616"), None);
    assert_eq!(parse_u64(b""), None);
    assert_eq!(parse_u64(b"12a"), None);
    assert_eq!(format_u64(0), b"0");
    assert_eq!(format_u64(906), b"906");
    assert_eq!(u64_to_string(u64::MAX), "18446744073709551615");
}
