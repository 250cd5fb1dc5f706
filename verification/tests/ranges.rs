use dhttp::range::{parse_range, resolve, RangeOutcome};

#[test]
fn plain_range_is_served_partially() {
    assert_eq!(
        resolve(Some("bytes=0-49"), 100),
        RangeOutcome::Partial { start: 0, end: 49, length: 50 }
    );
}

#[test]
fn overlong_range_is_clamped_to_last_byte() {
    assert_eq!(
        resolve(Some("bytes=90-200"), 100),
        RangeOutcome::Partial { start: 90, end: 99, length: 10 }
    );
}

#[test]
fn range_past_the_content_is_unsatisfiable() {
    assert_eq!(resolve(Some("bytes=150-200"), 100), RangeOutcome::Unsatisfiable);
    assert_eq!(resolve(Some("bytes=100-200"), 100), RangeOutcome::Unsatisfiable);
}

#[test]
fn no_header_means_full_delivery() {
    assert_eq!(resolve(None, 100), RangeOutcome::Full);
}

#[test]
fn inverted_and_malformed_ranges_are_unsatisfiable() {
    assert_eq!(resolve(Some("bytes=50-40"), 100), RangeOutcome::Unsatisfiable);
    assert_eq!(resolve(Some("items=0-49"), 100), RangeOutcome::Unsatisfiable);
    assert_eq!(resolve(Some("bytes=abc-49"), 100), RangeOutcome::Unsatisfiable);
    assert_eq!(resolve(Some("bytes=12"), 100), RangeOutcome::Unsatisfiable);
    assert_eq!(resolve(Some(""), 100), RangeOutcome::Unsatisfiable);
    assert_eq!(resolve(Some("bytes=0-49"), 0), RangeOutcome::Unsatisfiable);
}

#[test]
fn missing_bounds_take_defaults() {
    assert_eq!(parse_range("bytes=-500"), Some((0, 500)));
    assert_eq!(parse_range("bytes=100-"), Some((100, u64::MAX)));
    assert_eq!(parse_range("bytes=-"), Some((0, u64::MAX)));
    assert_eq!(parse_range("bytes=5-7"), Some((5, 7)));
    assert_eq!(parse_range("bytes=18446744073709551616-"), None);
    assert_eq!(
        resolve(Some("bytes=-"), 10),
        RangeOutcome::Partial { start: 0, end: 9, length: 10 }
    );
}
