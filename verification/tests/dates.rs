use dhttp::httpdate::{from_unix_secs, gmtime, httpdate};

#[test]
fn test_httpdate() {
    assert_eq!("Wed, 26 Feb 2025 22:10:59 GMT", &httpdate(&gmtime(1740607859).unwrap()));
}

#[test]
fn epoch_formats_exactly() {
    assert_eq!(from_unix_secs(0).unwrap(), "Thu, 1 Jan 1970 00:00:00 GMT");
}

#[test]
fn leap_day_is_computed() {
    assert_eq!(from_unix_secs(1709211907).unwrap(), "Thu, 29 Feb 2024 13:05:07 GMT");
}

#[test]
fn weekday_cycles_from_epoch() {
    assert_eq!(from_unix_secs(86400 * 3).unwrap(), "Sun, 4 Jan 1970 00:00:00 GMT");
}

#[test]
fn the_supported_range_ends_with_year_9999() {
    assert_eq!(from_unix_secs(253402300799).unwrap(), "Fri, 31 Dec 9999 23:59:59 GMT");
    assert!(from_unix_secs(253402300800).is_none());
    assert!(from_unix_secs(u64::MAX).is_none());
}
