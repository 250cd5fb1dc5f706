use dhttp::body::HttpBody;
use dhttp::res::{bytes, file_plan, html, json, redirect, text, HttpResponse};
use dhttp::status_code::StatusCode;

#[test]
fn builders_set_type_status_and_body() {
    let r = text("hello");
    assert_eq!(r.code.0, 200);
    assert_eq!(r.content_type, "text/plain; charset=utf-8");
    assert!(r.headers.is_empty());
    match &r.body {
        HttpBody::Bytes(b) => assert_eq!(b, b"hello"),
        _ => panic!("expected an in-memory body"),
    }
    assert_eq!(html("<p>x</p>").content_type, "text/html; charset=utf-8");
    assert_eq!(json("{}").content_type, "application/json");
    let raw = bytes(vec![1, 2, 3]);
    assert_eq!(raw.content_type, "application/octet-stream");
    assert_eq!(raw.body.content_length(), 3);
}

#[test]
fn new_response_is_empty_and_ok() {
    let d = HttpResponse::default();
    assert_eq!(d.code.0, 200);
    assert_eq!(d.body.content_length(), 0);
    let r = HttpResponse::new();
    assert_eq!(r.code.0, 200);
    assert!(r.headers.is_empty());
    assert_eq!(r.body.content_length(), 0);
    assert_eq!(r.content_type, "");
}

#[test]
fn added_headers_keep_insertion_order_and_duplicates() {
    let mut r = HttpResponse::new();
    r.add_header("X-One", "1");
    r.add_header("X-Two", "2");
    r.add_header("X-One", "again");
    let pairs: Vec<(&str, &str)> = r
        .headers
        .iter()
        .map(|h| (h.name.as_str(), h.value.as_str()))
        .collect();
    assert_eq!(pairs, vec![("X-One", "1"), ("X-Two", "2"), ("X-One", "again")]);
}

#[test]
fn redirect_keeps_a_safe_destination() {
    let r = redirect("/elsewhere");
    assert_eq!(r.code.0, 301);
    assert_eq!(r.headers.len(), 1);
    assert_eq!(r.headers[0].name, "Location");
    assert_eq!(r.headers[0].value, "/elsewhere");
    match &r.body {
        HttpBody::Bytes(b) => assert_eq!(
            b.as_slice(),
            b"<a href=\"/elsewhere\">Click here if you weren't redirected</a>\n" as &[u8]
        ),
        _ => panic!("expected an in-memory body"),
    }
}

#[test]
fn redirect_reencodes_an_unsafe_destination() {
    let r = redirect("/a b\"c\\d");
    assert_eq!(r.headers[0].value, "/a+b%22c%5Cd");
    let v = r.headers[0].value.as_bytes();
    assert!(!v.contains(&b'"') && !v.contains(&b'\\') && !v.contains(&b' '));
}

#[test]
fn file_plan_serves_a_partial_range_with_content_range() {
    let plan = file_plan(Some("bytes=0-49"), 100, None, None).unwrap();
    assert_eq!(plan.code.0, 206);
    assert_eq!(plan.offset, 0);
    assert_eq!(plan.length, 50);
    let pairs: Vec<(&str, &str)> = plan
        .headers
        .iter()
        .map(|h| (h.name.as_str(), h.value.as_str()))
        .collect();
    assert_eq!(
        pairs,
        vec![("Accept-Ranges", "bytes"), ("Content-Range", "bytes 0-49/100")]
    );
}

#[test]
fn file_plan_clamps_the_end() {
    let plan = file_plan(Some("bytes=90-200"), 100, None, None).unwrap();
    assert_eq!(plan.code.0, 206);
    assert_eq!(plan.offset, 90);
    assert_eq!(plan.length, 10);
    assert_eq!(plan.headers.last().unwrap().value, "bytes 90-99/100");
}

#[test]
fn file_plan_refuses_an_unsatisfiable_range_with_416() {
    let err = file_plan(Some("bytes=150-200"), 100, None, None).unwrap_err();
    assert_eq!(err.0, 416);
}

#[test]
fn file_plan_without_a_range_serves_everything() {
    let plan = file_plan(
        None,
        42,
        Some("Wed, 26 Feb 2025 22:10:59 GMT".to_string()),
        Some("Thu, 27 Feb 2025 08:00:00 GMT".to_string()),
    )
    .unwrap();
    assert_eq!(plan.code.0, 200);
    assert_eq!(plan.offset, 0);
    assert_eq!(plan.length, 42);
    let pairs: Vec<(&str, &str)> = plan
        .headers
        .iter()
        .map(|h| (h.name.as_str(), h.value.as_str()))
        .collect();
    assert_eq!(
        pairs,
        vec![
            ("Last-Modified", "Wed, 26 Feb 2025 22:10:59 GMT"),
            ("Date", "Thu, 27 Feb 2025 08:00:00 GMT"),
            ("Accept-Ranges", "bytes"),
        ]
    );
}

#[test]
fn status_texts_follow_the_table() {
    assert_eq!(StatusCode(200).as_str(), "OK");
    assert_eq!(StatusCode(301).as_str(), "Moved permanently");
    assert_eq!(StatusCode(400).as_str(), "Bad request");
    assert_eq!(StatusCode(403).as_str(), "Forbidden");
    assert_eq!(StatusCode(404).as_str(), "Not found");
    assert_eq!(StatusCode(405).as_str(), "Method not allowed");
    assert_eq!(StatusCode(413).as_str(), "Request entity too large");
    assert_eq!(StatusCode(500).as_str(), "Internal server error");
    assert_eq!(StatusCode(505).as_str(), "HTTP version not supported");
    assert_eq!(StatusCode(418).as_str(), "Unknown");
    assert_eq!(StatusCode(416).as_str(), "Unknown");
}
