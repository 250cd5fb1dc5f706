use dhttp::body::HttpBody;
use dhttp::errorhandler::{
    force_status, render_error, HttpError, HttpErrorHandler, PlainErrorHandler,
};
use dhttp::path::{sanitize, DangerousPathError};
use dhttp::res::{text, HttpResponse};
use dhttp::status_code::StatusCode;

/// A handler whose own response construction defaults to an unrelated
/// 200 status: the renderer must still force the error's code.
struct CheerfulHandler;

impl HttpErrorHandler for CheerfulHandler {
    fn error<E: HttpError>(&self, _error: &E) -> HttpResponse {
        text("all is fine")
    }

    fn plain_code(&self, _code: StatusCode) -> HttpResponse {
        text("all is fine")
    }
}

fn body_bytes(r: &HttpResponse) -> &[u8] {
    match &r.body {
        HttpBody::Bytes(b) => b.as_slice(),
        _ => panic!("expected an in-memory body"),
    }
}

#[test]
fn renderer_always_forces_the_errors_status() {
    let res = render_error(&CheerfulHandler, &StatusCode(404));
    assert_eq!(res.code.0, 404);
    let res = render_error(&CheerfulHandler, &StatusCode(505));
    assert_eq!(res.code.0, 505);
    let res = render_error(&PlainErrorHandler {}, &StatusCode(403));
    assert_eq!(res.code.0, 403);
    let res = render_error(&PlainErrorHandler {}, &DangerousPathError::DangerousPath);
    assert_eq!(res.code.0, 400);
}

#[test]
fn hidden_errors_render_only_the_status_text() {
    let handler = PlainErrorHandler {};
    let res = handler.render(&StatusCode(404));
    assert_eq!(res.code.0, 404);
    assert_eq!(body_bytes(&res), b"Not found");
    // a hidden description never reaches the body
    let err = sanitize("/a/../b").unwrap_err();
    let res = handler.render(&err);
    assert_eq!(res.code.0, 400);
    assert_eq!(body_bytes(&res), b"Bad request");
}

#[test]
fn plain_code_pages_carry_their_code() {
    let handler = PlainErrorHandler {};
    let res = handler.render_plain(StatusCode(413));
    assert_eq!(res.code.0, 413);
    assert_eq!(body_bytes(&res), b"Request entity too large");
}

#[test]
fn force_status_changes_nothing_else() {
    let mut r = text("payload");
    r.add_header("X-Marker", "kept");
    let forced = force_status(r, StatusCode(500));
    assert_eq!(forced.code.0, 500);
    assert_eq!(forced.headers.len(), 1);
    assert_eq!(forced.headers[0].value, "kept");
    assert_eq!(body_bytes(&forced), b"payload");
    assert_eq!(forced.content_type, "text/plain; charset=utf-8");
}

#[test]
fn path_errors_carry_bad_request_and_stay_hidden() {
    let err = sanitize("%2e%2e").unwrap_err();
    assert_eq!(err.status_code().0, 400);
    assert!(matches!(err.error_type(), dhttp::errorhandler::HttpErrorType::Hidden));
    assert_eq!(err.describe(), "path contains `..` or drive letters");
}
