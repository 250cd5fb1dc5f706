//! The error taxonomy: a capability every error value can implement,
//! and a renderer that turns one into a response without ever
//! downgrading its real status code.

use vstd::prelude::*;
use vstd::string::{StrSliceExecFns, StringSliceAdditionalSpecFns};

use crate::body::HttpBody;
use crate::path::DangerousPathError;
use crate::res::{text, HttpResponse};
use crate::status_code::{spec_status_text, StatusCode};

verus! {

/// Whether an error's description may reach the client.
#[derive(Debug, Clone, Copy, PartialEq, Eq, Structural)]
pub enum HttpErrorType {
    /// The description is confidential: only the canonical status
    /// text is ever rendered for the client.
    Hidden,
    /// The description may be rendered for the client.
    Visible,
}

/// The capability of an error value: a status code, a visibility, and
/// a human description. Hidden descriptions never reach the client.
pub trait HttpError {
    /// The status code this error must be served with.
    spec fn spec_status(&self) -> u16;

    /// Whether the description is confidential.
    spec fn spec_hidden(&self) -> bool;

    /// The description's text.
    spec fn spec_describe(&self) -> Seq<char>;

    fn status_code(&self) -> (r: StatusCode)
        ensures
            r.0 == self.spec_status(),
    ;

    fn error_type(&self) -> (r: HttpErrorType)
        ensures
            (r is Hidden) == self.spec_hidden(),
    ;

    fn describe(&self) -> (r: String)
        ensures
            r@ == self.spec_describe(),
    ;
}

impl HttpError for StatusCode {
    open spec fn spec_status(&self) -> u16 {
        self.0
    }

    open spec fn spec_hidden(&self) -> bool {
        true
    }

    open spec fn spec_describe(&self) -> Seq<char> {
        spec_status_text(self.0)
    }

    fn status_code(&self) -> (r: StatusCode) {
        *self
    }

    fn error_type(&self) -> (r: HttpErrorType) {
        HttpErrorType::Hidden
    }

    fn describe(&self) -> (r: String) {
        self.as_str().to_owned()
    }
}

impl HttpError for DangerousPathError {
    open spec fn spec_status(&self) -> u16 {
        400
    }

    open spec fn spec_hidden(&self) -> bool {
        true
    }

    open spec fn spec_describe(&self) -> Seq<char> {
        if self is DangerousPath {
            "path contains `..` or drive letters"@
        } else {
            "path contains forbidden characters"@
        }
    }

    fn status_code(&self) -> (r: StatusCode) {
        StatusCode(400)
    }

    fn error_type(&self) -> (r: HttpErrorType) {
        HttpErrorType::Hidden
    }

    fn describe(&self) -> (r: String) {
        match self {
            DangerousPathError::DangerousPath => "path contains `..` or drive letters".to_owned(),
            DangerousPathError::InvalidCharacters => "path contains forbidden characters".to_owned(),
        }
    }
}

/// Handler for possible service errors.
///
/// Whatever status a handler's own response construction defaults to
/// is not used: the renderer overrides it with the error's own status
/// code, so an error path can never yield a `200 OK`.
pub trait HttpErrorHandler {
    /// Constructs a response for the given error.
    fn error<E: HttpError>(&self, error: &E) -> HttpResponse;

    /// Shows a plain error code page, for failures where no
    /// structured error value exists yet.
    fn plain_code(&self, code: StatusCode) -> HttpResponse;
}

/// Replaces a response's status code, leaving all else unchanged.
pub fn force_status(res: HttpResponse, code: StatusCode) -> (r: HttpResponse)
    ensures
        r.code == code,
        r.headers == res.headers,
        r.body == res.body,
        r.content_type == res.content_type,
{
    let mut r = res;
    r.code = code;
    r
}

/// Renders an error through a handler and forces the final status to
/// the error's own status code, whatever status the handler's
/// response construction defaulted to.
pub fn render_error<H: HttpErrorHandler, E: HttpError>(handler: &H, error: &E) -> (r: HttpResponse)
    ensures
        r.code.0 == error.spec_status(),
{
    let code = error.status_code();
    let res = handler.error(error);
    force_status(res, code)
}

/// The plain built-in renderer: a hidden error shows only the
/// canonical status text, a visible one shows its description.
pub struct PlainErrorHandler {}

impl PlainErrorHandler {
    /// Renders an error as a plaintext response under its own status
    /// code; a hidden description never reaches the body.
    pub fn render<E: HttpError>(&self, error: &E) -> (r: HttpResponse)
        ensures
            r.code.0 == error.spec_status(),
            error.spec_hidden() ==> (r.body matches HttpBody::Bytes(b) && b@
                == vstd::utf8::encode_utf8(spec_status_text(error.spec_status()))),
            !error.spec_hidden() ==> (r.body matches HttpBody::Bytes(b) && b@
                == vstd::utf8::encode_utf8(error.spec_describe())),
    {
        let code = error.status_code();
        let res = match error.error_type() {
            HttpErrorType::Hidden => text(code.as_str()),
            HttpErrorType::Visible => {
                let d = error.describe();
                text(d.as_str())
            },
        };
        force_status(res, code)
    }

    /// Renders a bare status code as a plaintext response.
    pub fn render_plain(&self, code: StatusCode) -> (r: HttpResponse)
        ensures
            r.code == code,
            r.body matches HttpBody::Bytes(b) && b@ == vstd::utf8::encode_utf8(
                spec_status_text(code.0),
            ),
    {
        force_status(text(code.as_str()), code)
    }
}

impl HttpErrorHandler for PlainErrorHandler {
    fn error<E: HttpError>(&self, error: &E) -> HttpResponse {
        self.render(error)
    }

    fn plain_code(&self, code: StatusCode) -> HttpResponse {
        self.render_plain(code)
    }
}

} // verus!
