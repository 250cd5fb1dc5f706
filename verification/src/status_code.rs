//! HTTP status codes and their canonical short texts.

use vstd::prelude::*;

verus! {

/// An HTTP status code
#[derive(Debug, Clone, Copy, PartialEq, Eq, Structural)]
pub struct StatusCode(pub u16);

/// The canonical short text of a status code; codes outside the table
/// render as "Unknown".
pub open spec fn spec_status_text(code: u16) -> Seq<char> {
    if code == 200 {
        "OK"@
    } else if code == 301 {
        "Moved permanently"@
    } else if code == 400 {
        "Bad request"@
    } else if code == 403 {
        "Forbidden"@
    } else if code == 404 {
        "Not found"@
    } else if code == 405 {
        "Method not allowed"@
    } else if code == 413 {
        "Request entity too large"@
    } else if code == 500 {
        "Internal server error"@
    } else if code == 505 {
        "HTTP version not supported"@
    } else {
        "Unknown"@
    }
}

impl StatusCode {
    /// Provides a textual representation of this status code
    pub fn as_str(&self) -> (r: &'static str)
        ensures
            r@ == spec_status_text(self.0),
    {
        match self.0 {
            200 => "OK",
            301 => "Moved permanently",
            400 => "Bad request",
            403 => "Forbidden",
            404 => "Not found",
            405 => "Method not allowed",
            413 => "Request entity too large",
            500 => "Internal server error",
            505 => "HTTP version not supported",
            _ => "Unknown",
        }
    }
}

} // verus!
