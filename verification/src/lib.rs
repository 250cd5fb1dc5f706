//! Response construction and resource serving for a small HTTP server:
//! a reversible percent codec, a path sanitizer for untrusted routes,
//! an HTTP byte-range resolver, the response data model, an error
//! taxonomy with a status-preserving renderer, and the framing step of
//! a minimal Server-Sent-Events driver.

pub mod ascii;
pub mod body;
pub mod digits;
pub mod errorhandler;
pub mod files;
pub mod httpdate;
pub mod logger;
pub mod path;
pub mod range;
pub mod res;
pub mod sse;
pub mod status_code;
pub mod urlencode;
