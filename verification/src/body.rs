//! The response body: in-memory bytes, or a bounded slice of a file.

use vstd::prelude::*;

verus! {

/// Declares tokio's asynchronous file handle so a body can carry one.
/// The handle is opaque here; reading and sending happen outside.
#[verifier::external_type_specification]
#[verifier::external_body]
pub struct ExFile(tokio::fs::File);

/// Body of the response.
pub enum HttpBody {
    /// In-memory bytes.
    Bytes(Vec<u8>),
    /// An open file handle whose read position already stands at the
    /// slice start; exactly `len` bytes of it are to be sent, however
    /// many remain in the file.
    File { file: tokio::fs::File, len: u64 },
}

impl HttpBody {
    /// The number of bytes a sender must transfer for this body.
    pub open spec fn spec_content_length(&self) -> int {
        match self {
            HttpBody::Bytes(v) => v@.len() as int,
            HttpBody::File { len, .. } => *len as int,
        }
    }

    /// Length of the body in bytes.
    pub fn content_length(&self) -> (r: u64)
        ensures
            r == self.spec_content_length(),
    {
        match self {
            HttpBody::Bytes(v) => v.len() as u64,
            HttpBody::File { len, .. } => *len,
        }
    }
}

} // verus!
