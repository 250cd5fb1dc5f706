//! The static-files service: mapping a request route onto a hosted
//! directory.
//!
//! Only the path computation lives here; opening, reading and sending
//! the file are the caller's I/O. The root is deliberately joined
//! anew on every request: caching an open directory handle would
//! silently keep serving a directory after it has been moved away.

use vstd::prelude::*;
use vstd::string::{StrSliceExecFns, StringSliceAdditionalSpecFns};

use crate::path::{sanitize, split_slash, dotdot_seg, DangerousPathError, spec_sanitized};
use crate::urlencode::{spec_decode, SLASH};

verus! {

/// Hosts a directory with static files.
pub struct FilesService {
    /// The root directory under which routes are resolved.
    pub path: String,
}

impl FilesService {
    pub fn new(path: String) -> (r: FilesService)
        ensures
            r.path@ == path@,
    {
        FilesService { path }
    }

    /// The filesystem target for a route: the sanitized route joined
    /// under the root with `/`. Rejects exactly what `sanitize`
    /// rejects; what comes back never escapes the root through `..`.
    pub fn target(&self, route: &str) -> (r: Result<Vec<u8>, DangerousPathError>)
        ensures
            ({
                let dec = spec_decode(route.spec_bytes());
                &&& (r matches Err(DangerousPathError::InvalidCharacters) <==> dec.contains(0u8))
                &&& (r matches Err(DangerousPathError::DangerousPath) <==> !dec.contains(0u8)
                    && split_slash(dec).contains(dotdot_seg()))
                &&& (r matches Ok(v) ==> v@ == vstd::utf8::encode_utf8(self.path@) + seq![SLASH]
                    + spec_sanitized(dec))
            }),
    {
        let rel = match sanitize(route) {
            Ok(p) => p,
            Err(e) => {
                return Err(e);
            },
        };
        let mut out = self.path.as_str().as_bytes_vec();
        out.push(SLASH);
        let mut tail = rel.into_bytes();
        out.append(&mut tail);
        proof {
            assert(out@ =~= vstd::utf8::encode_utf8(self.path@) + seq![SLASH] + spec_sanitized(
                spec_decode(route.spec_bytes()),
            ));
        }
        Ok(out)
    }
}

} // verus!
