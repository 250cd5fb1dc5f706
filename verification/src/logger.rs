//! The logging capability: a pure observer of responses and errors.

use vstd::prelude::*;

use crate::errorhandler::HttpError;
use crate::res::HttpResponse;

verus! {

/// Logs served responses and errors. An implementation observes only:
/// it receives shared references and cannot change what is sent.
pub trait HttpLogger {
    /// Log a successfully served response.
    fn log(&self, res: &HttpResponse);

    /// Log an error and the response rendered for it.
    fn err<E: HttpError>(&self, res: &HttpResponse, error: &E);
}

} // verus!
