//! Answering requests that nothing else answered.

use vstd::prelude::*;
use crate::context::{ServerContext, ServerHttpResponse};

verus! {

/// Answers with "not found" when no response has been chosen yet.
pub struct ErrorNotFoundMiddleware;

impl ErrorNotFoundMiddleware {
    /// The middleware's work before the rest of the pipeline: a request
    /// without a response gets the bodyless `404`; one with a response keeps it.
    pub fn before_next(&self, context: &mut ServerContext)
        ensures
            final(context).raw_message == old(context).raw_message,
            final(context).request == old(context).request,
            final(context).user == old(context).user,
            old(context).response is Some ==> final(context).response == old(context).response,
            old(context).response is None ==> (final(context).response matches Some(r)
                && r.is_bodyless(404)),
    {
        if context.response.is_none() {
            context.response = Some(ServerHttpResponse::from_code(404));
        }
    }
}

} // verus!
