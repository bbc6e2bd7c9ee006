//! The pipeline: the middlewares a request passes through, in order.

use vstd::prelude::*;
use std::collections::VecDeque;
use std::sync::Arc;
use crate::middleware::authorization::AuthorizationMiddleware;
use crate::middleware::http_parsing::HttpParsingMiddleware;
use crate::middleware::logging::LoggingMiddleware;
use crate::middleware::route::RouteMiddleware;
use crate::middleware::serve_dir::ServeDirMiddleware;

verus! {

/// One middleware of a pipeline. `X` is the authentication middleware the
/// server was given, `H` the type of the route handlers.
pub enum PipelineStage<X, H> {
    HttpParsing(HttpParsingMiddleware),
    Authentication(X),
    Authorization(AuthorizationMiddleware),
    Logging(LoggingMiddleware),
    Route(RouteMiddleware<H>),
    ServeDir(ServeDirMiddleware),
}

/// The middlewares that have yet to see a request, first to last.
#[derive(Clone)]
pub struct MiddlewarePipeline<X, H> {
    pub middlewares: VecDeque<Arc<PipelineStage<X, H>>>,
}

impl<X, H> MiddlewarePipeline<X, H> {
    /// Takes the next middleware off the front of the pipeline, if any is left.
    pub fn next(&mut self) -> (r: Option<Arc<PipelineStage<X, H>>>)
        ensures
            match r {
                Some(stage) => {
                    &&& old(self).middlewares@.len() > 0
                    &&& stage == old(self).middlewares@[0]
                    &&& final(self).middlewares@ == old(self).middlewares@.drop_first()
                },
                None => {
                    &&& old(self).middlewares@.len() == 0
                    &&& final(self).middlewares@ == old(self).middlewares@
                },
            },
    {
        let r = self.middlewares.pop_front();
        proof {
            if r is Some {
                assert(old(self).middlewares@.subrange(1, old(self).middlewares@.len() as int)
                    =~= old(self).middlewares@.drop_first());
            }
        }
        r
    }
}

} // verus!
