//! Adding middlewares to a server, in the order they are to run.

use vstd::prelude::*;
use vstd::hash_map::StringHashMap;
use std::collections::VecDeque;
use std::sync::Arc;
use crate::middleware::authorization::AuthorizationMiddleware;
use crate::middleware::http_parsing::HttpParsingMiddleware;
use crate::middleware::logging::LoggingMiddleware;
use crate::middleware::route::{RouteHandler, RouteMiddleware, route_map};
use crate::middleware::serve_dir::ServeDirMiddleware;
use crate::pipeline::{MiddlewarePipeline, PipelineStage};
use crate::server::web_server::Server;

verus! {

/// `after` is `before` with one more item at the end.
pub open spec fn appends_one<T>(before: Seq<T>, after: Seq<T>) -> bool {
    &&& after.len() == before.len() + 1
    &&& after.take(before.len() as int) == before
}

/// `after` is `before` with one more middleware, `stage`, at the end.
pub open spec fn appended<X, H>(
    before: Seq<Arc<PipelineStage<X, H>>>,
    after: Seq<Arc<PipelineStage<X, H>>>,
    stage: PipelineStage<X, H>,
) -> bool {
    &&& appends_one(before, after)
    &&& *after.last() == stage
}

/// `history` is a builder as `listen` returns it, followed by the builder after
/// each later call: every call keeps the address and adds one middleware at the end.
pub open spec fn is_build_history<X, H>(history: Seq<ServerBuilder<X, H>>) -> bool {
    &&& history.len() > 0
    &&& history[0].middleware@.len() == 0
    &&& forall|i: int|
        #![trigger history[i]]
        0 <= i < history.len() - 1 ==> {
            &&& history[i + 1].address == history[i].address
            &&& appends_one(history[i].middleware@, history[i + 1].middleware@)
        }
}

/// A builder taken from `listen` through a run of `use_*` calls, then built:
/// the server keeps the address it was given, and its pipeline holds one
/// middleware per call, the one the i-th call added in i-th place, so that the
/// middlewares run in the order they were added, none dropped and none repeated.
pub proof fn law_pipeline_in_call_order<X, H>(history: Seq<ServerBuilder<X, H>>, server: Server<X, H>)
    requires
        is_build_history(history),
        server.address == history.last().address,
        server.middleware.middlewares@ == history.last().middleware@,
    ensures
        server.address == history[0].address,
        server.middleware.middlewares@.len() == history.len() - 1,
        forall|i: int|
            0 <= i < history.len() - 1 ==> server.middleware.middlewares@[i] == #[trigger] history[i
                + 1].middleware@.last(),
    decreases history.len(),
{
    if history.len() > 1 {
        let prefix = history.drop_last();
        let n = history.len() - 1;
        assert forall|i: int| #![trigger prefix[i]] 0 <= i < prefix.len() - 1 implies {
            &&& prefix[i + 1].address == prefix[i].address
            &&& appends_one(prefix[i].middleware@, prefix[i + 1].middleware@)
        } by {
            assert(prefix[i] == history[i]);
            assert(prefix[i + 1] == history[i + 1]);
        }
        let earlier = Server {
            address: prefix.last().address,
            middleware: MiddlewarePipeline { middlewares: prefix.last().middleware },
        };
        law_pipeline_in_call_order(prefix, earlier);
        assert(history[n].address == history[n - 1].address);
        assert(appends_one(history[n - 1].middleware@, history[n].middleware@));
        assert forall|i: int| 0 <= i < history.len() - 1 implies server.middleware.middlewares@[i]
            == #[trigger] history[i + 1].middleware@.last() by {
            if i < n - 1 {
                assert(prefix[i + 1] == history[i + 1]);
                assert(history[n].middleware@.take(n - 1)[i] == history[n - 1].middleware@[i]);
            }
        }
    }
}

/// A server under construction.
pub struct ServerBuilder<X, H> {
    pub address: String,
    pub middleware: VecDeque<Arc<PipelineStage<X, H>>>,
}

impl<X, H> ServerBuilder<X, H> {
    /// The server, whose pipeline holds the middlewares in the order they were added.
    pub fn build(self) -> (r: Server<X, H>)
        ensures
            r.address == self.address,
            r.middleware.middlewares@ == self.middleware@,
    {
        Server { address: self.address, middleware: MiddlewarePipeline { middlewares: self.middleware } }
    }

    fn add(&mut self, stage: PipelineStage<X, H>)
        ensures
            final(self).address == old(self).address,
            appended(old(self).middleware@, final(self).middleware@, stage),
    {
        self.middleware.push_back(Arc::new(stage));
        assert(final(self).middleware@.take(old(self).middleware@.len() as int) =~= old(
            self,
        ).middleware@);
    }

    /// Adds request parsing.
    pub fn use_http_parsing(&mut self)
        ensures
            final(self).address == old(self).address,
            appended(
                old(self).middleware@,
                final(self).middleware@,
                PipelineStage::HttpParsing(HttpParsingMiddleware),
            ),
    {
        self.add(PipelineStage::HttpParsing(HttpParsingMiddleware));
    }

    /// Adds an authentication middleware.
    pub fn use_authentication(&mut self, authentication_middleware: X)
        ensures
            final(self).address == old(self).address,
            appended(
                old(self).middleware@,
                final(self).middleware@,
                PipelineStage::Authentication(authentication_middleware),
            ),
    {
        self.add(PipelineStage::Authentication(authentication_middleware));
    }

    /// Adds authorization with `config`, which maps paths to the claim they require.
    pub fn use_authorization(&mut self, config: StringHashMap<String>)
        ensures
            final(self).address == old(self).address,
            appended(
                old(self).middleware@,
                final(self).middleware@,
                PipelineStage::Authorization(AuthorizationMiddleware { config }),
            ),
    {
        self.add(PipelineStage::Authorization(AuthorizationMiddleware { config }));
    }

    /// Adds logging.
    pub fn use_logging(&mut self)
        ensures
            final(self).address == old(self).address,
            appended(
                old(self).middleware@,
                final(self).middleware@,
                PipelineStage::Logging(LoggingMiddleware),
            ),
    {
        self.add(PipelineStage::Logging(LoggingMiddleware));
    }

    /// Adds routing by the `(method, path, handler)` triples of `routes`; a
    /// later triple overrides an earlier one for the same method and path.
    pub fn use_route(&mut self, routes: Vec<(&str, &str, H)>)
        ensures
            final(self).address == old(self).address,
            appends_one(old(self).middleware@, final(self).middleware@),
            *final(self).middleware@.last() matches PipelineStage::Route(m) && m.table()
                == route_map(routes@),
    {
        let middleware = RouteMiddleware::from_routes(routes);
        self.add(PipelineStage::Route(middleware));
    }

    /// Adds serving of the files under `directory`.
    pub fn use_serve_dir(&mut self, directory: &'static str)
        ensures
            final(self).address == old(self).address,
            appends_one(old(self).middleware@, final(self).middleware@),
            *final(self).middleware@.last() matches PipelineStage::ServeDir(m)
                && m.directory_path@ == directory@,
    {
        self.add(PipelineStage::ServeDir(ServeDirMiddleware { directory_path: directory.to_owned() }));
    }
}

/// A `GET` route for `path`, answered by a plain function.
pub fn map_get<'a, C, A>(path: &'a str, handler: C) -> (r: (&'a str, &'a str, RouteHandler<C, A>))
    ensures
        r.0@ == "GET"@,
        r.1 == path,
        r.2 == RouteHandler::<C, A>::Closure(handler),
{
    ("GET", path, RouteHandler::Closure(handler))
}

/// A `GET` route for `path`, answered by an asynchronous handler.
pub fn map_get_handler<'a, C, A>(path: &'a str, handler: A) -> (r: (
    &'a str,
    &'a str,
    RouteHandler<C, A>,
))
    ensures
        r.0@ == "GET"@,
        r.1 == path,
        r.2 == RouteHandler::<C, A>::AsyncHandler(handler),
{
    ("GET", path, RouteHandler::AsyncHandler(handler))
}

} // verus!
