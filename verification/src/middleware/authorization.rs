//! Claim-based authorization: a path may require a claim, which the user must hold.

use vstd::prelude::*;
use vstd::hash_map::StringHashMap;
use crate::authentication::ServerUser;
use crate::context::{ServerContext, ServerHttpResponse};

verus! {

/// Maps paths to the claim a user must hold to reach them.
pub struct AuthorizationMiddleware {
    pub config: StringHashMap<String>,
}

impl AuthorizationMiddleware {
    /// The user of `context` may reach its path: the path requires no claim,
    /// or the user holds the claim it requires.
    pub open spec fn allows(self, context: ServerContext) -> bool {
        let path = context.request.path@;
        self.config@.contains_key(path) ==> context.user.holds_claim(self.config@[path]@)
    }

    /// What `authorize` does to a request state `before`, giving `after` and
    /// `proceed`: the request goes on untouched when the user may reach its
    /// path, and is otherwise answered with a bodyless `403`.
    pub open spec fn authorize_effect(self, before: ServerContext, after: ServerContext, proceed: bool) -> bool {
        &&& after.raw_message == before.raw_message
        &&& after.request == before.request
        &&& after.user == before.user
        &&& proceed == self.allows(before)
        &&& proceed ==> after.response == before.response
        &&& !proceed ==> (after.response matches Some(r) && r.is_bodyless(403))
    }

    /// Lets the request go on when the user may reach its path; otherwise
    /// answers it with `403` and stops the pipeline.
    pub fn authorize(&self, context: &mut ServerContext) -> (proceed: bool)
        ensures
            self.authorize_effect(*old(context), *final(context), proceed),
    {
        let required_claim = match self.config.get(context.request.path.as_str()) {
            None => {
                return true;
            },
            Some(claim) => claim,
        };
        let allowed = match &context.user {
            ServerUser::Anonymous => false,
            ServerUser::Authenticated { claims, .. } => claims.contains(required_claim.as_str()),
        };
        if !allowed {
            context.response = Some(ServerHttpResponse::from_code(403));
        }
        allowed
    }

    /// A request passes authorization, and the rest of the pipeline runs,
    /// exactly when its path requires no claim, or its user is authenticated
    /// and holds the claim the path requires; a request that does not pass is
    /// answered with `403`, and neither its request nor its user changes.
    pub proof fn law_authorization_gate(self, before: ServerContext, after: ServerContext, proceed: bool)
        requires
            self.authorize_effect(before, after, proceed),
        ensures
            proceed == (!self.config@.contains_key(before.request.path@) || (before.user matches ServerUser::Authenticated { claims, .. }
                && claims@.contains(self.config@[before.request.path@]@))),
            !proceed ==> (after.response matches Some(r) && r.code == 403),
            after.request == before.request,
            after.user == before.user,
    {
    }
}

} // verus!
