//! Who sent a request.

use vstd::prelude::*;
use vstd::hash_set::StringHashSet;

verus! {

/// The user on whose behalf a request is served.
pub enum ServerUser {
    /// No credentials were checked.
    Anonymous,
    /// Credentials were checked by an authentication service.
    Authenticated {
        id: String,
        email: Option<String>,
        /// The claims the user holds; authorization compares them with what a path requires.
        claims: StringHashSet,
    },
}

impl ServerUser {
    /// The user holds `claim`.
    pub open spec fn holds_claim(self, claim: Seq<char>) -> bool {
        match self {
            ServerUser::Anonymous => false,
            ServerUser::Authenticated { claims, .. } => claims@.contains(claim),
        }
    }
}

} // verus!
