//! A greeting.

use vstd::prelude::*;
use vstd::string::*;
use vstd::hash_map::StringHashMap;
use crate::context::{ServerContext, ServerHttpResponse, ServerHttpResponseContent};

verus! {

/// Answers every request with `henlo shibe`.
pub struct HenloMiddleware;

impl HenloMiddleware {
    /// Answers the request with the `200` `text/plain` greeting `henlo shibe`.
    pub fn action(&self, context: &mut ServerContext)
        ensures
            final(context).raw_message == old(context).raw_message,
            final(context).request == old(context).request,
            final(context).user == old(context).user,
            final(context).response matches Some(r) && {
                &&& r.code == 200
                &&& r.content matches ServerHttpResponseContent::Text(t) && t@ == "henlo shibe"@
                &&& r.content_length == 11
                &&& r.content_type@ == "text/plain"@
                &&& r.headers@ == Map::<Seq<char>, String>::empty()
            },
    {
        let message = "henlo shibe".to_owned();
        proof {
            reveal_strlit("henlo shibe");
        }
        let length = message.as_str().len() as i32;
        assert(length == 11) by {
            vstd::utf8::is_ascii_chars_encode_utf8(message@);
        }
        context.response = Some(
            ServerHttpResponse {
                code: 200,
                content_length: length,
                content: ServerHttpResponseContent::Text(message),
                content_type: "text/plain".to_owned(),
                headers: StringHashMap::new(),
            },
        );
    }
}

} // verus!
