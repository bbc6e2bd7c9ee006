//! Starting a server.

use vstd::prelude::*;
use std::collections::VecDeque;
use crate::server::builder::ServerBuilder;

verus! {

/// A builder for a server at `address`, with no middleware yet.
pub fn listen<X, H>(address: &str) -> (r: ServerBuilder<X, H>)
    ensures
        r.address@ == address@,
        r.middleware@ == Seq::<std::sync::Arc<crate::pipeline::PipelineStage<X, H>>>::empty(),
{
    ServerBuilder { address: address.to_owned(), middleware: VecDeque::new() }
}

} // verus!
