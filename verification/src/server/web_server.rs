//! A built server.

use vstd::prelude::*;
use crate::pipeline::MiddlewarePipeline;

verus! {

/// A server: the address it listens on and the pipeline each request goes through.
pub struct Server<X, H> {
    pub address: String,
    pub middleware: MiddlewarePipeline<X, H>,
}

} // verus!
