//! A small HTTP server built from a pipeline of middlewares: request parsing,
//! basic authentication, claim-based authorization, routing, static files and
//! logging. This crate holds the parts that decide: parsing, lookups, the
//! responses each middleware produces, and the order of the pipeline.

pub mod authentication;
pub mod codec;
pub mod context;
pub mod middleware;
pub mod pipeline;
pub mod server;
pub mod text;

pub use vstd::hash_map::StringHashMap;
pub use vstd::hash_set::StringHashSet;
