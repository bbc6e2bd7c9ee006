//! The middlewares a pipeline is made of. Each one decides, for the request at
//! hand, whether to answer it or pass it on; what happens between a middleware
//! and the next one (I/O, awaiting a service, calling a handler) is up to the
//! code that runs the pipeline.

pub mod http_parsing;
pub mod basic_authentication;
pub mod authorization;
pub mod serve_dir;
pub mod route;
pub mod error_not_found;
pub mod henlo;
pub mod logging;
