//! Building a server: an address and a pipeline of middlewares.

pub mod app;
pub mod builder;
pub mod web_server;
