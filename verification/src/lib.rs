//! A CORS-enabling HTTP proxy: the request routing, header rewriting and
//! CORS decoration rules, verified with Verus.

pub mod headers;
pub mod text;
pub mod target_url;
pub mod path;
pub mod error;
pub mod request;
pub mod client;
pub mod cors;
pub mod routes;
pub mod config;
pub mod laws;
