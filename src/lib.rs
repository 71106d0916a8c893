//! A small web framework core: a path-template router with first-match-wins
//! precedence, an onion-ordered middleware chain, and the built-in middleware
//! decisions (CORS, rate limiting, authentication guard), all with verified
//! contracts.
use vstd::prelude::*;

pub mod app;
pub mod assets;
pub mod auth;
pub mod chain;
pub mod compression;
pub mod config;
pub mod forms;
pub mod html;
pub mod http;
pub mod middleware;
pub mod pattern;
pub mod renderer;
pub mod request;
pub mod router;
pub mod static_files;
pub mod template;
pub mod text;
pub mod text_map;
pub mod upload;

verus! {

} // verus!
