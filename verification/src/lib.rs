//! A minimal HTTP/1.x file server core: route patterns, request dispatch,
//! document-root confinement, response framing and the accept/drain state
//! machine, each with a machine-checked contract.

use vstd::prelude::*;

pub mod acceptor;
pub mod address;
pub mod path_guard;
pub mod request;
pub mod response;
pub mod route_params;
pub mod route_pattern;
pub mod router;
pub mod segments;

verus! {

/// Directory, relative to the working directory, that holds the served files.
pub const HTML_ROOT: &'static str = "html_root";

} // verus!
