//! A small embeddable HTTP/1.1 server core: request parsing, header sets,
//! routing, response serialisation and static-path confinement.
use vstd::prelude::*;

pub mod status;
pub mod text;
pub mod headers;
pub mod req;
pub mod res;
pub mod handlers;
pub mod server;
