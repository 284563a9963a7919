//! Request-dispatch core of a lightweight HTTP serving library: a
//! path-pattern router, an ordered short-circuiting middleware chain, and
//! composition of independently built sub-routers under a path prefix.
//!
//! The crate is pure routing logic: it decides, for a method and a path,
//! which handler runs, which parameters are captured, and in which order the
//! middleware wrap the terminal endpoint.  Transport, TLS and request
//! parsing live outside the core and hand it plain values.

pub mod errors;
pub mod matcher;
pub mod method;
pub mod middleware;
pub mod params;
pub mod paths;
pub mod pattern;
pub mod request;
pub mod request_id;
pub mod router;
pub mod server;

use vstd::prelude::*;

verus! {

/// Identifier this server reports about itself.
pub fn server_id() -> (r: &'static str)
    ensures
        r@ == "rok"@,
{
    "rok"
}

} // verus!
