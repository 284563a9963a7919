//! Configuration-time errors of the routing core.
//!
//! Registration-time problems (an invalid merge prefix, a malformed path
//! pattern, a mutation after finalize) are fatal to the build phase and are
//! reported to the caller before the router is put into service; per-request
//! routing outcomes are never represented as errors.

use vstd::prelude::*;

verus! {

/// An error raised while building a router or reading a request.
#[derive(Debug)]
pub enum Error {
    /// A free-form configuration error message.
    Message(String),
    /// A request header was present but unusable.
    InvalidHeader { msg: String },
    /// The shared application state was requested but never installed.
    MissingAppState { msg: String },
    /// A captured path parameter was requested but never bound.
    MissingParam { msg: String },
    /// A cookie was requested but absent.
    MissingCookie { msg: String },
    /// A header was requested but absent.
    MissingHeader { msg: String },
    /// A captured parameter could not be converted to the requested type.
    InvalidParam { err: String, msg: String, expected: String },
}

pub fn invalid_params(err: String, msg: String, expected: String) -> (r: Error)
    ensures
        r == (Error::InvalidParam { err, msg, expected }),
{
    Error::InvalidParam { err, msg, expected }
}

pub fn invalid_header(msg: String) -> (r: Error)
    ensures
        r == (Error::InvalidHeader { msg }),
{
    Error::InvalidHeader { msg }
}

pub fn missing_app_state(msg: String) -> (r: Error)
    ensures
        r == (Error::MissingAppState { msg }),
{
    Error::MissingAppState { msg }
}

pub fn missing_param(msg: String) -> (r: Error)
    ensures
        r == (Error::MissingParam { msg }),
{
    Error::MissingParam { msg }
}

pub fn missing_cookie(msg: String) -> (r: Error)
    ensures
        r == (Error::MissingCookie { msg }),
{
    Error::MissingCookie { msg }
}

pub fn missing_header(msg: String) -> (r: Error)
    ensures
        r == (Error::MissingHeader { msg }),
{
    Error::MissingHeader { msg }
}

} // verus!
