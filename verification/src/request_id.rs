//! A per-request identifier carried as a named extension value.
//!
//! The middleware half that draws a fresh random identifier is outside
//! work; the core's verified half stamps a given identifier onto the
//! request and reads it back.

use vstd::prelude::*;
use crate::params::lookup;
use crate::request::Request;

verus! {

/// The extension name the request identifier is stored under.
pub open spec fn request_id_key() -> Seq<char> {
    "request-id"@
}

/// The extension name the request identifier is stored under, as a string.
pub fn request_id_key_str() -> (s: &'static str)
    ensures
        s@ == request_id_key(),
{
    "request-id"
}

/// Reads and stamps the per-request identifier.
pub struct RequestId;

impl RequestId {
    /// The identifier stamped onto this request, if any.
    pub fn get<'a>(req: &'a Request) -> (r: Option<&'a String>)
        ensures
            match r {
                None => lookup(req.extensions@, request_id_key()) is None,
                Some(v) => lookup(req.extensions@, request_id_key()) == Some(v@),
            },
    {
        req.get_extension(request_id_key_str())
    }

    /// Stamps `id` onto the request, shadowing any earlier identifier.
    pub fn apply(req: &mut Request, id: String)
        ensures
            final(req).extensions@ == old(req).extensions@.push((request_id_key(), id@)),
            final(req).method == old(req).method,
            final(req).path == old(req).path,
            final(req).params == old(req).params,
            final(req).remote_addr == old(req).remote_addr,
    {
        req.insert_extension(request_id_key_str().to_owned(), id)
    }
}

/// A request identifier as a value of its own.
pub struct RequestIdValue {
    pub value: String,
}

impl RequestIdValue {
    pub fn new(value: String) -> (r: RequestIdValue)
        ensures
            r.value == value,
    {
        RequestIdValue { value }
    }
}

} // verus!
