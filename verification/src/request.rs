//! The request and response values the routing core works on.
//!
//! Transport code constructs a `Request` from one decoded message and hands
//! it in; the core only ever reads the method, reads and rewrites the
//! working path, merges captured parameters, and reads or sets named
//! extension values.  A `Response` is what every handler and middleware
//! must produce on every path, including failure paths.

use vstd::prelude::*;
use crate::method::Method;
use crate::params::ParamSet;
use crate::params::lookup;

verus! {

/// One in-flight request, as the core sees it.
pub struct Request {
    /// The request method.
    pub method: Method,
    /// The working path: rewritten to the captured remainder when a request
    /// descends into a nested router.
    pub path: String,
    /// Parameters captured by pattern matching, merged at each router level.
    pub params: ParamSet,
    /// Named per-request extension values.
    pub extensions: ParamSet,
    /// The remote peer, as transport code reported it.
    pub remote_addr: Option<String>,
}

impl Request {
    /// A fresh request carrying no captures and no extensions.
    pub fn new(method: Method, path: String, remote_addr: Option<String>) -> (r: Request)
        ensures
            r.method == method,
            r.path == path,
            r.params@ == Seq::<(Seq<char>, Seq<char>)>::empty(),
            r.extensions@ == Seq::<(Seq<char>, Seq<char>)>::empty(),
            r.remote_addr == remote_addr,
    {
        Request { method, path, params: ParamSet::new(), extensions: ParamSet::new(), remote_addr }
    }

    pub fn method(&self) -> (m: Method)
        ensures
            m == self.method,
    {
        self.method
    }

    /// The working path this request is currently matched against.
    pub fn route_path(&self) -> (p: &String)
        ensures
            p == &self.path,
    {
        &self.path
    }

    /// Rewrites the working path; used when descending into a nested router.
    pub fn set_route_path(&mut self, path: String)
        ensures
            final(self).path == path,
            final(self).method == old(self).method,
            final(self).params == old(self).params,
            final(self).extensions == old(self).extensions,
            final(self).remote_addr == old(self).remote_addr,
    {
        self.path = path;
    }

    /// Appends freshly captured parameters after the ones already held.
    pub fn merge_params(&mut self, other: &ParamSet)
        ensures
            final(self).params@ == old(self).params@ + other@,
            final(self).path == old(self).path,
            final(self).method == old(self).method,
            final(self).extensions == old(self).extensions,
            final(self).remote_addr == old(self).remote_addr,
    {
        self.params.merge(other);
    }

    /// Reads one captured parameter; the binding added last wins.
    pub fn get_param<'a>(&'a self, name: &str) -> (r: Option<&'a String>)
        ensures
            match r {
                None => lookup(self.params@, name@) is None,
                Some(v) => lookup(self.params@, name@) == Some(v@),
            },
    {
        self.params.get(name)
    }

    /// Reads one named extension value.
    pub fn get_extension<'a>(&'a self, name: &str) -> (r: Option<&'a String>)
        ensures
            match r {
                None => lookup(self.extensions@, name@) is None,
                Some(v) => lookup(self.extensions@, name@) == Some(v@),
            },
    {
        self.extensions.get(name)
    }

    /// Sets one named extension value, shadowing an earlier one.
    pub fn insert_extension(&mut self, name: String, value: String)
        ensures
            final(self).extensions@ == old(self).extensions@.push((name@, value@)),
            final(self).path == old(self).path,
            final(self).method == old(self).method,
            final(self).params == old(self).params,
            final(self).remote_addr == old(self).remote_addr,
    {
        self.extensions.push(name, value);
    }
}

/// The status a handler answered with, plus its body bytes.
pub struct Response {
    pub status: u16,
    pub body: Vec<u8>,
}

impl Response {
    /// A bodiless response carrying just a status code.
    pub fn from_status(status: u16) -> (r: Response)
        ensures
            r.status == status,
            r.body@ == Seq::<u8>::empty(),
    {
        Response { status, body: Vec::new() }
    }

    /// A successful response carrying the given body.
    pub fn with_body(status: u16, body: Vec<u8>) -> (r: Response)
        ensures
            r.status == status,
            r.body == body,
    {
        Response { status, body }
    }

    pub fn duplicate(&self) -> (r: Response)
        ensures
            r.status == self.status,
            r.body@ == self.body@,
    {
        let mut body: Vec<u8> = Vec::new();
        let mut i: usize = 0;
        while i < self.body.len()
            invariant
                i <= self.body@.len(),
                body@ == self.body@.take(i as int),
            decreases self.body@.len() - i,
        {
            body.push(self.body[i]);
            i = i + 1;
        }
        proof {
            assert(self.body@.take(self.body@.len() as int) =~= self.body@);
        }
        Response { status: self.status, body }
    }
}

/// The built-in responder for a path no pattern matches.
pub fn not_found_endpoint() -> (r: Response)
    ensures
        r.status == 404,
        r.body@ == Seq::<u8>::empty(),
{
    Response::from_status(404)
}

/// The responder for a matched path whose method table lacks the request's
/// method.
pub fn method_not_allowed() -> (r: Response)
    ensures
        r.status == 405,
        r.body@ == Seq::<u8>::empty(),
{
    Response::from_status(405)
}

} // verus!
