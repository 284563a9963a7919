//! The application facade: a router plus the per-method registration
//! helpers.  Binding a listener, accepting connections and reading bytes
//! are transport work and live with the code that embeds this library; the
//! facade builds the router those connection tasks then share read-only.

use vstd::prelude::*;
use crate::errors::Error;
use crate::method::Method;
use crate::paths::path_segs;
use crate::pattern::SegV;
use crate::pattern::parsed_pattern;
use crate::pattern::pattern_ok;
use crate::router::Router;
use crate::router::RouteTarget;
use crate::router::finalize_rel;
use crate::router::has_rest;
use crate::router::prefix_framed;
use crate::router::register_accepted;
use crate::router::rest_key;

verus! {

/// An application being assembled: a mutable router behind the
/// registration helpers.
pub struct App<H, M> {
    router: Router<H, M>,
}

impl<H, M> App<H, M> {
    /// The router being assembled.
    pub closed spec fn inner(&self) -> Router<H, M> {
        self.router
    }

    pub fn new() -> (r: App<H, M>)
        ensures
            r.inner().mids() == Seq::<M>::empty(),
            r.inner().nf() is None,
            r.inner().pend() == Seq::<(Seq<char>, Seq<SegV>, Seq<(Method, H)>)>::empty(),
            r.inner().compiled_pats() == Seq::<Seq<SegV>>::empty(),
            r.inner().compiled_tgts() == Seq::<RouteTarget<H, M>>::empty(),
            !r.inner().is_final(),
    {
        App { router: Router::new() }
    }

    /// Registers `ep` under `(method, path)`.
    pub fn register(&mut self, method: Method, path: &str, ep: H) -> (r: Result<(), Error>)
        ensures
            match r {
                Ok(()) => register_accepted(
                    old(self).inner(),
                    final(self).inner(),
                    method,
                    path@,
                    ep,
                ),
                Err(e) => e matches Error::Message(_) && final(self).inner() == old(self).inner(),
            },
    {
        self.router.register(method, path, ep)
    }

    pub fn options(&mut self, path: &str, ep: H) -> (r: Result<(), Error>)
        ensures
            match r {
                Ok(()) => register_accepted(
                    old(self).inner(),
                    final(self).inner(),
                    Method::Options,
                    path@,
                    ep,
                ),
                Err(e) => e matches Error::Message(_) && final(self).inner() == old(self).inner(),
            },
    {
        self.router.register(Method::Options, path, ep)
    }

    pub fn get(&mut self, path: &str, ep: H) -> (r: Result<(), Error>)
        ensures
            match r {
                Ok(()) => register_accepted(
                    old(self).inner(),
                    final(self).inner(),
                    Method::Get,
                    path@,
                    ep,
                ),
                Err(e) => e matches Error::Message(_) && final(self).inner() == old(self).inner(),
            },
    {
        self.router.register(Method::Get, path, ep)
    }

    pub fn head(&mut self, path: &str, ep: H) -> (r: Result<(), Error>)
        ensures
            match r {
                Ok(()) => register_accepted(
                    old(self).inner(),
                    final(self).inner(),
                    Method::Head,
                    path@,
                    ep,
                ),
                Err(e) => e matches Error::Message(_) && final(self).inner() == old(self).inner(),
            },
    {
        self.router.register(Method::Head, path, ep)
    }

    pub fn post(&mut self, path: &str, ep: H) -> (r: Result<(), Error>)
        ensures
            match r {
                Ok(()) => register_accepted(
                    old(self).inner(),
                    final(self).inner(),
                    Method::Post,
                    path@,
                    ep,
                ),
                Err(e) => e matches Error::Message(_) && final(self).inner() == old(self).inner(),
            },
    {
        self.router.register(Method::Post, path, ep)
    }

    pub fn put(&mut self, path: &str, ep: H) -> (r: Result<(), Error>)
        ensures
            match r {
                Ok(()) => register_accepted(
                    old(self).inner(),
                    final(self).inner(),
                    Method::Put,
                    path@,
                    ep,
                ),
                Err(e) => e matches Error::Message(_) && final(self).inner() == old(self).inner(),
            },
    {
        self.router.register(Method::Put, path, ep)
    }

    pub fn delete(&mut self, path: &str, ep: H) -> (r: Result<(), Error>)
        ensures
            match r {
                Ok(()) => register_accepted(
                    old(self).inner(),
                    final(self).inner(),
                    Method::Delete,
                    path@,
                    ep,
                ),
                Err(e) => e matches Error::Message(_) && final(self).inner() == old(self).inner(),
            },
    {
        self.router.register(Method::Delete, path, ep)
    }

    pub fn trace(&mut self, path: &str, ep: H) -> (r: Result<(), Error>)
        ensures
            match r {
                Ok(()) => register_accepted(
                    old(self).inner(),
                    final(self).inner(),
                    Method::Trace,
                    path@,
                    ep,
                ),
                Err(e) => e matches Error::Message(_) && final(self).inner() == old(self).inner(),
            },
    {
        self.router.register(Method::Trace, path, ep)
    }

    pub fn connect(&mut self, path: &str, ep: H) -> (r: Result<(), Error>)
        ensures
            match r {
                Ok(()) => register_accepted(
                    old(self).inner(),
                    final(self).inner(),
                    Method::Connect,
                    path@,
                    ep,
                ),
                Err(e) => e matches Error::Message(_) && final(self).inner() == old(self).inner(),
            },
    {
        self.router.register(Method::Connect, path, ep)
    }

    pub fn patch(&mut self, path: &str, ep: H) -> (r: Result<(), Error>)
        ensures
            match r {
                Ok(()) => register_accepted(
                    old(self).inner(),
                    final(self).inner(),
                    Method::Patch,
                    path@,
                    ep,
                ),
                Err(e) => e matches Error::Message(_) && final(self).inner() == old(self).inner(),
            },
    {
        self.router.register(Method::Patch, path, ep)
    }

    /// Appends a middleware to the router's ordered list.
    pub fn middleware(&mut self, m: M)
        ensures
            old(self).inner().is_final() ==> final(self).inner() == old(self).inner(),
            !old(self).inner().is_final() ==> {
                &&& final(self).inner().mids() == old(self).inner().mids().push(m)
                &&& final(self).inner().nf() == old(self).inner().nf()
                &&& final(self).inner().pend() == old(self).inner().pend()
                &&& final(self).inner().compiled_pats() == old(self).inner().compiled_pats()
                &&& final(self).inner().compiled_tgts() == old(self).inner().compiled_tgts()
                &&& !final(self).inner().is_final()
            },
    {
        self.router.middleware(m)
    }

    /// Overrides the built-in not-found responder.
    pub fn handle_not_found(&mut self, ep: H)
        ensures
            old(self).inner().is_final() ==> final(self).inner() == old(self).inner(),
            !old(self).inner().is_final() ==> {
                &&& final(self).inner().nf() == Some(ep)
                &&& final(self).inner().mids() == old(self).inner().mids()
                &&& final(self).inner().pend() == old(self).inner().pend()
                &&& final(self).inner().compiled_pats() == old(self).inner().compiled_pats()
                &&& final(self).inner().compiled_tgts() == old(self).inner().compiled_tgts()
                &&& !final(self).inner().is_final()
            },
    {
        self.router.set_not_found_handler(ep)
    }

    /// Mounts a sub-router under a prefix.
    pub fn merge(&mut self, prefix: &str, router: Router<H, M>) -> (r: Result<(), Error>)
        ensures
            match r {
                Ok(()) => {
                    &&& !old(self).inner().is_final()
                    &&& prefix_framed(prefix@)
                    &&& pattern_ok(path_segs(prefix@))
                    &&& !has_rest(parsed_pattern(path_segs(prefix@)))
                    &&& final(self).inner().compiled_pats() == old(self).inner().compiled_pats().push(
                        parsed_pattern(path_segs(prefix@)).push(SegV::Rest(rest_key())),
                    )
                    &&& final(self).inner().compiled_tgts().len() == old(self).inner().compiled_tgts().len() + 1
                    &&& forall|j: int|
                        0 <= j < old(self).inner().compiled_tgts().len() ==> final(self).inner().compiled_tgts()[j] == old(self).inner().compiled_tgts()[j]
                    &&& final(self).inner().compiled_tgts().last() matches RouteTarget::Sub(b)
                        && finalize_rel(router, *b)
                    &&& final(self).inner().pend() == old(self).inner().pend()
                    &&& final(self).inner().mids() == old(self).inner().mids()
                    &&& final(self).inner().nf() == old(self).inner().nf()
                    &&& !final(self).inner().is_final()
                },
                Err(e) => e matches Error::Message(_) && final(self).inner() == old(self).inner(),
            },
    {
        self.router.merge(prefix, router)
    }

    /// Freezes the assembled router into the immutable dispatch structure
    /// the connection tasks share.
    pub fn finalize(self) -> (r: Router<H, M>)
        ensures
            finalize_rel(self.inner(), r),
    {
        self.router.finalize()
    }
}

impl<H, M> Default for App<H, M> {
    fn default() -> (r: App<H, M>)
        ensures
            r.inner().mids() == Seq::<M>::empty(),
            r.inner().nf() is None,
            r.inner().pend() == Seq::<(Seq<char>, Seq<SegV>, Seq<(Method, H)>)>::empty(),
            r.inner().compiled_pats() == Seq::<Seq<SegV>>::empty(),
            r.inner().compiled_tgts() == Seq::<RouteTarget<H, M>>::empty(),
            !r.inner().is_final(),
    {
        App::new()
    }
}

} // verus!
