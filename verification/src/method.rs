//! HTTP methods recognised for registration, plus the internal sentinel
//! that a nested-router binding answers to.

use vstd::prelude::*;

verus! {

/// An HTTP request method.
///
/// `Any` is the reserved sentinel used solely for nested-router bindings:
/// a merged sub-router matches every method and performs its own per-method
/// dispatch internally.  It is never accepted for direct registration.
#[derive(Clone, Copy, PartialEq, Eq, Structural, Debug)]
pub enum Method {
    Options,
    Get,
    Head,
    Post,
    Put,
    Delete,
    Trace,
    Connect,
    Patch,
    Any,
}

} // verus!
