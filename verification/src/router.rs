//! The router: per-path method tables during registration, compiled into a
//! path matcher by `finalize`, an ordered middleware list, a not-found
//! handler, and the per-request dispatch decision.
//!
//! The router is generic over the handler value `H` and the middleware
//! value `M`: the core decides *which* handler and middlewares serve a
//! request; invoking them is the caller's business.  A nested router is
//! bound behind the same selection interface as a leaf handler, under a
//! remainder-capture pattern answering every method.

use vstd::prelude::*;
use vstd::string::StrSliceExecFns;
use crate::errors::Error;
use crate::matcher::PathMatcher;
use crate::matcher::is_winner;
use crate::method::Method;
use crate::params::ParamSet;
use crate::params::lookup;
use crate::paths::path_segs;
use crate::pattern::SegV;
use crate::pattern::Segment;
use crate::pattern::parse_pattern;
use crate::pattern::parsed_pattern;
use crate::pattern::pat_captures;
use crate::pattern::pat_matches;
use crate::pattern::pattern_ok;
use crate::request::Request;

verus! {

/// The reserved parameter name a remainder capture of a nested-router
/// binding is stored under; seeing it, `route` rewrites the working path.
pub open spec fn rest_key() -> Seq<char> {
    "--nested-router"@
}

/// The reserved remainder-capture parameter name, as a string.
pub fn rest_key_str() -> (s: &'static str)
    ensures
        s@ == rest_key(),
{
    "--nested-router"
}

/// What a compiled pattern is bound to: a per-method handler table for a
/// leaf path, or a whole finalized sub-router answering every method.
pub enum RouteTarget<H, M> {
    Table(Vec<(Method, H)>),
    Sub(Box<Router<H, M>>),
}

/// First index of `m` in the table, or `-1`.
pub open spec fn tab_idx<H>(tab: Seq<(Method, H)>, m: Method) -> int
    decreases tab.len(),
{
    if tab.len() == 0 {
        -1
    } else if tab[0].0 == m {
        0
    } else {
        let r = tab_idx(tab.skip(1), m);
        if r < 0 {
            -1
        } else {
            1 + r
        }
    }
}

/// The table after registering `h` under `m`: the existing entry is
/// replaced, a new method is appended.
pub open spec fn tab_set<H>(tab: Seq<(Method, H)>, m: Method, h: H) -> Seq<(Method, H)> {
    if tab_idx(tab, m) >= 0 {
        tab.update(tab_idx(tab, m), (m, h))
    } else {
        tab.push((m, h))
    }
}

/// `tab_idx` is the first index carrying `m`, and `-1` exactly when no
/// index does.
pub proof fn lemma_tab_idx_is<H>(tab: Seq<(Method, H)>, m: Method, k: int)
    requires
        0 <= k <= tab.len(),
        forall|j: int| 0 <= j < k ==> (#[trigger] tab[j]).0 != m,
        k < tab.len() ==> tab[k].0 == m,
    ensures
        k < tab.len() ==> tab_idx(tab, m) == k,
        k == tab.len() ==> tab_idx(tab, m) == -1,
    decreases k,
{
    if tab.len() > 0 && tab[0].0 != m {
        assert(forall|j: int| 0 <= j < k - 1 ==> (#[trigger] tab.skip(1)[j]).0 != m) by {
            assert(forall|j: int| 0 <= j < k - 1 ==> tab.skip(1)[j] == tab[j + 1]);
        }
        lemma_tab_idx_is(tab.skip(1), m, k - 1);
    }
}

/// One pending registration group: the path text, its parsed pattern, and
/// the per-method handler table registered under that text.
pub struct PendingEntry<H> {
    pub text: String,
    pub pat: Vec<Segment>,
    pub tab: Vec<(Method, H)>,
}

/// The model of one pending entry: path text, parsed pattern, table.
pub open spec fn pend_model<H>(e: PendingEntry<H>) -> (Seq<char>, Seq<SegV>, Seq<(Method, H)>) {
    (e.text@, e.pat@.map_values(|s: Segment| s@), e.tab@)
}

/// First index in the pending list whose path text is `text`, or `-1`.
pub open spec fn pend_idx<H>(pend: Seq<(Seq<char>, Seq<SegV>, Seq<(Method, H)>)>, text: Seq<char>) -> int
    decreases pend.len(),
{
    if pend.len() == 0 {
        -1
    } else if pend[0].0 == text {
        0
    } else {
        let r = pend_idx(pend.skip(1), text);
        if r < 0 {
            -1
        } else {
            1 + r
        }
    }
}

/// `pend_idx` is the first index carrying `text`, and `-1` exactly when no
/// index does.
pub proof fn lemma_pend_idx_is<H>(
    pend: Seq<(Seq<char>, Seq<SegV>, Seq<(Method, H)>)>,
    text: Seq<char>,
    k: int,
)
    requires
        0 <= k <= pend.len(),
        forall|j: int| 0 <= j < k ==> (#[trigger] pend[j]).0 != text,
        k < pend.len() ==> pend[k].0 == text,
    ensures
        k < pend.len() ==> pend_idx(pend, text) == k,
        k == pend.len() ==> pend_idx(pend, text) == -1,
    decreases k,
{
    if pend.len() > 0 && pend[0].0 != text {
        assert(forall|j: int| 0 <= j < k - 1 ==> (#[trigger] pend.skip(1)[j]).0 != text) by {
            assert(forall|j: int| 0 <= j < k - 1 ==> pend.skip(1)[j] == pend[j + 1]);
        }
        lemma_pend_idx_is(pend.skip(1), text, k - 1);
    }
}

/// The router.  Mutable while routes, middlewares and sub-routers are being
/// registered; `finalize` compiles the pending registrations and freezes
/// it, after which no registration call has any effect and dispatch is
/// read-only.
pub struct Router<H, M> {
    middlewares: Vec<M>,
    not_found: Option<H>,
    pending: Vec<PendingEntry<H>>,
    matcher: PathMatcher<RouteTarget<H, M>>,
    finalized: bool,
}

impl<H, M> Router<H, M> {
    /// The ordered middleware list.
    pub closed spec fn mids(&self) -> Seq<M> {
        self.middlewares@
    }

    /// The custom not-found handler, if one was installed.
    pub closed spec fn nf(&self) -> Option<H> {
        self.not_found
    }

    /// The pending (not yet compiled) registrations, in first-registration
    /// order: path text, parsed pattern, method table.
    pub closed spec fn pend(&self) -> Seq<(Seq<char>, Seq<SegV>, Seq<(Method, H)>)> {
        self.pending@.map_values(|e: PendingEntry<H>| pend_model(e))
    }

    /// The compiled patterns, in compilation order.
    pub closed spec fn compiled_pats(&self) -> Seq<Seq<SegV>> {
        self.matcher.pats()
    }

    /// The compiled targets, one per compiled pattern.
    pub closed spec fn compiled_tgts(&self) -> Seq<RouteTarget<H, M>> {
        self.matcher.vals()
    }

    /// Whether `finalize` has frozen this router.
    pub closed spec fn is_final(&self) -> bool {
        self.finalized
    }

    /// A new, empty, mutable router.
    pub fn new() -> (r: Router<H, M>)
        ensures
            r.mids() == Seq::<M>::empty(),
            r.nf() is None,
            r.pend() == Seq::<(Seq<char>, Seq<SegV>, Seq<(Method, H)>)>::empty(),
            r.compiled_pats() == Seq::<Seq<SegV>>::empty(),
            r.compiled_tgts() == Seq::<RouteTarget<H, M>>::empty(),
            !r.is_final(),
    {
        let r = Router {
            middlewares: Vec::new(),
            not_found: None,
            pending: Vec::new(),
            matcher: PathMatcher::new(),
            finalized: false,
        };
        proof {
            assert(r.pend() =~= Seq::<(Seq<char>, Seq<SegV>, Seq<(Method, H)>)>::empty());
        }
        r
    }

    /// Appends a middleware; the list's order is the order of these calls
    /// and is fixed once the router is finalized, after which the call has
    /// no effect.
    pub fn middleware(&mut self, m: M)
        ensures
            old(self).is_final() ==> *final(self) == *old(self),
            !old(self).is_final() ==> {
                &&& final(self).mids() == old(self).mids().push(m)
                &&& final(self).nf() == old(self).nf()
                &&& final(self).pend() == old(self).pend()
                &&& final(self).compiled_pats() == old(self).compiled_pats()
                &&& final(self).compiled_tgts() == old(self).compiled_tgts()
                &&& !final(self).is_final()
            },
    {
        if !self.finalized {
            self.middlewares.push(m);
        }
    }

    /// Installs a custom not-found handler in place of the built-in
    /// responder; no effect after finalize.
    pub fn set_not_found_handler(&mut self, ep: H)
        ensures
            old(self).is_final() ==> *final(self) == *old(self),
            !old(self).is_final() ==> {
                &&& final(self).nf() == Some(ep)
                &&& final(self).mids() == old(self).mids()
                &&& final(self).pend() == old(self).pend()
                &&& final(self).compiled_pats() == old(self).compiled_pats()
                &&& final(self).compiled_tgts() == old(self).compiled_tgts()
                &&& !final(self).is_final()
            },
    {
        if !self.finalized {
            self.not_found = Some(ep);
        }
    }

    /// Registers `ep` under `(method, path)`.  Each literal path owns one
    /// handler per method: re-registering the same pair replaces the old
    /// handler.  A malformed pattern, the reserved any-method sentinel, or
    /// a router already finalized is a configuration error, reported at
    /// once and leaving the router unchanged.
    #[verifier::loop_isolation(false)]
    pub fn register(&mut self, method: Method, path: &str, ep: H) -> (r: Result<(), Error>)
        ensures
            match r {
                Ok(()) => register_accepted(*old(self), *final(self), method, path@, ep),
                Err(e) => {
                    &&& old(self).is_final() || method == Method::Any || !pattern_ok(
                        path_segs(path@),
                    )
                    &&& e matches Error::Message(_)
                    &&& *final(self) == *old(self)
                },
            },
    {
        if self.finalized {
            return Err(Error::Message("router is already finalized".to_owned()));
        }
        if matches!(method, Method::Any) {
            return Err(
                Error::Message("the any-method sentinel is reserved for nested routers".to_owned()),
            );
        }
        let pat = match parse_pattern(path) {
            Ok(p) => p,
            Err(e) => {
                return Err(e);
            },
        };
        let ghost pend0 = self.pend();
        // look for an existing group for this exact path text
        let mut i: usize = 0;
        let n = self.pending.len();
        while i < n
            invariant
                n == self.pending@.len(),
                i <= n,
                pend0 == self.pend(),
                pend0.len() == n,
                self.mids() == old(self).mids(),
                self.nf() == old(self).nf(),
                self.compiled_pats() == old(self).compiled_pats(),
                self.compiled_tgts() == old(self).compiled_tgts(),
                !self.is_final(),
                forall|j: int| 0 <= j < i ==> (#[trigger] pend0[j]).0 != path@,
                forall|j: int|
                    0 <= j < n ==> #[trigger] pend0[j] == pend_model(self.pending@[j]),
            decreases n - i,
        {
            if crate::paths::str_eq(self.pending[i].text.as_str(), path) {
                proof {
                    lemma_pend_idx_is(pend0, path@, i as int);
                }
                // update the method table of the existing group in place
                let mut entry = self.pending.remove(i);
                let ghost tab0 = entry.tab@;
                let tn = entry.tab.len();
                let mut k: usize = 0;
                while k < tn && entry.tab[k].0 != method
                    invariant
                        tn == entry.tab@.len(),
                        k <= tn,
                        entry.tab@ == tab0,
                        forall|j: int| 0 <= j < k ==> (#[trigger] tab0[j]).0 != method,
                    decreases tn - k,
                {
                    k = k + 1;
                }
                proof {
                    lemma_tab_idx_is(tab0, method, k as int);
                }
                if k < tn {
                    entry.tab.remove(k);
                    entry.tab.insert(k, (method, ep));
                    proof {
                        assert(entry.tab@ =~= tab0.update(k as int, (method, ep)));
                    }
                } else {
                    entry.tab.push((method, ep));
                    proof {
                        assert(entry.tab@ =~= tab_set(tab0, method, ep));
                    }
                }
                self.pending.insert(i, entry);
                proof {
                    assert(self.pend() =~= pend0.update(
                        i as int,
                        (pend0[i as int].0, pend0[i as int].1, tab_set(tab0, method, ep)),
                    ));
                }
                return Ok(());
            }
            i = i + 1;
        }
        proof {
            lemma_pend_idx_is(pend0, path@, n as int);
        }
        let mut tab: Vec<(Method, H)> = Vec::new();
        tab.push((method, ep));
        proof {
            assert(tab@ =~= seq![(method, ep)]);
        }
        let entry = PendingEntry { text: path.to_owned(), pat, tab };
        self.pending.push(entry);
        proof {
            assert(self.pend() =~= pend0.push(
                (path@, parsed_pattern(path_segs(path@)), seq![(method, ep)]),
            ));
        }
        Ok(())
    }

    /// Compiles every pending registration into the matcher, in
    /// first-registration order after anything merged earlier, and freezes
    /// the router: the one-time transition from mutable registration to the
    /// immutable dispatch structure.
    #[verifier::loop_isolation(false)]
    pub fn finalize(self) -> (r: Router<H, M>)
        ensures
            finalize_rel(self, r),
    {
        let ghost pats0 = self.compiled_pats();
        let ghost tgts0 = self.compiled_tgts();
        let ghost pend0 = self.pend();
        let Router { middlewares, not_found, mut pending, mut matcher, finalized: _ } = self;
        while pending.len() > 0
            invariant
                pending@.map_values(|e: PendingEntry<H>| pend_model(e)) == pend0.skip(
                    pend0.len() - pending@.len(),
                ),
                pending@.len() <= pend0.len(),
                matcher.pats() == pats0 + pend0.take(pend0.len() - pending@.len()).map_values(
                    |e: (Seq<char>, Seq<SegV>, Seq<(Method, H)>)| e.1,
                ),
                matcher.vals().len() == tgts0.len() + pend0.len() - pending@.len(),
                forall|j: int| 0 <= j < tgts0.len() ==> matcher.vals()[j] == tgts0[j],
                forall|j: int|
                    0 <= j < pend0.len() - pending@.len() ==> tgt_is_table(
                        #[trigger] matcher.vals()[tgts0.len() + j],
                        pend0[j].2,
                    ),
            decreases pending@.len(),
        {
            let ghost d = pend0.len() - pending@.len();
            let ghost pv = pending@;
            let ghost rem = pending@.map_values(|e: PendingEntry<H>| pend_model(e));
            let e = pending.remove(0);
            proof {
                assert(pend_model(e) == rem[0]);
                assert(rem[0] == pend0[d]);
                assert(pending@ =~= pv.skip(1));
                assert forall|q: int| 0 <= q < pending@.len() implies pend_model(
                    #[trigger] pending@[q],
                ) == pend0[d + 1 + q] by {
                    assert(pending@[q] == pv[q + 1]);
                    assert(rem[q + 1] == pend_model(pv[q + 1]));
                    assert(rem[q + 1] == pend0.skip(d)[q + 1]);
                }
                assert(pending@.map_values(|x: PendingEntry<H>| pend_model(x)) =~= pend0.skip(
                    d + 1,
                ));
            }
            let ghost pats_before = matcher.pats();
            matcher.add(e.pat, RouteTarget::Table(e.tab));
            proof {
                assert(pend0.take(d + 1) =~= pend0.take(d).push(pend0[d]));
                assert(pats_before.push(pend0[d].1) =~= pats0 + pend0.take(d + 1).map_values(
                    |x: (Seq<char>, Seq<SegV>, Seq<(Method, H)>)| x.1,
                ));
            }
        }
        let r = Router { middlewares, not_found, pending, matcher, finalized: true };
        proof {
            assert(r.pend() =~= Seq::<(Seq<char>, Seq<SegV>, Seq<(Method, H)>)>::empty());
            assert(pend0.take(pend0.len() as int) =~= pend0);
            assert(r.compiled_pats() =~= pats0 + pend0.map_values(
                |x: (Seq<char>, Seq<SegV>, Seq<(Method, H)>)| x.1,
            ));
        }
        r
    }

    /// Validates the prefix framing, finalizes `sub` (one shot: the builder
    /// is consumed), and binds the finalized sub-router, as an opaque
    /// endpoint answering every method, under `prefix` plus a reserved
    /// remainder capture.
    #[verifier::loop_isolation(false)]
    pub fn merge(&mut self, prefix: &str, sub: Router<H, M>) -> (r: Result<(), Error>)
        ensures
            match r {
                Ok(()) => {
                    &&& !old(self).is_final()
                    &&& prefix_framed(prefix@)
                    &&& pattern_ok(path_segs(prefix@))
                    &&& !has_rest(parsed_pattern(path_segs(prefix@)))
                    &&& final(self).compiled_pats() == old(self).compiled_pats().push(
                        parsed_pattern(path_segs(prefix@)).push(SegV::Rest(rest_key())),
                    )
                    &&& final(self).compiled_tgts().len() == old(self).compiled_tgts().len() + 1
                    &&& forall|j: int|
                        0 <= j < old(self).compiled_tgts().len() ==> final(self).compiled_tgts()[j]
                            == old(self).compiled_tgts()[j]
                    &&& final(self).compiled_tgts().last() matches RouteTarget::Sub(b)
                        && finalize_rel(sub, *b)
                    &&& final(self).pend() == old(self).pend()
                    &&& final(self).mids() == old(self).mids()
                    &&& final(self).nf() == old(self).nf()
                    &&& !final(self).is_final()
                },
                Err(e) => {
                    &&& old(self).is_final() || !prefix_framed(prefix@) || !pattern_ok(
                        path_segs(prefix@),
                    ) || has_rest(parsed_pattern(path_segs(prefix@)))
                    &&& e matches Error::Message(_)
                    &&& *final(self) == *old(self)
                },
            },
    {
        if self.finalized {
            return Err(Error::Message("router is already finalized".to_owned()));
        }
        let n = prefix.unicode_len();
        if n == 0 || prefix.get_char(0) != '/' || prefix.get_char(n - 1) != '/' {
            return Err(
                Error::Message(
                    "merge nested route, prefix must be a path, start with / and end with /".to_owned(),
                ),
            );
        }
        let mut pat = match parse_pattern(prefix) {
            Ok(p) => p,
            Err(e) => {
                return Err(e);
            },
        };
        let ghost parsed = parsed_pattern(path_segs(prefix@));
        let m = pat.len();
        let mut j: usize = 0;
        while j < m
            invariant
                m == pat@.len(),
                j <= m,
                pat@.map_values(|s: Segment| s@) == parsed,
                forall|k: int| 0 <= k < j ==> !((#[trigger] parsed[k]) matches SegV::Rest(_)),
                *self == *old(self),
            decreases m - j,
        {
            if matches!(&pat[j], Segment::Rest(_)) {
                proof {
                    assert(parsed[j as int] matches SegV::Rest(_));
                }
                return Err(
                    Error::Message("merge prefix may not hold a remainder capture".to_owned()),
                );
            }
            j = j + 1;
        }
        let sub2 = sub.finalize();
        pat.push(Segment::Rest(rest_key_str().to_owned()));
        proof {
            assert(pat@.map_values(|s: Segment| s@) =~= parsed.push(SegV::Rest(rest_key())));
        }
        let ghost pats0 = self.compiled_pats();
        let ghost tgts0 = self.compiled_tgts();
        self.matcher.add(pat, RouteTarget::Sub(Box::new(sub2)));
        proof {
            assert(self.compiled_pats() =~= pats0.push(parsed.push(SegV::Rest(rest_key()))));
            assert(self.compiled_tgts().last() matches RouteTarget::Sub(b) && finalize_rel(
                sub,
                *b,
            ));
        }
        Ok(())
    }
}

/// The result of routing a URL: the selected target plus its captures.
pub enum Found<'a, H, M> {
    /// A registered handler for this exact method.
    Handler(&'a H, ParamSet),
    /// A merged sub-router; it answers every method itself.
    Nested(&'a Router<H, M>, ParamSet),
    /// No pattern matched, or the matched table is empty.
    NotFound,
    /// The path matched, but its non-empty table lacks this method.
    MethodNotAllowed,
}

/// What the middleware chain ends in once every middleware has passed the
/// request on.
pub enum Terminal<'a, H, M> {
    /// The selected registered handler.
    Handler(&'a H),
    /// The selected sub-router: dispatching to it is calling its own
    /// `route` on the rewritten request.
    Nested(&'a Router<H, M>),
    /// The custom not-found handler, or `None` for the built-in responder.
    NotFound(Option<&'a H>),
    /// The built-in method-not-allowed responder.
    MethodNotAllowed,
}

impl<'a, H, M> Clone for Terminal<'a, H, M> {
    fn clone(&self) -> (r: Self)
        ensures
            r == *self,
    {
        match self {
            Terminal::Handler(h) => Terminal::Handler(h),
            Terminal::Nested(s) => Terminal::Nested(s),
            Terminal::NotFound(o) => match o {
                Some(h) => Terminal::NotFound(Some(h)),
                None => Terminal::NotFound(None),
            },
            Terminal::MethodNotAllowed => Terminal::MethodNotAllowed,
        }
    }
}

/// The continuation: a cursor over the remaining middleware list plus the
/// terminal the chain ends in.  Constructed per request, never shared.
pub struct Next<'a, H, M> {
    mids: &'a Vec<M>,
    pos: usize,
    terminal: Terminal<'a, H, M>,
}

/// One step of the chain: either the first remaining middleware together
/// with the continuation over the tail, or the terminal.
pub enum NextStep<'a, H, M> {
    Middleware(&'a M, Next<'a, H, M>),
    Endpoint(Terminal<'a, H, M>),
}

impl<'a, H, M> Next<'a, H, M> {
    /// The middlewares this continuation still has to thread the request
    /// through, in execution order.
    pub closed spec fn remaining(&self) -> Seq<M> {
        self.mids@.skip(self.pos as int)
    }

    /// What the chain ends in.
    pub closed spec fn term(&self) -> Terminal<'a, H, M> {
        self.terminal
    }

    pub closed spec fn wf(&self) -> bool {
        self.pos <= self.mids@.len()
    }

    /// A continuation over a whole middleware list.
    pub fn new(mids: &'a Vec<M>, terminal: Terminal<'a, H, M>) -> (r: Next<'a, H, M>)
        ensures
            r.remaining() == mids@,
            r.term() == terminal,
            r.wf(),
    {
        let r = Next { mids, pos: 0, terminal };
        proof {
            assert(r.remaining() =~= mids@);
        }
        r
    }

    /// Consumes one middleware: the first remaining one, with a
    /// continuation over the tail — or the terminal when none remain.
    /// Entry order is registration order; a middleware that never invokes
    /// the continuation it is handed keeps everything after it from
    /// running.
    pub fn step(self) -> (r: NextStep<'a, H, M>)
        requires
            self.wf(),
        ensures
            match r {
                NextStep::Middleware(m, rest) => {
                    &&& self.remaining().len() > 0
                    &&& *m == self.remaining()[0]
                    &&& rest.remaining() == self.remaining().skip(1)
                    &&& rest.term() == self.term()
                    &&& rest.wf()
                },
                NextStep::Endpoint(t) => self.remaining().len() == 0 && t == self.term(),
            },
    {
        if self.pos < self.mids.len() {
            let m = &self.mids[self.pos];
            let rest = Next { mids: self.mids, pos: self.pos + 1, terminal: self.terminal };
            proof {
                assert(rest.remaining() =~= self.remaining().skip(1));
            }
            NextStep::Middleware(m, rest)
        } else {
            proof {
                assert(self.remaining().len() == 0);
            }
            NextStep::Endpoint(self.terminal)
        }
    }
}

/// A dispatch decision: the updated request (captures merged, working path
/// rewritten when a remainder was captured) and the continuation that
/// threads it through this router's own middleware list into the selected
/// terminal.
pub struct RoutePlan<'a, H, M> {
    pub request: Request,
    pub next: Next<'a, H, M>,
}

/// An optional handler reference, read back as an optional handler.
pub open spec fn opt_ref<H>(o: Option<&H>) -> Option<H> {
    match o {
        Some(h) => Some(*h),
        None => None,
    }
}

impl<H, M> Router<H, M> {
    /// Resolves a path and method against the compiled patterns.
    pub fn find<'a>(&'a self, path: &str, method: Method) -> (r: Found<'a, H, M>)
        ensures
            ({
                let segs = path_segs(path@);
                let pats = self.compiled_pats();
                &&& (forall|j: int| 0 <= j < pats.len() ==> !pat_matches(#[trigger] pats[j], segs))
                    ==> (r matches Found::NotFound)
                &&& forall|i: int|
                    #[trigger] is_winner(pats, segs, i) ==> (self.compiled_tgts()[i] matches
                    RouteTarget::Sub(b) ==> {
                        &&& r matches Found::Nested(sub, ps)
                        &&& *sub == *b
                        &&& ps@ == pat_captures(pats[i], segs)
                    })
                &&& forall|i: int|
                    #[trigger] is_winner(pats, segs, i) ==> (self.compiled_tgts()[i] matches
                    RouteTarget::Table(t) ==> {
                        &&& tab_idx(t@, method) >= 0 ==> {
                            &&& r matches Found::Handler(h, ps)
                            &&& *h == t@[tab_idx(t@, method)].1
                            &&& ps@ == pat_captures(pats[i], segs)
                        }
                        &&& tab_idx(t@, method) < 0 && t@.len() == 0 ==> (r matches Found::NotFound)
                        &&& tab_idx(t@, method) < 0 && t@.len() > 0 ==> (r matches
                        Found::MethodNotAllowed)
                    })
            }),
    {
        let ghost segs = path_segs(path@);
        let ghost pats = self.compiled_pats();
        match self.matcher.find(path) {
            None => Found::NotFound,
            Some((tgt, ps)) => {
                let ghost iw = choose|i: int|
                    {
                        &&& #[trigger] is_winner(pats, segs, i)
                        &&& *tgt == self.compiled_tgts()[i]
                        &&& ps@ == pat_captures(pats[i], segs)
                    };
                proof {
                    assert forall|i2: int| #[trigger] is_winner(pats, segs, i2) implies i2
                        == iw by {
                        crate::matcher::lemma_winner_unique(pats, segs, iw, i2);
                    }
                }
                match tgt {
                    RouteTarget::Sub(b) => Found::Nested(b, ps),
                    RouteTarget::Table(t) => {
                        let ghost tv = t@;
                        let tn = t.len();
                        let mut k: usize = 0;
                        while k < tn && t[k].0 != method
                            invariant
                                tn == tv.len(),
                                tv == t@,
                                k <= tn,
                                forall|j: int| 0 <= j < k ==> (#[trigger] tv[j]).0 != method,
                            decreases tn - k,
                        {
                            k = k + 1;
                        }
                        proof {
                            lemma_tab_idx_is(tv, method, k as int);
                        }
                        if k < tn {
                            Found::Handler(&t[k].1, ps)
                        } else if tn == 0 {
                            Found::NotFound
                        } else {
                            Found::MethodNotAllowed
                        }
                    },
                }
            },
        }
    }

    /// The full per-request dispatch decision: resolve the working path,
    /// merge the captured parameters into the request, rewrite the working
    /// path when a remainder was captured under the reserved name, and
    /// build the continuation over this router's middleware list and the
    /// selected terminal.  Dispatching a nested router repeats exactly this
    /// against the rewritten path, with the sub-router's own middleware
    /// list and not-found handler.
    #[verifier::loop_isolation(false)]
    pub fn route<'a>(&'a self, req: Request) -> (plan: RoutePlan<'a, H, M>)
        ensures
            plan.next.remaining() == self.mids(),
            plan.next.wf(),
            plan.request.method == req.method,
            plan.request.extensions == req.extensions,
            plan.request.remote_addr == req.remote_addr,
            ({
                let segs = path_segs(req.path@);
                let pats = self.compiled_pats();
                &&& (forall|j: int| 0 <= j < pats.len() ==> !pat_matches(#[trigger] pats[j], segs))
                    ==> {
                    &&& plan.next.term() matches Terminal::NotFound(o)
                    &&& opt_ref(o) == self.nf()
                    &&& plan.request.params@ == req.params@
                    &&& plan.request.path@ == req.path@
                }
                &&& forall|i: int|
                    #[trigger] is_winner(pats, segs, i) ==> (self.compiled_tgts()[i] matches
                    RouteTarget::Sub(b) ==> {
                        &&& plan.next.term() matches Terminal::Nested(sub)
                        &&& *sub == *b
                        &&& plan.request.params@ == req.params@ + pat_captures(pats[i], segs)
                        &&& rewritten(plan.request.path@, req.path@, pat_captures(pats[i], segs))
                    })
                &&& forall|i: int|
                    #[trigger] is_winner(pats, segs, i) ==> (self.compiled_tgts()[i] matches
                    RouteTarget::Table(t) ==> {
                        &&& tab_idx(t@, method_of(req)) >= 0 ==> ({
                            &&& plan.next.term() matches Terminal::Handler(h)
                            &&& *h == t@[tab_idx(t@, method_of(req))].1
                            &&& plan.request.params@ == req.params@ + pat_captures(pats[i], segs)
                            &&& rewritten(
                                plan.request.path@,
                                req.path@,
                                pat_captures(pats[i], segs),
                            )
                        })
                        &&& tab_idx(t@, method_of(req)) < 0 && t@.len() == 0 ==> ({
                            &&& plan.next.term() matches Terminal::NotFound(o)
                            &&& opt_ref(o) == self.nf()
                            &&& plan.request.params@ == req.params@
                            &&& plan.request.path@ == req.path@
                        })
                        &&& tab_idx(t@, method_of(req)) < 0 && t@.len() > 0 ==> ({
                            &&& plan.next.term() matches Terminal::MethodNotAllowed
                            &&& plan.request.params@ == req.params@
                            &&& plan.request.path@ == req.path@
                        })
                    })
            }),
    {
        let mut req = req;
        let method = req.method;
        let found = self.find(req.path.as_str(), method);
        let terminal: Terminal<'a, H, M>;
        match found {
            Found::Handler(h, ps) => {
                req.merge_params(&ps);
                match ps.get(rest_key_str()) {
                    Some(rest) => {
                        let new_path = rest.clone();
                        req.set_route_path(new_path);
                    },
                    None => {},
                }
                terminal = Terminal::Handler(h);
            },
            Found::Nested(sub, ps) => {
                req.merge_params(&ps);
                match ps.get(rest_key_str()) {
                    Some(rest) => {
                        let new_path = rest.clone();
                        req.set_route_path(new_path);
                    },
                    None => {},
                }
                terminal = Terminal::Nested(sub);
            },
            Found::NotFound => {
                terminal = Terminal::NotFound(
                    match &self.not_found {
                        Some(h) => Some(h),
                        None => None,
                    },
                );
            },
            Found::MethodNotAllowed => {
                terminal = Terminal::MethodNotAllowed;
            },
        }
        RoutePlan { request: req, next: Next::new(&self.middlewares, terminal) }
    }
}

/// The request method, for contracts.
pub open spec fn method_of(req: Request) -> Method {
    req.method
}

/// How `route` rewrites the working path: to the remainder captured under
/// the reserved name where one was captured, else left alone.
pub open spec fn rewritten(
    new_path: Seq<char>,
    old_path: Seq<char>,
    caps: Seq<(Seq<char>, Seq<char>)>,
) -> bool {
    match lookup(caps, rest_key()) {
        Some(rest) => new_path == rest,
        None => new_path == old_path,
    }
}

/// What a successful registration did: the router was still mutable, the
/// method was a real one, the pattern was well-formed, and the handler now
/// stands in the path's method table — replacing the old handler of the
/// same pair, or extending the table, or opening a new group for a new
/// path — with everything else untouched.
pub open spec fn register_accepted<H, M>(
    pre: Router<H, M>,
    post: Router<H, M>,
    method: Method,
    path: Seq<char>,
    ep: H,
) -> bool {
    &&& !pre.is_final()
    &&& method != Method::Any
    &&& pattern_ok(path_segs(path))
    &&& {
        let i = pend_idx(pre.pend(), path);
        if i >= 0 {
            post.pend() == pre.pend().update(
                i,
                (pre.pend()[i].0, pre.pend()[i].1, tab_set(pre.pend()[i].2, method, ep)),
            )
        } else {
            post.pend() == pre.pend().push((path, parsed_pattern(path_segs(path)), seq![(method, ep)]))
        }
    }
    &&& post.mids() == pre.mids()
    &&& post.nf() == pre.nf()
    &&& post.compiled_pats() == pre.compiled_pats()
    &&& post.compiled_tgts() == pre.compiled_tgts()
    &&& !post.is_final()
}

/// The framing `merge` demands of a prefix: it starts and ends with the
/// path separator.
pub open spec fn prefix_framed(s: Seq<char>) -> bool {
    s.len() > 0 && s[0] == '/' && s[s.len() - 1] == '/'
}

/// Whether a pattern holds a remainder capture anywhere.
pub open spec fn has_rest(p: Seq<SegV>) -> bool {
    exists|j: int| 0 <= j < p.len() && (#[trigger] p[j]) matches SegV::Rest(_)
}

/// `t` is a leaf method table with contents `tab`.
pub open spec fn tgt_is_table<H, M>(t: RouteTarget<H, M>, tab: Seq<(Method, H)>) -> bool {
    t matches RouteTarget::Table(v) && v@ == tab
}

/// How a finalized router's model relates to the builder it came from:
/// middlewares, not-found handler and earlier merges are kept; every
/// pending registration group is compiled, in order, to a leaf table; no
/// registration stays pending.
pub open spec fn finalize_rel<H, M>(b: Router<H, M>, a: Router<H, M>) -> bool {
    &&& a.is_final()
    &&& a.mids() == b.mids()
    &&& a.nf() == b.nf()
    &&& a.pend() == Seq::<(Seq<char>, Seq<SegV>, Seq<(Method, H)>)>::empty()
    &&& a.compiled_pats() == b.compiled_pats() + b.pend().map_values(
        |e: (Seq<char>, Seq<SegV>, Seq<(Method, H)>)| e.1,
    )
    &&& a.compiled_tgts().len() == b.compiled_tgts().len() + b.pend().len()
    &&& forall|j: int|
        0 <= j < b.compiled_tgts().len() ==> a.compiled_tgts()[j] == b.compiled_tgts()[j]
    &&& forall|j: int|
        0 <= j < b.pend().len() ==> tgt_is_table(
            #[trigger] a.compiled_tgts()[b.compiled_tgts().len() + j],
            b.pend()[j].2,
        )
}

/// Dispatching `prefix + rest` against a router holding a merged binding
/// at `i` — when nothing else matches — selects that binding, captures the
/// joined remainder under the reserved name, and the rewritten working
/// path splits back into exactly the remainder segments.  Since every
/// routing decision depends on a path only through its segments, the
/// sub-router then resolves the rewritten request exactly as it would
/// resolve the remainder path dispatched against it directly.
pub proof fn lemma_merged_dispatch(
    pats: Seq<Seq<SegV>>,
    pre: Seq<Seq<char>>,
    direct: Seq<char>,
    i: int,
)
    requires
        0 <= i < pats.len(),
        pats[i] == crate::pattern::literal_pattern(pre).push(SegV::Rest(rest_key())),
        forall|j: int|
            0 <= j < pats.len() && j != i ==> !pat_matches(
                #[trigger] pats[j],
                pre + path_segs(direct),
            ),
    ensures
        is_winner(pats, pre + path_segs(direct), i),
        lookup(pat_captures(pats[i], pre + path_segs(direct)), rest_key()) == Some(
            crate::paths::join_segs(path_segs(direct)),
        ),
        path_segs(crate::paths::join_segs(path_segs(direct))) == path_segs(direct),
{
    let rest = path_segs(direct);
    crate::paths::lemma_path_segs_wf(direct);
    crate::pattern::lemma_prefix_remainder(pre, rest, rest_key());
    crate::matcher::lemma_sole_match_wins(pats, pre + rest, i);
    let caps = pat_captures(pats[i], pre + rest);
    assert(caps.last() == (rest_key(), crate::paths::join_segs(rest)));
}

impl<H, M> Default for Router<H, M> {
    fn default() -> (r: Router<H, M>)
        ensures
            r.mids() == Seq::<M>::empty(),
            r.nf() is None,
            r.pend() == Seq::<(Seq<char>, Seq<SegV>, Seq<(Method, H)>)>::empty(),
            r.compiled_pats() == Seq::<Seq<SegV>>::empty(),
            r.compiled_tgts() == Seq::<RouteTarget<H, M>>::empty(),
            !r.is_final(),
    {
        Router::new()
    }
}

/// For every registered plain literal path, dispatching that exact path
/// selects that registration, with no captured parameters — the request
/// reaches the handler with its parameter store unchanged — provided no
/// earlier registration compiled to the identical pattern (one method
/// table per path text makes two such registrations one).  Together with
/// `route`'s contract, the handler registered for the request's method is
/// exactly the one that answers.
pub proof fn lemma_registered_literal_dispatch(pats: Seq<Seq<SegV>>, path: Seq<char>, i: int)
    requires
        0 <= i < pats.len(),
        pats[i] == parsed_pattern(path_segs(path)),
        forall|k: int|
            0 <= k < path_segs(path).len() ==> #[trigger] crate::pattern::plain_seg(
                path_segs(path)[k],
            ),
        forall|j: int| 0 <= j < i ==> #[trigger] pats[j] != pats[i],
    ensures
        is_winner(pats, path_segs(path), i),
        pat_captures(pats[i], path_segs(path)) == Seq::<(Seq<char>, Seq<char>)>::empty(),
{
    crate::pattern::lemma_plain_path_pattern(path_segs(path));
    crate::matcher::lemma_literal_wins(pats, path_segs(path), i);
    crate::pattern::lemma_literal_captures_nothing(path_segs(path));
}

/// Finalize is idempotent: finalizing an already-finalized router leaves
/// every part of the dispatch structure — compiled patterns, targets,
/// middleware order, not-found handler — exactly as it was, so repeated
/// calls cannot change any subsequent dispatch result.
pub proof fn lemma_finalize_idempotent<H, M>(r0: Router<H, M>, r1: Router<H, M>, r2: Router<H, M>)
    requires
        finalize_rel(r0, r1),
        finalize_rel(r1, r2),
    ensures
        r2.compiled_pats() == r1.compiled_pats(),
        r2.compiled_tgts() == r1.compiled_tgts(),
        r2.mids() == r1.mids(),
        r2.nf() == r1.nf(),
        r2.pend() == r1.pend(),
{
    assert(r2.compiled_pats() =~= r1.compiled_pats());
    assert(r2.compiled_tgts() =~= r1.compiled_tgts());
}

} // verus!
