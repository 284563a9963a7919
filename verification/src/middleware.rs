//! Middleware: ordered, composable capabilities that wrap endpoint
//! execution with pre- and post-logic and may short-circuit.
//!
//! The chain's execution model is the onion: for middlewares registered in
//! order, entry order is registration order, exit order is the reverse,
//! interleaved around the single terminal call; a middleware that never
//! invokes its continuation keeps the terminal and everything after it from
//! running.  `run_scripted` is that model made executable over middleware
//! behaviours written as data, and the laws below are proved of it; real
//! middlewares drive the same cursor through `Next::step`.

use vstd::prelude::*;
use crate::request::Request;
use crate::request::Response;
use crate::router::Next;

verus! {

/// The terminal capability: consume a request, produce a response — on
/// every path, including failure paths.
pub trait Endpoint {
    fn call(&self, req: Request) -> Response;
}

/// A middleware: receives the request and the continuation over the rest
/// of the chain, and has full discretion over whether and when to invoke
/// that continuation.
pub trait Middleware<H, M> {
    fn handle(&self, req: Request, next: Next<'_, H, M>) -> Response;
}

/// An endpoint answering every request with one fixed status.
pub struct StatusEndpoint {
    pub status: u16,
}

impl Endpoint for StatusEndpoint {
    fn call(&self, _req: Request) -> (r: Response)
        ensures
            r.status == self.status,
    {
        Response::from_status(self.status)
    }
}

/// One middleware behaviour written as data: it logs its entry and then
/// either short-circuits with its own status, or passes the request on and
/// logs its exit once the rest of the chain has answered.
#[derive(Clone, Copy, Debug)]
pub struct Scripted {
    pub label: u64,
    pub halt: Option<u16>,
}

/// One observed step of a chain execution.
#[derive(PartialEq, Eq, Clone, Copy, Debug)]
pub enum Event {
    Enter(u64),
    Terminal,
    Exit(u64),
}

/// The event trace one request's execution writes.
pub open spec fn chain_events(mids: Seq<Scripted>) -> Seq<Event>
    decreases mids.len(),
{
    if mids.len() == 0 {
        seq![Event::Terminal]
    } else if mids[0].halt is Some {
        seq![Event::Enter(mids[0].label)]
    } else {
        seq![Event::Enter(mids[0].label)] + chain_events(mids.skip(1)) + seq![
            Event::Exit(mids[0].label),
        ]
    }
}

/// The status the chain answers with.
pub open spec fn chain_status(mids: Seq<Scripted>, terminal: u16) -> u16
    decreases mids.len(),
{
    if mids.len() == 0 {
        terminal
    } else if mids[0].halt is Some {
        mids[0].halt.unwrap()
    } else {
        chain_status(mids.skip(1), terminal)
    }
}

/// Runs the chain from position `from`: pop the first remaining
/// middleware, let it act, and either recurse over the tail or answer the
/// terminal status — exactly the shape `Next::step` hands a caller.
pub fn run_scripted(mids: &Vec<Scripted>, from: usize, terminal: u16, log: &mut Vec<Event>) -> (status:
    u16)
    requires
        from <= mids@.len(),
    ensures
        final(log)@ == old(log)@ + chain_events(mids@.skip(from as int)),
        status == chain_status(mids@.skip(from as int), terminal),
    decreases mids@.len() - from,
{
    let ghost tail = mids@.skip(from as int);
    let ghost log0 = log@;
    if from < mids.len() {
        proof {
            assert(tail[0] == mids@[from as int]);
            assert(tail.skip(1) =~= mids@.skip(from as int + 1));
        }
        let m = mids[from];
        log.push(Event::Enter(m.label));
        match m.halt {
            Some(code) => {
                proof {
                    assert(log@ =~= log0 + chain_events(tail));
                }
                code
            },
            None => {
                let st = run_scripted(mids, from + 1, terminal, log);
                log.push(Event::Exit(m.label));
                proof {
                    assert(log@ =~= log0 + chain_events(tail));
                }
                st
            },
        }
    } else {
        log.push(Event::Terminal);
        proof {
            assert(tail =~= Seq::<Scripted>::empty());
            assert(log@ =~= log0 + chain_events(tail));
        }
        terminal
    }
}

/// The onion law: when every middleware passes the request on, one
/// request's execution observes each middleware's entry in registration
/// order, then the terminal, then each middleware's exit in the reverse
/// order — and the terminal's answer comes back unchanged.
pub proof fn lemma_onion_order(mids: Seq<Scripted>, terminal: u16)
    requires
        forall|i: int| 0 <= i < mids.len() ==> (#[trigger] mids[i]).halt is None,
    ensures
        chain_events(mids).len() == 2 * mids.len() + 1,
        forall|i: int|
            0 <= i < mids.len() ==> chain_events(mids)[i] == Event::Enter(
                (#[trigger] mids[i]).label,
            ),
        chain_events(mids)[mids.len() as int] == Event::Terminal,
        forall|i: int|
            0 <= i < mids.len() ==> chain_events(mids)[mids.len() + 1 + i] == Event::Exit(
                (#[trigger] mids[mids.len() - 1 - i]).label,
            ),
        chain_status(mids, terminal) == terminal,
    decreases mids.len(),
{
    if mids.len() > 0 {
        lemma_onion_order(mids.skip(1), terminal);
        let e = chain_events(mids);
        let e1 = chain_events(mids.skip(1));
        let n = mids.len() as int;
        assert(e =~= seq![Event::Enter(mids[0].label)] + e1 + seq![Event::Exit(mids[0].label)]);
        assert forall|i: int| 0 <= i < n implies e[i] == Event::Enter(
            (#[trigger] mids[i]).label,
        ) by {
            if i > 0 {
                assert(e[i] == e1[i - 1]);
                assert(mids.skip(1)[i - 1] == mids[i]);
            }
        }
        assert(e[n] == e1[n - 1]);
        assert forall|i: int| 0 <= i < n implies e[n + 1 + i] == Event::Exit(
            (#[trigger] mids[n - 1 - i]).label,
        ) by {
            if i < n - 1 {
                assert(e[n + 1 + i] == e1[(n - 1) + 1 + i]);
                assert(mids.skip(1)[(n - 1) - 1 - i] == mids[n - 1 - i]);
            } else {
                assert(e[2 * n] == Event::Exit(mids[0].label));
            }
        }
    }
}

/// The short-circuit law: when the middleware at `k` is the first that
/// never invokes its continuation, the trace holds the entries up to and
/// including `k` and then only the exits of the middlewares before `k`, in
/// reverse order — the terminal and everything registered after `k` never
/// run — and the response is what that middleware itself returned.
pub proof fn lemma_short_circuit(mids: Seq<Scripted>, terminal: u16, k: int)
    requires
        0 <= k < mids.len(),
        mids[k].halt is Some,
        forall|i: int| 0 <= i < k ==> (#[trigger] mids[i]).halt is None,
    ensures
        chain_events(mids).len() == 2 * k + 1,
        forall|i: int|
            0 <= i <= k ==> chain_events(mids)[i] == Event::Enter((#[trigger] mids[i]).label),
        forall|i: int|
            0 <= i < k ==> chain_events(mids)[k + 1 + i] == Event::Exit(
                (#[trigger] mids[k - 1 - i]).label,
            ),
        forall|i: int| 0 <= i < chain_events(mids).len() ==> !((#[trigger] chain_events(
            mids,
        )[i]) is Terminal),
        chain_status(mids, terminal) == mids[k].halt.unwrap(),
    decreases k,
{
    let e = chain_events(mids);
    if k == 0 {
        assert(e =~= seq![Event::Enter(mids[0].label)]);
    } else {
        lemma_short_circuit(mids.skip(1), terminal, k - 1);
        let e1 = chain_events(mids.skip(1));
        assert(e =~= seq![Event::Enter(mids[0].label)] + e1 + seq![Event::Exit(mids[0].label)]);
        assert forall|i: int| 0 <= i <= k implies e[i] == Event::Enter(
            (#[trigger] mids[i]).label,
        ) by {
            if i > 0 {
                assert(e[i] == e1[i - 1]);
                assert(mids.skip(1)[i - 1] == mids[i]);
            }
        }
        assert forall|i: int| 0 <= i < k implies e[k + 1 + i] == Event::Exit(
            (#[trigger] mids[k - 1 - i]).label,
        ) by {
            if i < k - 1 {
                assert(e[k + 1 + i] == e1[(k - 1) + 1 + i]);
                assert(mids.skip(1)[(k - 1) - 1 - i] == mids[k - 1 - i]);
            } else {
                assert(e[2 * k] == Event::Exit(mids[0].label));
            }
        }
        assert forall|i: int| 0 <= i < e.len() implies !((#[trigger] e[i]) is Terminal) by {
            if 0 < i < e.len() - 1 {
                assert(e[i] == e1[i - 1]);
            }
        }
    }
}

} // verus!
