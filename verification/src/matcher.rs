//! The compiled lookup structure: registered patterns with bound values.
//!
//! `find` resolves a concrete path against every registered pattern.  Among
//! the patterns that match, the winner is the one whose kind sequence is
//! smallest in lexicographic order — at each depth a literal beats a named
//! capture beats a remainder capture — and among patterns of equal kinds
//! the one registered first.

use vstd::prelude::*;
use crate::errors::Error;
use crate::params::ParamSet;
use crate::paths::path_segs;
use crate::paths::split_path;
use crate::pattern::SegV;
use crate::pattern::Segment;
use crate::pattern::kinds;
use crate::pattern::kinds_lt;
use crate::pattern::lemma_kinds_lt_irrefl;
use crate::pattern::lemma_kinds_lt_total;
use crate::pattern::lemma_kinds_lt_trans;
use crate::pattern::match_pat;
use crate::pattern::parse_pattern;
use crate::pattern::parsed_pattern;
use crate::pattern::pat_captures;
use crate::pattern::pat_lt;
use crate::pattern::pat_matches;
use crate::pattern::pattern_ok;

verus! {

/// Registered patterns, each bound to a value.
pub struct PathMatcher<V> {
    entries: Vec<(Vec<Segment>, V)>,
}

/// Index `i` names the winning entry for `segs` among `pats`: it matches,
/// no other matching pattern has a smaller kind sequence, and among equal
/// kind sequences it is the earliest registered.
pub open spec fn is_winner(pats: Seq<Seq<SegV>>, segs: Seq<Seq<char>>, i: int) -> bool {
    &&& 0 <= i < pats.len()
    &&& pat_matches(pats[i], segs)
    &&& forall|j: int|
        0 <= j < pats.len() && #[trigger] pat_matches(pats[j], segs) ==> !kinds_lt(
            kinds(pats[j]),
            kinds(pats[i]),
        ) && (!kinds_lt(kinds(pats[i]), kinds(pats[j])) ==> i <= j)
}

/// At most one index wins.
pub proof fn lemma_winner_unique(pats: Seq<Seq<SegV>>, segs: Seq<Seq<char>>, i: int, j: int)
    requires
        is_winner(pats, segs, i),
        is_winner(pats, segs, j),
    ensures
        i == j,
{
}

/// A pattern that alone matches the path wins.
pub proof fn lemma_sole_match_wins(pats: Seq<Seq<SegV>>, segs: Seq<Seq<char>>, i: int)
    requires
        0 <= i < pats.len(),
        pat_matches(pats[i], segs),
        forall|j: int|
            0 <= j < pats.len() && j != i ==> !pat_matches(#[trigger] pats[j], segs),
    ensures
        is_winner(pats, segs, i),
{
    lemma_kinds_lt_irrefl(kinds(pats[i]));
}

/// For every registered all-literal path, dispatching that exact path
/// selects that registration: the literal pattern matches and beats every
/// other matching pattern, so it is the winner — provided no earlier
/// registration spelt the identical pattern (which registration prevents:
/// one table per path).
pub proof fn lemma_literal_wins(pats: Seq<Seq<SegV>>, segs: Seq<Seq<char>>, i: int)
    requires
        0 <= i < pats.len(),
        pats[i] == crate::pattern::literal_pattern(segs),
        forall|j: int| 0 <= j < i ==> #[trigger] pats[j] != pats[i],
    ensures
        is_winner(pats, segs, i),
{
    crate::pattern::lemma_literal_matches(segs);
    assert forall|j: int|
        0 <= j < pats.len() && #[trigger] pat_matches(pats[j], segs) implies !kinds_lt(
        kinds(pats[j]),
        kinds(pats[i]),
    ) && (!kinds_lt(kinds(pats[i]), kinds(pats[j])) ==> i <= j) by {
        crate::pattern::lemma_literal_minimal(pats[j], segs);
        if !kinds_lt(kinds(pats[i]), kinds(pats[j])) && j < i {
            assert(pats[j] == pats[i]);
        }
    }
}

impl<V> PathMatcher<V> {
    /// The registered patterns, in registration order.
    pub closed spec fn pats(&self) -> Seq<Seq<SegV>> {
        self.entries@.map_values(|e: (Vec<Segment>, V)| e.0@.map_values(|s: Segment| s@))
    }

    /// The bound values, in registration order.
    pub closed spec fn vals(&self) -> Seq<V> {
        self.entries@.map_values(|e: (Vec<Segment>, V)| e.1)
    }

    /// An empty matcher.
    pub fn new() -> (r: PathMatcher<V>)
        ensures
            r.pats() == Seq::<Seq<SegV>>::empty(),
            r.vals() == Seq::<V>::empty(),
    {
        let r = PathMatcher { entries: Vec::new() };
        proof {
            assert(r.pats() =~= Seq::<Seq<SegV>>::empty());
            assert(r.vals() =~= Seq::<V>::empty());
        }
        r
    }

    /// Adds an already-parsed pattern.
    pub fn add(&mut self, pat: Vec<Segment>, value: V)
        ensures
            final(self).pats() == old(self).pats().push(pat@.map_values(|s: Segment| s@)),
            final(self).vals() == old(self).vals().push(value),
    {
        let ghost p = pat@.map_values(|s: Segment| s@);
        let ghost prev_p = self.pats();
        let ghost prev_v = self.vals();
        self.entries.push((pat, value));
        proof {
            assert(self.pats() =~= prev_p.push(p));
            assert(self.vals() =~= prev_v.push(value));
        }
    }

    /// Parses and registers a pattern; a malformed pattern fails at once
    /// with a configuration error and leaves the matcher unchanged.
    pub fn register(&mut self, pattern: &str, value: V) -> (r: Result<(), Error>)
        ensures
            match r {
                Ok(()) => {
                    &&& pattern_ok(path_segs(pattern@))
                    &&& final(self).pats() == old(self).pats().push(
                        parsed_pattern(path_segs(pattern@)),
                    )
                    &&& final(self).vals() == old(self).vals().push(value)
                },
                Err(e) => {
                    &&& !pattern_ok(path_segs(pattern@))
                    &&& e matches Error::Message(_)
                    &&& *final(self) == *old(self)
                },
            },
    {
        match parse_pattern(pattern) {
            Ok(pat) => {
                self.add(pat, value);
                Ok(())
            },
            Err(e) => Err(e),
        }
    }

    /// Resolves a concrete path: `None` exactly when no pattern matches;
    /// otherwise the winning entry's value together with its captures.
    pub fn find<'a>(&'a self, path: &str) -> (r: Option<(&'a V, ParamSet)>)
        ensures
            ({
                let segs = path_segs(path@);
                match r {
                    None => forall|j: int|
                        0 <= j < self.pats().len() ==> !pat_matches(#[trigger] self.pats()[j], segs),
                    Some((v, ps)) => exists|i: int|
                        {
                            &&& #[trigger] is_winner(self.pats(), segs, i)
                            &&& *v == self.vals()[i]
                            &&& ps@ == pat_captures(self.pats()[i], segs)
                        },
                }
            }),
    {
        let segs = split_path(path);
        let ghost g = segs@.map_values(|t: String| t@);
        let ghost pats = self.pats();
        let mut best: Option<(usize, ParamSet)> = None;
        let mut idx: usize = 0;
        while idx < self.entries.len()
            invariant
                idx <= self.entries@.len(),
                pats == self.pats(),
                pats.len() == self.entries@.len(),
                g == segs@.map_values(|t: String| t@),
                g == path_segs(path@),
                forall|j: int|
                    0 <= j < self.entries@.len() ==> #[trigger] pats[j]
                        == self.entries@[j].0@.map_values(|s: Segment| s@),
                best is None ==> forall|j: int| 0 <= j < idx ==> !pat_matches(#[trigger] pats[j], g),
                best matches Some(pair) ==> {
                    &&& pair.0 < idx
                    &&& pat_matches(pats[pair.0 as int], g)
                    &&& pair.1@ == pat_captures(pats[pair.0 as int], g)
                    &&& forall|j: int|
                        0 <= j < idx && #[trigger] pat_matches(pats[j], g) ==> !kinds_lt(
                            kinds(pats[j]),
                            kinds(pats[pair.0 as int]),
                        ) && (!kinds_lt(kinds(pats[pair.0 as int]), kinds(pats[j])) ==> pair.0 <= j)
                },
            decreases self.entries@.len() - idx,
        {
            proof {
                assert(pats[idx as int] == self.entries@[idx as int].0@.map_values(
                    |s: Segment| s@,
                ));
            }
            let m = match_pat(&self.entries[idx].0, &segs);
            match m {
                Some(ps2) => {
                    let replace: bool = match &best {
                        None => true,
                        Some((bi, _)) => pat_lt(&self.entries[idx].0, &self.entries[*bi].0),
                    };
                    if replace {
                        proof {
                            lemma_kinds_lt_irrefl(kinds(pats[idx as int]));
                            if let Some((bi, _)) = best {
                                let kb = kinds(pats[bi as int]);
                                let kn = kinds(pats[idx as int]);
                                assert forall|j: int|
                                    0 <= j < idx && #[trigger] pat_matches(pats[j], g) implies
                                    kinds_lt(kn, kinds(pats[j])) && !kinds_lt(kinds(pats[j]), kn)
                                    by {
                                    let kj = kinds(pats[j]);
                                    if kinds_lt(kj, kb) {
                                        assert(false);
                                    } else if kinds_lt(kb, kj) {
                                        lemma_kinds_lt_trans(kn, kb, kj);
                                    } else {
                                        lemma_kinds_lt_total(kb, kj);
                                    }
                                    if kinds_lt(kj, kn) {
                                        lemma_kinds_lt_trans(kn, kj, kn);
                                        lemma_kinds_lt_irrefl(kn);
                                    }
                                }
                            }
                        }
                        best = Some((idx, ps2));
                    }
                },
                None => {},
            }
            idx = idx + 1;
        }
        match best {
            None => None,
            Some((bi, ps)) => {
                proof {
                    assert(is_winner(pats, g, bi as int));
                }
                Some((&self.entries[bi].1, ps))
            },
        }
    }
}

} // verus!
