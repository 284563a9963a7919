//! Captured path parameters.
//!
//! A `ParamSet` is an ordered mapping from parameter name to captured
//! string.  It is populated at match time, merged into the request, and
//! only read by handlers; when a name is bound twice, the binding added
//! last wins.

use vstd::prelude::*;
use crate::paths::str_eq;

verus! {

/// An ordered list of `(name, value)` captures.
pub struct ParamSet {
    items: Vec<(String, String)>,
}

impl View for ParamSet {
    type V = Seq<(Seq<char>, Seq<char>)>;

    closed spec fn view(&self) -> Seq<(Seq<char>, Seq<char>)> {
        self.items@.map_values(|p: (String, String)| (p.0@, p.1@))
    }
}

/// The value bound to `name`, the binding added last taking precedence.
pub open spec fn lookup(s: Seq<(Seq<char>, Seq<char>)>, name: Seq<char>) -> Option<Seq<char>>
    decreases s.len(),
{
    if s.len() == 0 {
        None
    } else if s.last().0 == name {
        Some(s.last().1)
    } else {
        lookup(s.drop_last(), name)
    }
}

impl ParamSet {
    /// An empty capture set.
    pub fn new() -> (r: ParamSet)
        ensures
            r@ == Seq::<(Seq<char>, Seq<char>)>::empty(),
    {
        let r = ParamSet { items: Vec::new() };
        proof {
            assert(r@ =~= Seq::<(Seq<char>, Seq<char>)>::empty());
        }
        r
    }

    pub fn len(&self) -> (n: usize)
        ensures
            n == self@.len(),
    {
        self.items.len()
    }

    /// Appends one binding; it shadows any earlier binding of the same name.
    pub fn push(&mut self, name: String, value: String)
        ensures
            final(self)@ == old(self)@.push((name@, value@)),
    {
        let ghost prev = self@;
        let ghost n = name@;
        let ghost v = value@;
        self.items.push((name, value));
        proof {
            assert(self@ =~= prev.push((n, v)));
        }
    }

    /// Looks a name up; the binding added last wins.
    pub fn get<'a>(&'a self, name: &str) -> (r: Option<&'a String>)
        ensures
            match r {
                None => lookup(self@, name@) is None,
                Some(v) => lookup(self@, name@) == Some(v@),
            },
    {
        let mut i: usize = self.items.len();
        proof {
            assert(self@.take(i as int) =~= self@);
        }
        while i > 0
            invariant
                i <= self.items.len(),
                self@ =~= self.items@.map_values(|p: (String, String)| (p.0@, p.1@)),
                lookup(self@, name@) == lookup(self@.take(i as int), name@),
            decreases i,
        {
            if str_eq(self.items[i - 1].0.as_str(), name) {
                proof {
                    assert(self@.take(i as int).last() == self@[i - 1]);
                }
                return Some(&self.items[i - 1].1);
            }
            proof {
                assert(self@.take(i as int).drop_last() =~= self@.take(i as int - 1));
            }
            i = i - 1;
        }
        proof {
            assert(self@.take(0) =~= Seq::<(Seq<char>, Seq<char>)>::empty());
        }
        None
    }

    /// Appends every binding of `other`, in order, after this set's own.
    pub fn merge(&mut self, other: &ParamSet)
        ensures
            final(self)@ == old(self)@ + other@,
    {
        let ghost base = old(self)@;
        let mut j: usize = 0;
        while j < other.items.len()
            invariant
                j <= other.items.len(),
                other@ =~= other.items@.map_values(|p: (String, String)| (p.0@, p.1@)),
                self@ =~= base + other@.take(j as int),
            decreases other.items.len() - j,
        {
            let ghost prev = self@;
            let name = other.items[j].0.clone();
            let value = other.items[j].1.clone();
            self.items.push((name, value));
            proof {
                assert(self@ =~= prev.push(other@[j as int]));
                assert(base + other@.take(j as int + 1) =~= (base + other@.take(j as int)).push(
                    other@[j as int],
                ));
            }
            j = j + 1;
        }
        proof {
            assert(other@.take(other@.len() as int) =~= other@);
        }
    }
}

} // verus!
