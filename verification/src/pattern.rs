//! Registered path patterns.
//!
//! A pattern is a path whose segments are read as follows: a segment
//! beginning with `:` captures exactly one concrete segment under the rest
//! of its text as the parameter name; a segment beginning with `*` captures
//! everything from its depth onward, joined back into one path string, and
//! must stand last; any other segment matches itself literally.
//!
//! When several patterns match one path, at each depth a literal segment
//! takes precedence over a named capture, which takes precedence over a
//! remainder capture: the matching pattern whose kind sequence is smallest
//! in lexicographic order wins, and among equals the one registered first.

use vstd::prelude::*;
use vstd::string::StrSliceExecFns;
use vstd::string::StringExecFns;
use crate::params::ParamSet;
use crate::paths::join_from;
use crate::paths::join_segs;
use crate::paths::path_segs;
use crate::paths::str_eq;
use crate::errors::Error;

verus! {

/// One pattern segment.
pub enum Segment {
    /// Matches exactly this text.
    Literal(String),
    /// Matches any one segment, capturing it under this name.
    Param(String),
    /// Matches all remaining segments, capturing their joined form under
    /// this name; only valid as the last segment.
    Rest(String),
}

/// The mathematical form of a pattern segment.
pub enum SegV {
    Lit(Seq<char>),
    Par(Seq<char>),
    Rest(Seq<char>),
}

impl View for Segment {
    type V = SegV;

    open spec fn view(&self) -> SegV {
        match self {
            Segment::Literal(s) => SegV::Lit(s@),
            Segment::Param(s) => SegV::Par(s@),
            Segment::Rest(s) => SegV::Rest(s@),
        }
    }
}

/// How one pattern segment reads, or `None` where the text is malformed
/// (a capture marker with an empty name).
pub open spec fn spec_parse_seg(seg: Seq<char>) -> Option<SegV> {
    if seg.len() == 0 {
        None
    } else if seg[0] == ':' {
        if seg.len() == 1 {
            None
        } else {
            Some(SegV::Par(seg.skip(1)))
        }
    } else if seg[0] == '*' {
        if seg.len() == 1 {
            None
        } else {
            Some(SegV::Rest(seg.skip(1)))
        }
    } else {
        Some(SegV::Lit(seg))
    }
}

/// A well-formed pattern: every segment reads, and a remainder capture
/// stands only last.
pub open spec fn pattern_ok(segs: Seq<Seq<char>>) -> bool {
    &&& forall|i: int| 0 <= i < segs.len() ==> (#[trigger] spec_parse_seg(segs[i])) is Some
    &&& forall|i: int|
        0 <= i < segs.len() - 1 ==> !((#[trigger] spec_parse_seg(segs[i])) matches Some(
            SegV::Rest(_),
        ))
}

/// The parsed form of a well-formed pattern.
pub open spec fn parsed_pattern(segs: Seq<Seq<char>>) -> Seq<SegV> {
    segs.map_values(|g: Seq<char>| spec_parse_seg(g).unwrap())
}

/// Reads one pattern segment.
pub fn parse_seg(seg: &String) -> (r: Option<Segment>)
    ensures
        match r {
            None => spec_parse_seg(seg@) is None,
            Some(sv) => spec_parse_seg(seg@) == Some(sv@),
        },
{
    let n = seg.as_str().unicode_len();
    if n == 0 {
        return None;
    }
    let c0 = seg.as_str().get_char(0);
    if c0 == ':' {
        if n == 1 {
            None
        } else {
            let name = seg.as_str().substring_char(1, n).to_owned();
            proof {
                assert(name@ =~= seg@.skip(1));
            }
            Some(Segment::Param(name))
        }
    } else if c0 == '*' {
        if n == 1 {
            None
        } else {
            let name = seg.as_str().substring_char(1, n).to_owned();
            proof {
                assert(name@ =~= seg@.skip(1));
            }
            Some(Segment::Rest(name))
        }
    } else {
        Some(Segment::Literal(seg.clone()))
    }
}

/// Reads a whole pattern string; a malformed pattern is a configuration
/// error reported at once, never deferred to request time.
pub fn parse_pattern(pattern: &str) -> (r: Result<Vec<Segment>, Error>)
    ensures
        match r {
            Ok(p) => pattern_ok(path_segs(pattern@)) && p@.map_values(|s: Segment| s@)
                == parsed_pattern(path_segs(pattern@)),
            Err(e) => !pattern_ok(path_segs(pattern@)) && e matches Error::Message(_),
        },
{
    let segs = crate::paths::split_path(pattern);
    let ghost gs = segs@.map_values(|t: String| t@);
    let mut out: Vec<Segment> = Vec::new();
    let n = segs.len();
    let mut i: usize = 0;
    while i < n
        invariant
            n == segs@.len(),
            i <= n,
            gs == segs@.map_values(|t: String| t@),
            gs == path_segs(pattern@),
            out@.len() == i,
            forall|j: int| 0 <= j < i ==> (#[trigger] spec_parse_seg(gs[j])) is Some,
            forall|j: int|
                0 <= j < i ==> (#[trigger] out@[j])@ == spec_parse_seg(gs[j]).unwrap(),
            forall|j: int|
                0 <= j < i && j < n - 1 ==> !((#[trigger] spec_parse_seg(gs[j])) matches Some(
                    SegV::Rest(_),
                )),
        decreases n - i,
    {
        proof {
            assert(gs[i as int] == segs@[i as int]@);
        }
        match parse_seg(&segs[i]) {
            None => {
                proof {
                    assert(spec_parse_seg(gs[i as int]) is None);
                }
                return Err(Error::Message("malformed path pattern segment".to_owned()));
            },
            Some(sv) => {
                let is_rest = matches!(sv, Segment::Rest(_));
                if is_rest && i + 1 < n {
                    proof {
                        assert(spec_parse_seg(gs[i as int]) matches Some(SegV::Rest(_)));
                    }
                    return Err(
                        Error::Message("remainder capture must be the last segment".to_owned()),
                    );
                }
                out.push(sv);
            },
        }
        i = i + 1;
    }
    proof {
        assert(out@.map_values(|s: Segment| s@) =~= parsed_pattern(gs));
    }
    Ok(out)
}

/// Match priority of one segment kind: lower is stronger.
pub open spec fn seg_kind(v: SegV) -> int {
    match v {
        SegV::Lit(_) => 0,
        SegV::Par(_) => 1,
        SegV::Rest(_) => 2,
    }
}

/// The kind sequence of a pattern.
pub open spec fn kinds(pat: Seq<SegV>) -> Seq<int> {
    pat.map_values(|v: SegV| seg_kind(v))
}

/// Strict lexicographic order on kind sequences; a proper prefix comes
/// before its extensions.
pub open spec fn kinds_lt(a: Seq<int>, b: Seq<int>) -> bool
    decreases a.len(),
{
    if b.len() == 0 {
        false
    } else if a.len() == 0 {
        true
    } else if a[0] < b[0] {
        true
    } else if b[0] < a[0] {
        false
    } else {
        kinds_lt(a.skip(1), b.skip(1))
    }
}

pub proof fn lemma_kinds_lt_irrefl(a: Seq<int>)
    ensures
        !kinds_lt(a, a),
    decreases a.len(),
{
    if a.len() > 0 {
        lemma_kinds_lt_irrefl(a.skip(1));
    }
}

pub proof fn lemma_kinds_lt_trans(a: Seq<int>, b: Seq<int>, c: Seq<int>)
    requires
        kinds_lt(a, b),
        kinds_lt(b, c),
    ensures
        kinds_lt(a, c),
    decreases a.len(),
{
    if a.len() > 0 && b.len() > 0 && c.len() > 0 && a[0] == b[0] && b[0] == c[0] {
        lemma_kinds_lt_trans(a.skip(1), b.skip(1), c.skip(1));
    }
}

/// Two kind sequences neither of which precedes the other are equal.
pub proof fn lemma_kinds_lt_total(a: Seq<int>, b: Seq<int>)
    requires
        !kinds_lt(a, b),
        !kinds_lt(b, a),
    ensures
        a == b,
    decreases a.len(),
{
    if a.len() > 0 && b.len() > 0 {
        lemma_kinds_lt_total(a.skip(1), b.skip(1));
        assert(a =~= seq![a[0]] + a.skip(1));
        assert(b =~= seq![b[0]] + b.skip(1));
    } else {
        assert(a =~= b);
    }
}

/// Whether a pattern matches a segment sequence.
pub open spec fn pat_matches(pat: Seq<SegV>, segs: Seq<Seq<char>>) -> bool
    decreases pat.len(),
{
    if pat.len() == 0 {
        segs.len() == 0
    } else {
        match pat[0] {
            SegV::Lit(l) => segs.len() > 0 && segs[0] == l && pat_matches(
                pat.skip(1),
                segs.skip(1),
            ),
            SegV::Par(_) => segs.len() > 0 && pat_matches(pat.skip(1), segs.skip(1)),
            SegV::Rest(_) => true,
        }
    }
}

/// The parameters a matching pattern captures from a segment sequence, in
/// pattern order.
pub open spec fn pat_captures(pat: Seq<SegV>, segs: Seq<Seq<char>>) -> Seq<
    (Seq<char>, Seq<char>),
>
    decreases pat.len(),
{
    if pat.len() == 0 {
        Seq::empty()
    } else {
        match pat[0] {
            SegV::Lit(_) => pat_captures(pat.skip(1), segs.skip(1)),
            SegV::Par(name) => seq![(name, segs[0])] + pat_captures(pat.skip(1), segs.skip(1)),
            SegV::Rest(name) => seq![(name, join_segs(segs))],
        }
    }
}

/// The all-literal pattern spelled from a path's own segments.
pub open spec fn literal_pattern(segs: Seq<Seq<char>>) -> Seq<SegV> {
    segs.map_values(|g: Seq<char>| SegV::Lit(g))
}

/// A literal pattern matches its own path.
pub proof fn lemma_literal_matches(segs: Seq<Seq<char>>)
    ensures
        pat_matches(literal_pattern(segs), segs),
    decreases segs.len(),
{
    let p = literal_pattern(segs);
    if segs.len() > 0 {
        lemma_literal_matches(segs.skip(1));
        assert(p.skip(1) =~= literal_pattern(segs.skip(1)));
    }
}

/// Among the patterns matching a given path, the all-literal one is
/// strictly strongest: no other matching pattern has a kind sequence at or
/// below it.  This is why a registered literal path always beats captures.
pub proof fn lemma_literal_minimal(q: Seq<SegV>, segs: Seq<Seq<char>>)
    requires
        pat_matches(q, segs),
    ensures
        !kinds_lt(kinds(q), kinds(literal_pattern(segs))),
        !kinds_lt(kinds(literal_pattern(segs)), kinds(q)) ==> q == literal_pattern(segs),
    decreases q.len(),
{
    let p = literal_pattern(segs);
    let kq = kinds(q);
    let kp = kinds(p);
    if q.len() == 0 {
        assert(segs.len() == 0);
        assert(q =~= p);
    } else {
        match q[0] {
            SegV::Lit(l) => {
                lemma_literal_minimal(q.skip(1), segs.skip(1));
                assert(kq.skip(1) =~= kinds(q.skip(1)));
                assert(kp.skip(1) =~= kinds(literal_pattern(segs.skip(1))));
                assert(kq[0] == 0 && kp[0] == 0);
                if !kinds_lt(kp, kq) {
                    assert(q.skip(1) == literal_pattern(segs.skip(1)));
                    assert(q =~= p) by {
                        assert(p[0] == SegV::Lit(segs[0]));
                        assert(forall|k: int|
                            1 <= k < q.len() ==> q[k] == q.skip(1)[k - 1] && p[k]
                                == literal_pattern(segs.skip(1))[k - 1]);
                    }
                }
            },
            SegV::Par(_) => {
                assert(segs.len() > 0);
                assert(kq[0] == 1 && kp[0] == 0);
            },
            SegV::Rest(_) => {
                if segs.len() == 0 {
                    assert(kp.len() == 0);
                } else {
                    assert(kq[0] == 2 && kp[0] == 0);
                }
            },
        }
    }
}

/// A segment that reads as itself: non-empty and not opening a capture.
pub open spec fn plain_seg(seg: Seq<char>) -> bool {
    seg.len() > 0 && seg[0] != ':' && seg[0] != '*'
}

/// A path whose segments are all plain parses to its own literal pattern.
pub proof fn lemma_plain_path_pattern(segs: Seq<Seq<char>>)
    requires
        forall|k: int| 0 <= k < segs.len() ==> #[trigger] plain_seg(segs[k]),
    ensures
        pattern_ok(segs),
        parsed_pattern(segs) == literal_pattern(segs),
{
    assert forall|k: int| 0 <= k < segs.len() implies (#[trigger] spec_parse_seg(segs[k]))
        == Some(SegV::Lit(segs[k])) by {
        assert(plain_seg(segs[k]));
    }
    assert(parsed_pattern(segs) =~= literal_pattern(segs));
}

/// A literal pattern captures nothing.
pub proof fn lemma_literal_captures_nothing(segs: Seq<Seq<char>>)
    ensures
        pat_captures(literal_pattern(segs), segs) == Seq::<(Seq<char>, Seq<char>)>::empty(),
    decreases segs.len(),
{
    let p = literal_pattern(segs);
    if segs.len() > 0 {
        lemma_literal_captures_nothing(segs.skip(1));
        assert(p.skip(1) =~= literal_pattern(segs.skip(1)));
    }
}

/// A merged prefix binding — the prefix's own segments followed by a
/// remainder capture — matches every path below the prefix, captures
/// exactly the joined remainder under the capture's name, and re-splitting
/// that captured remainder yields the remainder segments unchanged.  This
/// is what makes dispatching `prefix + rest` through a merged sub-router
/// the same match the sub-router would see for `rest` directly.
pub proof fn lemma_prefix_remainder(pre: Seq<Seq<char>>, rest: Seq<Seq<char>>, name: Seq<char>)
    requires
        forall|k: int| 0 <= k < rest.len() ==> #[trigger] crate::paths::wf_seg(rest[k]),
    ensures
        pat_matches(literal_pattern(pre).push(SegV::Rest(name)), pre + rest),
        pat_captures(literal_pattern(pre).push(SegV::Rest(name)), pre + rest) == seq![
            (name, join_segs(rest)),
        ],
        path_segs(join_segs(rest)) == rest,
    decreases pre.len(),
{
    let pat = literal_pattern(pre).push(SegV::Rest(name));
    let segs = pre + rest;
    crate::paths::lemma_split_join(rest);
    if pre.len() == 0 {
        assert(pat[0] == SegV::Rest(name));
        assert(segs =~= rest);
        assert(pat_captures(pat, segs) =~= seq![(name, join_segs(rest))]);
    } else {
        lemma_prefix_remainder(pre.skip(1), rest, name);
        assert(pat[0] == SegV::Lit(pre[0]));
        assert(segs.len() > 0 && segs[0] == pre[0]);
        assert(pat.skip(1) =~= literal_pattern(pre.skip(1)).push(SegV::Rest(name)));
        assert(segs.skip(1) =~= pre.skip(1) + rest);
    }
}

/// Matches one pattern against a segment sequence, returning the captures.
pub fn match_pat(pat: &Vec<Segment>, segs: &Vec<String>) -> (r: Option<ParamSet>)
    ensures
        ({
            let p = pat@.map_values(|s: Segment| s@);
            let g = segs@.map_values(|t: String| t@);
            match r {
                None => !pat_matches(p, g),
                Some(ps) => pat_matches(p, g) && ps@ == pat_captures(p, g),
            }
        }),
{
    let ghost p = pat@.map_values(|s: Segment| s@);
    let ghost g = segs@.map_values(|t: String| t@);
    let mut ps = ParamSet::new();
    let mut d: usize = 0;
    proof {
        assert(p.skip(0) =~= p);
        assert(g.skip(0) =~= g);
    }
    while d < pat.len()
        invariant
            p == pat@.map_values(|s: Segment| s@),
            g == segs@.map_values(|t: String| t@),
            d <= pat@.len(),
            d <= segs@.len(),
            pat_matches(p, g) == pat_matches(p.skip(d as int), g.skip(d as int)),
            pat_matches(p, g) ==> pat_captures(p, g) == ps@ + pat_captures(
                p.skip(d as int),
                g.skip(d as int),
            ),
        decreases pat@.len() - d,
    {
        let ghost pd = p.skip(d as int);
        let ghost gd = g.skip(d as int);
        proof {
            assert(pd[0] == p[d as int]);
            assert(pd.skip(1) =~= p.skip(d as int + 1));
            assert(gd.len() > 0 ==> gd[0] == g[d as int]);
            assert(gd.len() > 0 ==> gd.skip(1) =~= g.skip(d as int + 1));
        }
        match &pat[d] {
            Segment::Literal(l) => {
                if d >= segs.len() {
                    proof {
                        assert(!pat_matches(pd, gd));
                    }
                    return None;
                }
                if !str_eq(l.as_str(), segs[d].as_str()) {
                    proof {
                        assert(!pat_matches(pd, gd));
                    }
                    return None;
                }
                d = d + 1;
            },
            Segment::Param(name) => {
                if d >= segs.len() {
                    proof {
                        assert(!pat_matches(pd, gd));
                    }
                    return None;
                }
                let ghost prev = ps@;
                ps.push(name.clone(), segs[d].clone());
                proof {
                    if pat_matches(p, g) {
                        assert(prev + pat_captures(pd, gd) =~= ps@ + pat_captures(
                            p.skip(d as int + 1),
                            g.skip(d as int + 1),
                        ));
                    }
                }
                d = d + 1;
            },
            Segment::Rest(name) => {
                let rest = join_from(segs, d);
                let ghost prev = ps@;
                ps.push(name.clone(), rest);
                proof {
                    assert(pat_matches(pd, gd));
                    assert(pat_captures(pd, gd) =~= seq![(name@, join_segs(gd))]);
                    assert(ps@ =~= prev + pat_captures(pd, gd));
                }
                return Some(ps);
            },
        }
    }
    proof {
        assert(p.skip(p.len() as int) =~= Seq::<SegV>::empty());
    }
    if d == segs.len() {
        proof {
            assert(g.skip(d as int) =~= Seq::<Seq<char>>::empty());
            assert(pat_matches(p, g));
            assert(pat_captures(p, g) =~= ps@);
        }
        Some(ps)
    } else {
        proof {
            assert(g.skip(d as int).len() > 0);
            assert(!pat_matches(p, g));
        }
        None
    }
}

/// Compares two patterns by kind sequence.
pub fn pat_lt(a: &Vec<Segment>, b: &Vec<Segment>) -> (r: bool)
    ensures
        r == kinds_lt(
            kinds(a@.map_values(|s: Segment| s@)),
            kinds(b@.map_values(|s: Segment| s@)),
        ),
{
    let ghost ka = kinds(a@.map_values(|s: Segment| s@));
    let ghost kb = kinds(b@.map_values(|s: Segment| s@));
    let mut i: usize = 0;
    proof {
        assert(ka.skip(0) =~= ka);
        assert(kb.skip(0) =~= kb);
    }
    loop
        invariant
            i <= a@.len(),
            i <= b@.len(),
            ka == kinds(a@.map_values(|s: Segment| s@)),
            kb == kinds(b@.map_values(|s: Segment| s@)),
            ka.len() == a@.len(),
            kb.len() == b@.len(),
            kinds_lt(ka, kb) == kinds_lt(ka.skip(i as int), kb.skip(i as int)),
        decreases a@.len() - i,
    {
        if i >= b.len() {
            return false;
        }
        if i >= a.len() {
            return true;
        }
        proof {
            assert(ka.skip(i as int)[0] == ka[i as int]);
            assert(kb.skip(i as int)[0] == kb[i as int]);
            assert(ka.skip(i as int).skip(1) =~= ka.skip(i as int + 1));
            assert(kb.skip(i as int).skip(1) =~= kb.skip(i as int + 1));
        }
        let va = seg_rank(&a[i]);
        let vb = seg_rank(&b[i]);
        if va < vb {
            return true;
        }
        if vb < va {
            return false;
        }
        i = i + 1;
    }
}

/// Match priority of one segment, as a machine integer.
pub fn seg_rank(s: &Segment) -> (k: u8)
    ensures
        k as int == seg_kind(s@),
{
    match s {
        Segment::Literal(_) => 0,
        Segment::Param(_) => 1,
        Segment::Rest(_) => 2,
    }
}

} // verus!
