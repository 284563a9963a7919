//! Paths as sequences of segments.
//!
//! A concrete request path and a registered pattern are both read segment by
//! segment: the separator is `/`, and empty segments are dropped, so
//! `/a//b/` carries the same segments as `/a/b`.  Everything the router
//! decides depends on a path only through its segment sequence.

use vstd::prelude::*;
use vstd::string::StrSliceExecFns;
use vstd::string::StringExecFns;

verus! {

/// First position `j >= i` such that `s[j]` is the separator, or `s.len()`
/// if the rest of `s` is separator-free.
pub open spec fn seg_end(s: Seq<char>, i: int) -> int
    decreases s.len() - i,
{
    if i < 0 || i >= s.len() {
        s.len() as int
    } else if s[i] == '/' {
        i
    } else {
        seg_end(s, i + 1)
    }
}

pub proof fn lemma_seg_end_bounds(s: Seq<char>, i: int)
    requires
        0 <= i <= s.len(),
    ensures
        i <= seg_end(s, i) <= s.len(),
        i < s.len() && s[i] != '/' ==> seg_end(s, i) > i,
    decreases s.len() - i,
{
    if i < s.len() && s[i] != '/' {
        lemma_seg_end_bounds(s, i + 1);
    }
}

/// `seg_end` finds the first separator at or after `i`.
pub proof fn lemma_seg_end_char(s: Seq<char>, i: int)
    requires
        0 <= i <= s.len(),
    ensures
        forall|k: int| i <= k < seg_end(s, i) ==> s[k] != '/',
        seg_end(s, i) < s.len() ==> s[seg_end(s, i)] == '/',
        i <= seg_end(s, i) <= s.len(),
    decreases s.len() - i,
{
    lemma_seg_end_bounds(s, i);
    if i < s.len() && s[i] != '/' {
        lemma_seg_end_char(s, i + 1);
    }
}

/// Conversely, a separator-free stretch ending at a separator (or at the end
/// of the string) pins `seg_end` down exactly.
pub proof fn lemma_seg_end_is(s: Seq<char>, i: int, j: int)
    requires
        0 <= i <= j <= s.len(),
        forall|k: int| i <= k < j ==> s[k] != '/',
        j < s.len() ==> s[j] == '/',
    ensures
        seg_end(s, i) == j,
    decreases j - i,
{
    if i < j {
        lemma_seg_end_is(s, i + 1, j);
    }
}

/// The segments of `s` from position `i` on: maximal separator-free
/// non-empty stretches.
pub open spec fn path_segs_from(s: Seq<char>, i: int) -> Seq<Seq<char>>
    decreases s.len() - i,
    via path_segs_from_dec
{
    if i < 0 || i >= s.len() {
        Seq::empty()
    } else if s[i] == '/' {
        path_segs_from(s, i + 1)
    } else {
        seq![s.subrange(i, seg_end(s, i))] + path_segs_from(s, seg_end(s, i))
    }
}

#[via_fn]
proof fn path_segs_from_dec(s: Seq<char>, i: int) {
    if 0 <= i < s.len() && s[i] != '/' {
        lemma_seg_end_bounds(s, i);
    }
}

/// The segment sequence of a whole path string.
pub open spec fn path_segs(s: Seq<char>) -> Seq<Seq<char>> {
    path_segs_from(s, 0)
}

/// A segment produced by splitting is never empty and never holds the
/// separator.
pub open spec fn wf_seg(seg: Seq<char>) -> bool {
    seg.len() > 0 && forall|k: int| 0 <= k < seg.len() ==> seg[k] != '/'
}

pub proof fn lemma_path_segs_from_wf(s: Seq<char>, i: int)
    requires
        0 <= i <= s.len(),
    ensures
        forall|k: int|
            0 <= k < path_segs_from(s, i).len() ==> #[trigger] wf_seg(path_segs_from(s, i)[k]),
    decreases s.len() - i,
{
    if i < s.len() {
        if s[i] == '/' {
            lemma_path_segs_from_wf(s, i + 1);
            assert forall|k: int|
                0 <= k < path_segs_from(s, i).len() implies #[trigger] wf_seg(
                path_segs_from(s, i)[k],
            ) by {
                assert(path_segs_from(s, i)[k] == path_segs_from(s, i + 1)[k]);
            }
        } else {
            lemma_seg_end_char(s, i);
            let e = seg_end(s, i);
            lemma_path_segs_from_wf(s, e);
            assert(wf_seg(s.subrange(i, e)));
            assert forall|k: int|
                0 <= k < path_segs_from(s, i).len() implies #[trigger] wf_seg(
                path_segs_from(s, i)[k],
            ) by {
                if k == 0 {
                    assert(path_segs_from(s, i)[0] == s.subrange(i, e));
                } else {
                    assert(path_segs_from(s, i)[k] == path_segs_from(s, e)[k - 1]);
                    assert(wf_seg(path_segs_from(s, e)[k - 1]));
                }
            }
        }
    }
}

pub proof fn lemma_path_segs_wf(s: Seq<char>)
    ensures
        forall|k: int| 0 <= k < path_segs(s).len() ==> #[trigger] wf_seg(path_segs(s)[k]),
{
    lemma_path_segs_from_wf(s, 0);
}

/// Splits a path into its segments; the result is exactly `path_segs` of the
/// input.
pub fn split_path(path: &str) -> (segs: Vec<String>)
    ensures
        segs@.map_values(|t: String| t@) == path_segs(path@),
{
    let n = path.unicode_len();
    let mut segs: Vec<String> = Vec::new();
    let mut i: usize = 0;
    proof {
        assert(segs@.map_values(|t: String| t@) =~= Seq::<Seq<char>>::empty());
    }
    while i < n
        invariant
            n == path@.len(),
            i <= n,
            path_segs(path@) == segs@.map_values(|t: String| t@) + path_segs_from(
                path@,
                i as int,
            ),
        decreases n - i,
    {
        if path.get_char(i) == '/' {
            i = i + 1;
        } else {
            let ghost prev = segs@.map_values(|t: String| t@);
            let mut j: usize = i + 1;
            while j < n && path.get_char(j) != '/'
                invariant
                    n == path@.len(),
                    i < j <= n,
                    forall|k: int| i <= k < j ==> path@[k] != '/',
                decreases n - j,
            {
                j = j + 1;
            }
            proof {
                lemma_seg_end_is(path@, i as int, j as int);
            }
            let seg = path.substring_char(i, j);
            segs.push(seg.to_owned());
            proof {
                assert(segs@.map_values(|t: String| t@) =~= prev + seq![
                    path@.subrange(i as int, j as int),
                ]);
                assert(path_segs(path@) =~= segs@.map_values(|t: String| t@)
                    + path_segs_from(path@, j as int));
            }
            i = j;
        }
    }
    proof {
        assert(path_segs(path@) =~= segs@.map_values(|t: String| t@));
    }
    segs
}

/// Character-for-character string comparison.
pub fn str_eq(a: &str, b: &str) -> (r: bool)
    ensures
        r == (a@ == b@),
{
    let na = a.unicode_len();
    let nb = b.unicode_len();
    if na != nb {
        proof {
            assert(a@ != b@);
        }
        return false;
    }
    let mut i: usize = 0;
    while i < na
        invariant
            na == a@.len(),
            na == b@.len(),
            i <= na,
            forall|k: int| 0 <= k < i ==> a@[k] == b@[k],
        decreases na - i,
    {
        if a.get_char(i) != b.get_char(i) {
            return false;
        }
        i = i + 1;
    }
    proof {
        assert(a@ =~= b@);
    }
    true
}

/// The segments joined back into one path string, a single separator
/// between neighbours and none at the ends.
pub open spec fn join_segs(segs: Seq<Seq<char>>) -> Seq<char>
    decreases segs.len(),
{
    if segs.len() == 0 {
        Seq::empty()
    } else if segs.len() == 1 {
        segs[0]
    } else {
        segs[0] + seq!['/'] + join_segs(segs.skip(1))
    }
}

/// Joins the segments from position `from` on into one path string.
pub fn join_from(segs: &Vec<String>, from: usize) -> (r: String)
    requires
        from <= segs@.len(),
    ensures
        r@ == join_segs(segs@.map_values(|t: String| t@).skip(from as int)),
    decreases segs@.len() - from@,
{
    let ghost tail = segs@.map_values(|t: String| t@).skip(from as int);
    if from >= segs.len() {
        proof {
            assert(tail =~= Seq::<Seq<char>>::empty());
        }
        String::new()
    } else if from == segs.len() - 1 {
        segs[from].clone()
    } else {
        let mut r = segs[from].clone();
        r.append("/");
        let rest = join_from(segs, from + 1);
        r.append(rest.as_str());
        proof {
            reveal_strlit("/");
            assert(segs@.map_values(|t: String| t@).skip(from as int + 1) =~= tail.skip(1));
            assert(r@ =~= join_segs(tail));
        }
        r
    }
}

/// Splitting the joined form of well-formed segments gives those segments
/// back: re-matching a rewritten remainder path sees exactly the captured
/// segments.
pub proof fn lemma_split_join(segs: Seq<Seq<char>>)
    requires
        forall|k: int| 0 <= k < segs.len() ==> #[trigger] wf_seg(segs[k]),
    ensures
        path_segs(join_segs(segs)) == segs,
    decreases segs.len(),
{
    if segs.len() == 0 {
        assert(path_segs(join_segs(segs)) =~= segs);
    } else if segs.len() == 1 {
        let s = segs[0];
        assert(wf_seg(s));
        lemma_seg_end_is(s, 0, s.len() as int);
        assert(s.subrange(0, s.len() as int) =~= s);
        assert(path_segs_from(s, s.len() as int) =~= Seq::<Seq<char>>::empty());
        assert(path_segs(join_segs(segs)) =~= segs);
    } else {
        let head = segs[0];
        let rest = join_segs(segs.skip(1));
        let s = head + seq!['/'] + rest;
        assert(wf_seg(head));
        lemma_split_join(segs.skip(1));
        lemma_seg_end_is(s, 0, head.len() as int);
        assert(s.subrange(0, head.len() as int) =~= head);
        lemma_path_segs_shift(s, head.len() as int, rest);
        assert(path_segs(s) =~= seq![head] + path_segs(rest));
        assert(seq![head] + segs.skip(1) =~= segs);
    }
}

/// Reading segments after a separator at `i` is reading the segments of the
/// suffix beyond it.
proof fn lemma_path_segs_shift(s: Seq<char>, i: int, rest: Seq<char>)
    requires
        0 <= i < s.len(),
        s[i] == '/',
        rest =~= s.subrange(i + 1, s.len() as int),
    ensures
        path_segs_from(s, i) == path_segs(rest),
{
    lemma_path_segs_from_offset(s, i + 1, rest, 0);
}

/// Segment reading is insensitive to a common shift of string and index.
proof fn lemma_path_segs_from_offset(s: Seq<char>, i: int, t: Seq<char>, j: int)
    requires
        0 <= i <= s.len(),
        0 <= j <= t.len(),
        s.len() - i == t.len() - j,
        forall|k: int| 0 <= k < s.len() - i ==> #[trigger] s[i + k] == t[j + k],
    ensures
        path_segs_from(s, i) == path_segs_from(t, j),
    decreases s.len() - i,
{
    if i < s.len() {
        assert(s[i] == t[j]) by {
            assert(s[i + 0] == t[j + 0]);
        }
        if s[i] == '/' {
            assert forall|k: int|
                0 <= k < s.len() - (i + 1) implies #[trigger] s[(i + 1) + k] == t[(j + 1) + k] by {
                assert(s[i + (k + 1)] == t[j + (k + 1)]);
            }
            lemma_path_segs_from_offset(s, i + 1, t, j + 1);
        } else {
            lemma_seg_end_char(s, i);
            lemma_seg_end_char(t, j);
            let e = seg_end(s, i);
            assert(forall|k: int| j <= k < j + (e - i) ==> t[k] != '/') by {
                assert(forall|k: int| i <= k < e ==> s[k] != '/');
                assert(forall|k: int|
                    j <= k < j + (e - i) ==> t[k] == s[i + (k - j)] && s[i + (k - j)] != '/');
            }
            if e < s.len() {
                assert(t[j + (e - i)] == s[i + (e - i)]);
            }
            lemma_seg_end_is(t, j, j + (e - i));
            assert forall|k: int|
                0 <= k < e - i implies s.subrange(i, e)[k] == t.subrange(j, j + (e - i))[k] by {
                assert(s[i + k] == t[j + k]);
            }
            assert(s.subrange(i, e) =~= t.subrange(j, j + (e - i)));
            assert forall|k: int|
                0 <= k < s.len() - e implies #[trigger] s[e + k] == t[(j + (e - i)) + k] by {
                assert(s[i + ((e - i) + k)] == t[j + ((e - i) + k)]);
            }
            lemma_path_segs_from_offset(s, e, t, j + (e - i));
        }
    } else {
        assert(path_segs_from(s, i) =~= path_segs_from(t, j));
    }
}

} // verus!
