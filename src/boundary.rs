//! The boundary of the cavity that an inserted point opens: the edges that
//! border exactly one of the removed triangles.
use vstd::prelude::*;

use crate::geometry::{same_edge, Edge};

verus! {

/// Some edge of `s` joins the same two points as `e`.
pub open spec fn has_edge(s: Seq<Edge>, e: Edge) -> bool {
    exists|k: int| 0 <= k < s.len() && same_edge(#[trigger] s[k], e)
}

/// The edges of `s` that do not join the same two points as `e`, in order.
pub open spec fn without_edge(s: Seq<Edge>, e: Edge) -> Seq<Edge> {
    s.filter(|f: Edge| !same_edge(f, e))
}

/// The boundary walk after one more edge: an edge met before (in either
/// direction) cancels every copy of it from the boundary; a new one is kept.
pub open spec fn walk_step(state: (Seq<Edge>, Seq<Edge>), e: Edge) -> (Seq<Edge>, Seq<Edge>) {
    if has_edge(state.1, e) {
        (without_edge(state.0, e), state.1)
    } else {
        (state.0.push(e), state.1.push(e))
    }
}

/// The boundary and the edges met so far, after walking `edges` in order.
pub open spec fn walk(edges: Seq<Edge>) -> (Seq<Edge>, Seq<Edge>)
    decreases edges.len(),
{
    if edges.len() == 0 {
        (Seq::empty(), Seq::empty())
    } else {
        walk_step(walk(edges.drop_last()), edges.last())
    }
}

/// How many edges of `s` join the same two points as `e`.
pub open spec fn edge_count(s: Seq<Edge>, e: Edge) -> nat
    decreases s.len(),
{
    if s.len() == 0 {
        0
    } else {
        edge_count(s.drop_last(), e) + if same_edge(s.last(), e) {
            1nat
        } else {
            0nat
        }
    }
}

/// The boundary of a sequence of edges: those whose pair of points occurs
/// exactly once in it, in either direction, in order.
pub open spec fn boundary_of(edges: Seq<Edge>) -> Seq<Edge> {
    edges.filter(|f: Edge| edge_count(edges, f) == 1)
}

proof fn lemma_filter_agree(s: Seq<Edge>, p: spec_fn(Edge) -> bool, q: spec_fn(Edge) -> bool)
    requires
        forall|i: int| 0 <= i < s.len() ==> p(#[trigger] s[i]) == q(s[i]),
    ensures
        s.filter(p) == s.filter(q),
    decreases s.len(),
{
    reveal(Seq::filter);
    if s.len() > 0 {
        let r = s.drop_last();
        assert forall|i: int| 0 <= i < r.len() implies p(#[trigger] r[i]) == q(r[i]) by {
            assert(r[i] == s[i]);
        }
        lemma_filter_agree(r, p, q);
        assert(s.last() == s[s.len() - 1]);
    }
}

proof fn lemma_filter_twice(s: Seq<Edge>, p: spec_fn(Edge) -> bool, q: spec_fn(Edge) -> bool)
    ensures
        s.filter(p).filter(q) == s.filter(|x: Edge| p(x) && q(x)),
    decreases s.len(),
{
    reveal(Seq::filter);
    if s.len() > 0 {
        let r = s.drop_last();
        lemma_filter_twice(r, p, q);
        let x = s.last();
        if p(x) {
            assert(r.filter(p).push(x).drop_last() =~= r.filter(p));
        }
    }
}

proof fn lemma_count_push(s: Seq<Edge>, e: Edge, f: Edge)
    ensures
        edge_count(s.push(e), f) == edge_count(s, f) + if same_edge(e, f) {
            1nat
        } else {
            0nat
        },
{
    assert(s.push(e).drop_last() =~= s);
}

proof fn lemma_count_same(s: Seq<Edge>, e: Edge, f: Edge)
    requires
        same_edge(e, f),
    ensures
        edge_count(s, e) == edge_count(s, f),
    decreases s.len(),
{
    if s.len() > 0 {
        lemma_count_same(s.drop_last(), e, f);
    }
}

proof fn lemma_count_member(s: Seq<Edge>, i: int)
    requires
        0 <= i < s.len(),
    ensures
        edge_count(s, s[i]) >= 1,
    decreases s.len(),
{
    if i < s.len() - 1 {
        lemma_count_member(s.drop_last(), i);
        assert(s.drop_last()[i] == s[i]);
    }
}

/// The boundary walk computes `boundary_of`, and the edges it has met are
/// those that occur at least once.
pub proof fn lemma_walk_is_boundary(edges: Seq<Edge>)
    ensures
        walk(edges).0 == boundary_of(edges),
        forall|g: Edge| has_edge(walk(edges).1, g) <==> edge_count(edges, g) >= 1,
    decreases edges.len(),
{
    reveal(Seq::filter);
    if edges.len() == 0 {
        assert forall|g: Edge| has_edge(walk(edges).1, g) <==> edge_count(edges, g) >= 1 by {}
    } else {
        let s = edges.drop_last();
        let e = edges.last();
        assert(s.push(e) =~= edges);
        lemma_walk_is_boundary(s);
        let prev = walk(s);
        let p_old = |f: Edge| edge_count(s, f) == 1;
        let p_new = |f: Edge| edge_count(edges, f) == 1;
        assert forall|g: Edge| #[trigger] edge_count(edges, g) == edge_count(s, g) + if same_edge(e, g) {
            1nat
        } else {
            0nat
        } by {
            lemma_count_push(s, e, g);
        }
        assert forall|g: Edge| has_edge(walk(edges).1, g) <==> edge_count(edges, g) >= 1 by {
            if same_edge(e, g) {
                lemma_count_same(s, e, g);
            }
            if !has_edge(prev.1, e) {
                if has_edge(prev.1.push(e), g) && !same_edge(e, g) {
                    let k = choose|k: int| 0 <= k < prev.1.push(e).len() && same_edge(#[trigger] prev.1.push(e)[k], g);
                    assert(k < prev.1.len());
                    assert(prev.1[k] == prev.1.push(e)[k]);
                }
                if has_edge(prev.1, g) {
                    let k = choose|k: int| 0 <= k < prev.1.len() && same_edge(#[trigger] prev.1[k], g);
                    assert(prev.1.push(e)[k] == prev.1[k]);
                }
                if same_edge(e, g) {
                    assert(prev.1.push(e)[prev.1.len() as int] == e);
                }
            }
        }
        if has_edge(prev.1, e) {
            // a repeated pair: every copy leaves the boundary
            let q = |f: Edge| !same_edge(f, e);
            lemma_filter_twice(s, p_old, q);
            assert forall|i: int| 0 <= i < s.len() implies (|x: Edge| p_old(x) && q(x))(#[trigger] s[i])
                == p_new(s[i]) by {
                if same_edge(e, s[i]) {
                    lemma_count_same(s, e, s[i]);
                }
            }
            lemma_filter_agree(s, |x: Edge| p_old(x) && q(x), p_new);
            assert(!p_new(e));
            assert(edges.filter(p_new) == s.filter(p_new));
        } else {
            // a new pair: it joins the boundary, and nothing in `s` shares it
            assert forall|i: int| 0 <= i < s.len() implies p_old(#[trigger] s[i]) == p_new(s[i]) by {
                if same_edge(e, s[i]) {
                    lemma_count_member(s, i);
                    lemma_count_same(s, e, s[i]);
                }
            }
            lemma_filter_agree(s, p_old, p_new);
            assert(p_new(e));
            assert(edges.filter(p_new) == s.filter(p_new).push(e));
        }
    }
}

/// Whether some edge of `s` joins the same two points as `e`.
fn contains_edge(s: &Vec<Edge>, e: &Edge) -> (r: bool)
    ensures
        r == has_edge(s@, *e),
{
    let mut i: usize = 0;
    while i < s.len()
        invariant
            i <= s.len(),
            forall|k: int| 0 <= k < i ==> !same_edge(#[trigger] s@[k], *e),
        decreases s.len() - i,
    {
        if s[i].same_as(e) {
            return true;
        }
        i = i + 1;
    }
    false
}

/// The edges of `s` that do not join the same two points as `e`.
fn remove_edge(s: &Vec<Edge>, e: &Edge) -> (r: Vec<Edge>)
    ensures
        r@ == without_edge(s@, *e),
{
    let mut r: Vec<Edge> = Vec::new();
    let mut i: usize = 0;
    while i < s.len()
        invariant
            i <= s.len(),
            r@ == without_edge(s@.take(i as int), *e),
        decreases s.len() - i,
    {
        proof {
            reveal(Seq::filter);
            assert(s@.take(i + 1).drop_last() =~= s@.take(i as int));
            assert(s@.take(i + 1).last() == s@[i as int]);
        }
        if !s[i].same_as(e) {
            r.push(s[i]);
        }
        i = i + 1;
    }
    assert(s@.take(s.len() as int) =~= s@);
    r
}

/// Walks one more edge: see `walk_step`.
pub fn add_boundary_edge(outer: &mut Vec<Edge>, seen: &mut Vec<Edge>, e: Edge)
    ensures
        (final(outer)@, final(seen)@) == walk_step((old(outer)@, old(seen)@), e),
{
    if contains_edge(seen, &e) {
        let kept = remove_edge(outer, &e);
        *outer = kept;
    } else {
        outer.push(e);
        seen.push(e);
    }
}

} // verus!
