//! One step of Bowyer–Watson: inserting a point into a triangulation.
use vstd::prelude::*;

use crate::boundary::{
    add_boundary_edge, boundary_of, edge_count, lemma_walk_is_boundary, walk, walk_step,
};
use crate::error::TriangulationError;
use crate::geometry::{bounded, det, Edge, Point};
use crate::triangle::{build_triangle, lemma_triangle_on, triangle_on, Triangle};

verus! {

/// The three sides of `t`, in vertex order.
pub open spec fn edges_of(t: Triangle) -> Seq<Edge> {
    seq![t.edge_at(0), t.edge_at(1), t.edge_at(2)]
}

/// The sides of the triangles of `tri` whose circumcircle holds `p` (on it
/// or inside), triangle by triangle, in order.
pub open spec fn bad_edges(tri: Seq<Triangle>, p: Point) -> Seq<Edge>
    decreases tri.len(),
{
    if tri.len() == 0 {
        Seq::empty()
    } else if tri.last().circle_contains(p) {
        bad_edges(tri.drop_last(), p) + edges_of(tri.last())
    } else {
        bad_edges(tri.drop_last(), p)
    }
}

/// The triangles of `tri` whose circumcircle does not hold `p`, in order.
pub open spec fn survivors(tri: Seq<Triangle>, p: Point) -> Seq<Triangle> {
    tri.filter(|t: Triangle| !t.circle_contains(p))
}

/// The edges that bound the cavity that `p` opens in `tri`.
pub open spec fn cavity_boundary(tri: Seq<Triangle>, p: Point) -> Seq<Edge> {
    boundary_of(bad_edges(tri, p))
}

/// `fan` joins each edge of `boundary`, in order, to `p`.
pub open spec fn is_fan(fan: Seq<Triangle>, boundary: Seq<Edge>, p: Point) -> bool {
    &&& fan.len() == boundary.len()
    &&& forall|k: int|
        0 <= k < fan.len() ==> (#[trigger] fan[k]).wf() && fan[k].vertices@ == seq![
            boundary[k].a,
            boundary[k].b,
            p,
        ]
}

/// The fan that joins each edge of `boundary`, in order, to `p`.
pub open spec fn fan_of(boundary: Seq<Edge>, p: Point) -> Seq<Triangle> {
    Seq::new(boundary.len(), |k: int| triangle_on(boundary[k].a, boundary[k].b, p))
}

/// Some edge of `boundary` lies on one line with `p`.
pub open spec fn has_flat_edge(boundary: Seq<Edge>, p: Point) -> bool {
    exists|k: int| 0 <= k < boundary.len() && det((#[trigger] boundary[k]).a, boundary[k].b, p) == 0
}

/// The triangulation after inserting `p` into `tri`: the survivors, then the
/// fan over the cavity boundary; nothing when that fan would hold a flat
/// triangle.
pub open spec fn insertion(tri: Seq<Triangle>, p: Point) -> Option<Seq<Triangle>> {
    let b = cavity_boundary(tri, p);
    if has_flat_edge(b, p) {
        None
    } else {
        Some(survivors(tri, p) + fan_of(b, p))
    }
}

/// Every triangle of `tri` is well formed.
pub open spec fn all_wf(tri: Seq<Triangle>) -> bool {
    forall|j: int| 0 <= j < tri.len() ==> (#[trigger] tri[j]).wf()
}

/// `e` is a side of a triangle of `tri` whose circumcircle holds `p`.
pub open spec fn is_bad_side(tri: Seq<Triangle>, p: Point, e: Edge) -> bool {
    exists|j: int, i: int|
        0 <= j < tri.len() && 0 <= i < 3 && tri[j].circle_contains(p) && tri[j].edge_at(i) == e
}

/// `e` is a side of a triangle of `tri`.
pub open spec fn is_side(tri: Seq<Triangle>, e: Edge) -> bool {
    exists|j: int, i: int| 0 <= j < tri.len() && 0 <= i < 3 && tri[j].edge_at(i) == e
}

proof fn lemma_walk_push(s: Seq<Edge>, e: Edge)
    ensures
        walk(s.push(e)) == walk_step(walk(s), e),
{
    assert(s.push(e).drop_last() =~= s);
}

/// Each edge that the cavity walk meets is a side of a triangle whose
/// circumcircle holds the point.
pub proof fn lemma_bad_edges_from(tri: Seq<Triangle>, p: Point)
    ensures
        forall|k: int|
            0 <= k < bad_edges(tri, p).len() ==> is_bad_side(tri, p, #[trigger] bad_edges(tri, p)[k]),
    decreases tri.len(),
{
    if tri.len() > 0 {
        let rest = tri.drop_last();
        lemma_bad_edges_from(rest, p);
        assert forall|k: int| 0 <= k < bad_edges(tri, p).len() implies is_bad_side(
            tri,
            p,
            #[trigger] bad_edges(tri, p)[k],
        ) by {
            let prev = bad_edges(rest, p);
            if k < prev.len() {
                assert(bad_edges(tri, p)[k] == prev[k]);
                assert(is_bad_side(rest, p, prev[k]));
                let (j, i) = choose|j: int, i: int|
                    0 <= j < rest.len() && 0 <= i < 3 && rest[j].circle_contains(p)
                        && rest[j].edge_at(i) == prev[k];
                assert(tri[j] == rest[j]);
            } else {
                let i = k - prev.len();
                assert(bad_edges(tri, p)[k] == edges_of(tri.last())[i]);
                assert(tri[tri.len() - 1] == tri.last());
                assert(tri[tri.len() - 1].edge_at(i) == bad_edges(tri, p)[k]);
            }
        }
    } else {
        assert(bad_edges(tri, p).len() == 0);
    }
}

/// The edges of the cavity boundary are sides of well-formed triangles of
/// `tri`, so their ends are bounded and are vertices of `tri`.
pub proof fn lemma_cavity_edges(tri: Seq<Triangle>, p: Point)
    requires
        all_wf(tri),
    ensures
        forall|k: int|
            0 <= k < cavity_boundary(tri, p).len() ==> is_side(tri, #[trigger] cavity_boundary(tri, p)[k]),
{
    let edges = bad_edges(tri, p);
    lemma_bad_edges_from(tri, p);
    assert forall|k: int| 0 <= k < cavity_boundary(tri, p).len() implies is_side(
        tri,
        #[trigger] cavity_boundary(tri, p)[k],
    ) by {
        let x = cavity_boundary(tri, p)[k];
        let pred = |f: Edge| edge_count(edges, f) == 1;
        assert(edges.filter(pred).contains(x));
        edges.lemma_filter_contains_rev(pred, x);
        let n = choose|n: int| 0 <= n < edges.len() && edges[n] == x;
        assert(is_bad_side(tri, p, edges[n]));
    }
}

/// Inserts `p`: removes every triangle whose circumcircle holds `p`, and
/// joins each edge of the cavity boundary to `p`. The survivors keep their
/// order and the new triangles follow them, in the order of their edges. A
/// boundary edge that lies on one line with `p` is refused.
pub fn insert_point(tri: &Vec<Triangle>, p: Point) -> (r: Result<Vec<Triangle>, TriangulationError>)
    requires
        all_wf(tri@),
        bounded(p),
    ensures
        r is Err <==> insertion(tri@, p) is None,
        r matches Ok(v) ==> insertion(tri@, p) == Some(v@),
        r is Err ==> r == Err::<Vec<Triangle>, TriangulationError>(
            TriangulationError::DegenerateInput,
        ),
        r matches Ok(v) ==> {
            let n = survivors(tri@, p).len() as int;
            &&& v@.len() == n + cavity_boundary(tri@, p).len()
            &&& v@.take(n) == survivors(tri@, p)
            &&& is_fan(v@.skip(n), cavity_boundary(tri@, p), p)
        },
{
    let mut kept: Vec<Triangle> = Vec::new();
    let mut outer: Vec<Edge> = Vec::new();
    let mut seen: Vec<Edge> = Vec::new();
    let mut j: usize = 0;
    while j < tri.len()
        invariant
            j <= tri.len(),
            all_wf(tri@),
            bounded(p),
            kept@ == survivors(tri@.take(j as int), p),
            (outer@, seen@) == walk(bad_edges(tri@.take(j as int), p)),
        decreases tri.len() - j,
    {
        let t = tri[j];
        proof {
            let pre = tri@.take(j as int);
            let post = tri@.take(j + 1);
            assert(post.drop_last() =~= pre);
            assert(post.last() == t);
            reveal(Seq::filter);
        }
        if t.in_circumcircle(&p) {
            let ghost before = bad_edges(tri@.take(j as int), p);
            let e0 = t.edge(0);
            let e1 = t.edge(1);
            let e2 = t.edge(2);
            add_boundary_edge(&mut outer, &mut seen, e0);
            add_boundary_edge(&mut outer, &mut seen, e1);
            add_boundary_edge(&mut outer, &mut seen, e2);
            proof {
                lemma_walk_push(before, e0);
                lemma_walk_push(before.push(e0), e1);
                lemma_walk_push(before.push(e0).push(e1), e2);
                assert(before + edges_of(t) =~= before.push(e0).push(e1).push(e2));
            }
        } else {
            kept.push(t);
        }
        j = j + 1;
    }
    proof {
        assert(tri@.take(tri.len() as int) =~= tri@);
        lemma_cavity_edges(tri@, p);
    }
    let ghost boundary = outer@;
    let ghost n = kept@.len();
    proof {
        lemma_walk_is_boundary(bad_edges(tri@, p));
        assert(boundary == cavity_boundary(tri@, p));

        assert(kept@.skip(n as int) =~= Seq::<Triangle>::empty());
        assert(kept@.take(n as int) =~= kept@);
    }
    let mut k: usize = 0;
    while k < outer.len()
        invariant
            k <= outer.len(),
            outer@ == boundary,
            boundary == cavity_boundary(tri@, p),
            all_wf(tri@),
            bounded(p),
            n == survivors(tri@, p).len(),
            kept@.len() == n + k,
            kept@.take(n as int) == survivors(tri@, p),
            is_fan(kept@.skip(n as int), boundary.take(k as int), p),
            forall|m: int| 0 <= m < k ==> det(#[trigger] boundary[m].a, boundary[m].b, p) != 0,
            forall|m: int| 0 <= m < boundary.len() ==> is_side(tri@, #[trigger] boundary[m]),
        decreases outer.len() - k,
    {
        let e = outer[k];
        proof {
            let (j, i) = choose|j: int, i: int|
                0 <= j < tri@.len() && 0 <= i < 3 && tri@[j].edge_at(i) == boundary[k as int];
            assert(tri@[j].wf());
            assert((i + 1) % 3 == 0 || (i + 1) % 3 == 1 || (i + 1) % 3 == 2);
        }
        let corners = [e.a, e.b, p];
        match build_triangle(corners) {
            Ok(t) => {
                let ghost old_kept = kept@;
                kept.push(t);
                proof {
                    assert(corners@ =~= seq![e.a, e.b, p]);
                    assert(kept@.take(n as int) =~= old_kept.take(n as int));
                    assert(kept@.skip(n as int) =~= old_kept.skip(n as int).push(t));
                    assert(boundary.take(k + 1) =~= boundary.take(k as int).push(e));
                }
            },
            Err(err) => {
                proof {
                    assert(corners@[0] == e.a && corners@[1] == e.b && corners@[2] == p);
                    assert(det(boundary[k as int].a, boundary[k as int].b, p) == 0);
                    assert(has_flat_edge(boundary, p));
                }
                return Err(err);
            },
        }
        k = k + 1;
    }
    proof {
        assert(boundary.take(k as int) =~= boundary);
        let fan = kept@.skip(n as int);
        assert forall|q: int| 0 <= q < fan.len() implies fan[q] == fan_of(boundary, p)[q] by {
            lemma_triangle_on(fan[q]);
            assert(fan[q].vertices@ == seq![boundary[q].a, boundary[q].b, p]);
            assert(fan[q].v(0) == boundary[q].a);
            assert(fan[q].v(1) == boundary[q].b);
            assert(fan[q].v(2) == p);
        }
        assert(fan =~= fan_of(boundary, p));
        assert(kept@ =~= kept@.take(n as int) + fan);
        assert(!has_flat_edge(boundary, p));
    }
    Ok(kept)
}

} // verus!
