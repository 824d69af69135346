//! Laws of the triangulation, stated over its specification.
use vstd::prelude::*;

use crate::error::TriangulationError;
use crate::geometry::Point;
use crate::triangle::Triangle;
use crate::triangulation::{
    bounding_triangle, insert_all, known_vertex, lemma_insert_all_valid, real_triangles, result_is,
    touches_synthetic, triangulation_of,
};

verus! {

/// Two runs of `triangulate` on the same points give the same result: the
/// contract fixes it, so any two results that meet it agree.
pub proof fn lemma_triangulation_deterministic(
    points: Seq<Point>,
    a: Result<Vec<Triangle>, TriangulationError>,
    b: Result<Vec<Triangle>, TriangulationError>,
)
    requires
        result_is(a, triangulation_of(points)),
        result_is(b, triangulation_of(points)),
    ensures
        a is Ok <==> b is Ok,
        a matches Ok(x) ==> b matches Ok(y) && x@ == y@,
        a matches Err(e) ==> b matches Err(f) && e == f,
{
}

/// No triangle of a triangulation has a corner of the bounding triangle
/// among its vertices.
pub proof fn lemma_no_synthetic_vertices(points: Seq<Point>)
    ensures
        triangulation_of(points) matches Ok(t) ==> forall|j: int|
            0 <= j < t.len() ==> !touches_synthetic(#[trigger] t[j]),
{
    if let Ok(t) = triangulation_of(points) {
        if let Some(u) = insert_all(seq![bounding_triangle()], points) {
            assert(t == real_triangles(u));
            assert forall|j: int| 0 <= j < t.len() implies !touches_synthetic(#[trigger] t[j]) by {
                u.lemma_filter_pred(|v: Triangle| !touches_synthetic(v), j);
            }
        }
    }
}

/// Every vertex of every triangle of a triangulation is one of the input
/// points, and every triangle carries its own circumcircle.
pub proof fn lemma_vertices_are_input_points(points: Seq<Point>)
    ensures
        triangulation_of(points) matches Ok(t) ==> forall|j: int|
            0 <= j < t.len() ==> {
                &&& (#[trigger] t[j]).wf()
                &&& points.contains(t[j].v(0))
                &&& points.contains(t[j].v(1))
                &&& points.contains(t[j].v(2))
            },
{
    if let Ok(t) = triangulation_of(points) {
        lemma_insert_all_valid(points, points.len() as int);
        assert(points.take(points.len() as int) =~= points);
        if let Some(u) = insert_all(seq![bounding_triangle()], points) {
            let pred = |v: Triangle| !touches_synthetic(v);
            assert forall|j: int| 0 <= j < t.len() implies {
                &&& (#[trigger] t[j]).wf()
                &&& points.contains(t[j].v(0))
                &&& points.contains(t[j].v(1))
                &&& points.contains(t[j].v(2))
            } by {
                u.lemma_filter_pred(pred, j);
                assert(u.filter(pred).contains(t[j]));
                u.lemma_filter_contains_rev(pred, t[j]);
                let m = choose|m: int| 0 <= m < u.len() && u[m] == t[j];
                assert(known_vertex(u[m].v(0), points, points.len() as int));
                assert(known_vertex(u[m].v(1), points, points.len() as int));
                assert(known_vertex(u[m].v(2), points, points.len() as int));
            }
        }
    }
}

} // verus!
