//! The Bowyer–Watson driver: a bounding triangle, one insertion per input
//! point, and the removal of every triangle that touches the bounding corners.
use vstd::prelude::*;

use crate::error::TriangulationError;
use crate::geometry::{bounded, cyclic_sum_i128, det, Point, COORD_BOUND};
use crate::insertion::{
    all_wf, cavity_boundary, fan_of, has_flat_edge, insert_point, insertion, is_fan, is_side,
    lemma_cavity_edges, survivors,
};
use crate::triangle::{
    build_triangle, lemma_triangle_on, lemma_triangle_on_exists, triangle_on, Triangle,
};

verus! {

/// Largest magnitude of an input coordinate. Every such point lies well
/// inside the bounding triangle.
pub const INPUT_BOUND: i64 = 10_000;

/// Both coordinates of `p` lie within `INPUT_BOUND` in magnitude.
pub open spec fn in_input_range(p: Point) -> bool {
    -INPUT_BOUND <= p.x <= INPUT_BOUND && -INPUT_BOUND <= p.y <= INPUT_BOUND
}

/// The corners of the bounding triangle that the construction starts from.
pub open spec fn synthetic_corner(i: int) -> Point {
    if i == 0 {
        Point { x: (-COORD_BOUND) as i64, y: (-COORD_BOUND) as i64 }
    } else if i == 1 {
        Point { x: COORD_BOUND, y: 0 }
    } else {
        Point { x: (-COORD_BOUND) as i64, y: COORD_BOUND }
    }
}

/// `p` is a corner of the bounding triangle.
pub open spec fn is_synthetic(p: Point) -> bool {
    p == synthetic_corner(0) || p == synthetic_corner(1) || p == synthetic_corner(2)
}

/// Some vertex of `t` is a corner of the bounding triangle.
pub open spec fn touches_synthetic(t: Triangle) -> bool {
    is_synthetic(t.v(0)) || is_synthetic(t.v(1)) || is_synthetic(t.v(2))
}

/// The triangles of `tri` with no corner of the bounding triangle, in order.
pub open spec fn real_triangles(tri: Seq<Triangle>) -> Seq<Triangle> {
    tri.filter(|t: Triangle| !touches_synthetic(t))
}

/// The bounding triangle that the construction starts from.
pub open spec fn bounding_triangle() -> Triangle {
    triangle_on(synthetic_corner(0), synthetic_corner(1), synthetic_corner(2))
}

/// The working triangulation after inserting `points`, in order, into `tri`;
/// nothing when an insertion is refused.
pub open spec fn insert_all(tri: Seq<Triangle>, points: Seq<Point>) -> Option<Seq<Triangle>>
    decreases points.len(),
{
    if points.len() == 0 {
        Some(tri)
    } else {
        match insert_all(tri, points.drop_last()) {
            Some(t) => insertion(t, points.last()),
            None => None,
        }
    }
}

/// The Bowyer–Watson triangulation of `points`: every point inserted, in
/// order, into the bounding triangle, and then every triangle that touches a
/// corner of the bounding triangle dropped.
pub open spec fn bowyer_watson(points: Seq<Point>) -> Option<Seq<Triangle>> {
    match insert_all(seq![bounding_triangle()], points) {
        Some(t) => Some(real_triangles(t)),
        None => None,
    }
}

proof fn lemma_refusal_stays(tri: Seq<Triangle>, points: Seq<Point>, k: int)
    requires
        0 <= k <= points.len(),
        insert_all(tri, points.take(k)) is None,
    ensures
        insert_all(tri, points) is None,
    decreases points.len() - k,
{
    if k < points.len() {
        assert(points.take(k + 1).drop_last() =~= points.take(k));
        lemma_refusal_stays(tri, points, k + 1);
    } else {
        assert(points.take(k) =~= points);
    }
}

/// `v` is a corner of the bounding triangle or one of the first `k` points.
pub open spec fn known_vertex(v: Point, points: Seq<Point>, k: int) -> bool {
    is_synthetic(v) || exists|m: int| 0 <= m < k && points[m] == v
}

/// Every vertex of every triangle of `tri` is known after `k` insertions.
pub open spec fn vertices_known(tri: Seq<Triangle>, points: Seq<Point>, k: int) -> bool {
    forall|j: int, i: int|
        0 <= j < tri.len() && 0 <= i < 3 ==> known_vertex(#[trigger] tri[j].v(i), points, k)
}

/// What every triangulation that this library returns satisfies: each
/// triangle is well formed, has no corner of the bounding triangle, and has
/// input points for vertices.
pub open spec fn valid_output(tri: Seq<Triangle>, points: Seq<Point>) -> bool {
    forall|j: int|
        0 <= j < tri.len() ==> {
            &&& (#[trigger] tri[j]).wf()
            &&& !touches_synthetic(tri[j])
            &&& points.contains(tri[j].v(0))
            &&& points.contains(tri[j].v(1))
            &&& points.contains(tri[j].v(2))
        }
}

fn is_synthetic_point(p: &Point) -> (r: bool)
    ensures
        r == is_synthetic(*p),
{
    (p.x == -COORD_BOUND && p.y == -COORD_BOUND) || (p.x == COORD_BOUND && p.y == 0) || (p.x
        == -COORD_BOUND && p.y == COORD_BOUND)
}

/// The triangles of `tri` that have no corner of the bounding triangle.
pub fn strip_synthetic(tri: &Vec<Triangle>) -> (r: Vec<Triangle>)
    ensures
        r@ == real_triangles(tri@),
{
    let mut r: Vec<Triangle> = Vec::new();
    let mut i: usize = 0;
    while i < tri.len()
        invariant
            i <= tri.len(),
            r@ == real_triangles(tri@.take(i as int)),
        decreases tri.len() - i,
    {
        proof {
            reveal(Seq::filter);
            assert(tri@.take(i + 1).drop_last() =~= tri@.take(i as int));
            assert(tri@.take(i + 1).last() == tri@[i as int]);
        }
        let t = tri[i];
        if !(is_synthetic_point(&t.vertices[0]) || is_synthetic_point(&t.vertices[1])
            || is_synthetic_point(&t.vertices[2])) {
            r.push(t);
        }
        i = i + 1;
    }
    assert(tri@.take(tri.len() as int) =~= tri@);
    r
}

proof fn lemma_known_grows(v: Point, points: Seq<Point>, k: int)
    requires
        known_vertex(v, points, k),
    ensures
        known_vertex(v, points, k + 1),
{
    if !is_synthetic(v) {
        let m = choose|m: int| 0 <= m < k && points[m] == v;
        assert(0 <= m < k + 1 && points[m] == v);
    }
}

/// After inserting the `k`-th point, every triangle is still well formed and
/// its vertices are known after `k + 1` insertions.
proof fn lemma_insert_keeps(tri: Seq<Triangle>, next: Seq<Triangle>, points: Seq<Point>, k: int)
    requires
        0 <= k < points.len(),
        all_wf(tri),
        vertices_known(tri, points, k),
        next.len() == survivors(tri, points[k]).len() + cavity_boundary(tri, points[k]).len(),
        next.take(survivors(tri, points[k]).len() as int) == survivors(tri, points[k]),
        is_fan(
            next.skip(survivors(tri, points[k]).len() as int),
            cavity_boundary(tri, points[k]),
            points[k],
        ),
    ensures
        all_wf(next),
        vertices_known(next, points, k + 1),
{
    let p = points[k];
    let s = survivors(tri, p);
    let n = s.len() as int;
    let b = cavity_boundary(tri, p);
    let fan = next.skip(n);
    lemma_cavity_edges(tri, p);
    assert(next.len() == n + fan.len());
    assert forall|j: int| 0 <= j < next.len() implies (#[trigger] next[j]).wf() && (forall|i: int|
        0 <= i < 3 ==> known_vertex(next[j].v(i), points, k + 1)) by {
        if j < n {
            assert(next[j] == s[j]);
            let pred = |t: Triangle| !t.circle_contains(p);
            assert(tri.filter(pred).contains(s[j]));
            tri.lemma_filter_contains_rev(pred, s[j]);
            let m = choose|m: int| 0 <= m < tri.len() && tri[m] == s[j];
            assert(tri[m].wf());
            assert forall|i: int| 0 <= i < 3 implies known_vertex(next[j].v(i), points, k + 1) by {
                assert(known_vertex(tri[m].v(i), points, k));
                lemma_known_grows(tri[m].v(i), points, k);
            }
        } else {
            let q = j - n;
            assert(next[j] == fan[q]);
            assert(fan[q].wf());
            assert(is_side(tri, b[q]));
            let (m, e) = choose|m: int, e: int| 0 <= m < tri.len() && 0 <= e < 3 && tri[m].edge_at(e) == b[q];
            let e2 = (e + 1) % 3;
            assert(0 <= e2 < 3);
            assert(known_vertex(tri[m].v(e), points, k));
            assert(known_vertex(tri[m].v(e2), points, k));
            lemma_known_grows(tri[m].v(e), points, k);
            lemma_known_grows(tri[m].v(e2), points, k);
            assert(next[j].v(0) == b[q].a);
            assert(next[j].v(1) == b[q].b);
            assert(next[j].v(2) == p);
            assert(known_vertex(p, points, k + 1));
        }
    }
}

/// Every working triangulation that the construction reaches is made of
/// well-formed triangles whose vertices are corners of the bounding triangle
/// or points inserted so far.
pub proof fn lemma_insert_all_valid(points: Seq<Point>, k: int)
    requires
        0 <= k <= points.len(),
        forall|i: int| 0 <= i < points.len() ==> in_input_range(#[trigger] points[i]),
    ensures
        insert_all(seq![bounding_triangle()], points.take(k)) matches Some(t) ==> all_wf(t)
            && vertices_known(t, points, k),
    decreases k,
{
    let start = seq![bounding_triangle()];
    if k == 0 {
        assert(points.take(0) =~= Seq::<Point>::empty());
        let c0 = synthetic_corner(0);
        let c1 = synthetic_corner(1);
        let c2 = synthetic_corner(2);
        assert(det(c0, c1, c2) != 0);
        lemma_triangle_on_exists(c0, c1, c2);
        let t = bounding_triangle();
        assert(t.v(0) == c0 && t.v(1) == c1 && t.v(2) == c2);
        assert(start[0] == t);
    } else {
        lemma_insert_all_valid(points, k - 1);
        assert(points.take(k).drop_last() =~= points.take(k - 1));
        assert(points.take(k).last() == points[k - 1]);
        if let Some(tri) = insert_all(start, points.take(k - 1)) {
            let p = points[k - 1];
            assert(in_input_range(p));
            if let Some(next) = insertion(tri, p) {
                let b = cavity_boundary(tri, p);
                let n = survivors(tri, p).len() as int;
                let fan = fan_of(b, p);
                lemma_cavity_edges(tri, p);
                assert forall|q: int| 0 <= q < fan.len() implies (#[trigger] fan[q]).wf()
                    && fan[q].vertices@ == seq![b[q].a, b[q].b, p] by {
                    assert(is_side(tri, b[q]));
                    let (m, e) = choose|m: int, e: int|
                        0 <= m < tri.len() && 0 <= e < 3 && tri[m].edge_at(e) == b[q];
                    assert(tri[m].wf());
                    assert((e + 1) % 3 == 0 || (e + 1) % 3 == 1 || (e + 1) % 3 == 2);
                    assert(bounded(b[q].a) && bounded(b[q].b));
                    if det(b[q].a, b[q].b, p) == 0 {
                        assert(has_flat_edge(b, p));
                    }
                    lemma_triangle_on_exists(b[q].a, b[q].b, p);
                }
                assert(next =~= survivors(tri, p) + fan);
                assert(next.take(n) =~= survivors(tri, p));
                assert(next.skip(n) =~= fan);
                lemma_insert_keeps(tri, next, points, k - 1);
            }
        }
    }
}

/// The Bowyer–Watson construction over `points`, in order, on input that
/// has been checked. Starts from the bounding triangle, inserts each point
/// (see `insert_point`) and finally drops every triangle that touches a
/// corner of the bounding triangle.
fn run_bowyer_watson(points: &Vec<Point>) -> (r: Result<
    Vec<Triangle>,
    TriangulationError,
>)
    requires
        forall|i: int| 0 <= i < points@.len() ==> in_input_range(#[trigger] points@[i]),
    ensures
        r is Err <==> bowyer_watson(points@) is None,
        r is Err ==> r == Err::<Vec<Triangle>, TriangulationError>(
            TriangulationError::DegenerateInput,
        ),
        r matches Ok(v) ==> bowyer_watson(points@) == Some(v@),
        r matches Ok(v) ==> valid_output(v@, points@),
{
    let corners = [
        Point { x: -COORD_BOUND, y: -COORD_BOUND },
        Point { x: COORD_BOUND, y: 0 },
        Point { x: -COORD_BOUND, y: COORD_BOUND },
    ];
    let first = match build_triangle(corners) {
        Ok(t) => t,
        Err(e) => {
            return Err(e);
        },
    };
    let mut triangulation: Vec<Triangle> = Vec::new();
    triangulation.push(first);
    proof {
        assert(first.vertices@ == corners@);
        assert(triangulation@[0] == first);
        assert(is_synthetic(first.v(0)) && is_synthetic(first.v(1)) && is_synthetic(first.v(2)));
        lemma_triangle_on(first);
        assert(first.v(0) == synthetic_corner(0));
        assert(first.v(1) == synthetic_corner(1));
        assert(first.v(2) == synthetic_corner(2));
        assert(triangulation@ =~= seq![bounding_triangle()]);
        assert(points@.take(0) =~= Seq::<Point>::empty());
    }
    let mut k: usize = 0;
    while k < points.len()
        invariant
            k <= points.len(),
            forall|i: int| 0 <= i < points@.len() ==> in_input_range(#[trigger] points@[i]),
            all_wf(triangulation@),
            vertices_known(triangulation@, points@, k as int),
            insert_all(seq![bounding_triangle()], points@.take(k as int)) == Some(triangulation@),
        decreases points.len() - k,
    {
        let p = points[k];
        assert(in_input_range(points@[k as int]));
        proof {
            assert(points@.take(k + 1).drop_last() =~= points@.take(k as int));
            assert(points@.take(k + 1).last() == p);
        }
        let next = match insert_point(&triangulation, p) {
            Ok(v) => v,
            Err(e) => {
                proof {
                    lemma_refusal_stays(seq![bounding_triangle()], points@, k + 1);
                }
                return Err(e);
            },
        };
        proof {
            lemma_insert_keeps(triangulation@, next@, points@, k as int);
        }
        triangulation = next;
        k = k + 1;
    }
    let result = strip_synthetic(&triangulation);
    proof {
        assert(points@.take(points.len() as int) =~= points@);
        let pred = |t: Triangle| !touches_synthetic(t);
        assert forall|j: int| 0 <= j < result@.len() implies {
            &&& (#[trigger] result@[j]).wf()
            &&& !touches_synthetic(result@[j])
            &&& points@.contains(result@[j].v(0))
            &&& points@.contains(result@[j].v(1))
            &&& points@.contains(result@[j].v(2))
        } by {
            let t = result@[j];
            assert(triangulation@.filter(pred).contains(t));
            triangulation@.lemma_filter_contains_rev(pred, t);
            triangulation@.lemma_filter_pred(pred, j);
            let m = choose|m: int| 0 <= m < triangulation@.len() && triangulation@[m] == t;
            assert(triangulation@[m].wf());
            assert(known_vertex(triangulation@[m].v(0), points@, points@.len() as int));
            assert(known_vertex(triangulation@[m].v(1), points@, points@.len() as int));
            assert(known_vertex(triangulation@[m].v(2), points@, points@.len() as int));
        }
    }
    Ok(result)
}

/// Every point of `points` lies within the input range.
pub open spec fn all_in_input_range(points: Seq<Point>) -> bool {
    forall|i: int| 0 <= i < points.len() ==> in_input_range(#[trigger] points[i])
}

/// Some point occurs twice in `points`.
pub open spec fn has_duplicate(points: Seq<Point>) -> bool {
    exists|i: int, j: int| 0 <= i < j < points.len() && points[i] == points[j]
}

/// Every point of `points` lies on the line through the first two.
pub open spec fn on_one_line(points: Seq<Point>) -> bool {
    forall|k: int| 0 <= k < points.len() ==> det(points[0], points[1], #[trigger] points[k]) == 0
}

/// The input shapes that `triangulate` accepts: in range, at least three
/// points, no point twice, and not all on one line.
pub open spec fn acceptable(points: Seq<Point>) -> bool {
    &&& all_in_input_range(points)
    &&& points.len() >= 3
    &&& !has_duplicate(points)
    &&& !on_one_line(points)
}

/// What `triangulate` returns for `points`: the first refusal that applies,
/// else the Bowyer–Watson triangulation, or `DegenerateInput` where an
/// insertion would build a flat triangle.
pub open spec fn triangulation_of(points: Seq<Point>) -> Result<Seq<Triangle>, TriangulationError> {
    if !all_in_input_range(points) {
        Err(TriangulationError::CoordinateOutOfRange)
    } else if points.len() < 3 {
        Err(TriangulationError::InsufficientPoints)
    } else if has_duplicate(points) {
        Err(TriangulationError::CoincidentPoint)
    } else if on_one_line(points) {
        Err(TriangulationError::DegenerateInput)
    } else {
        match bowyer_watson(points) {
            Some(t) => Ok(t),
            None => Err(TriangulationError::DegenerateInput),
        }
    }
}

/// `r` is `expected`, with the vector seen as a sequence.
pub open spec fn result_is(
    r: Result<Vec<Triangle>, TriangulationError>,
    expected: Result<Seq<Triangle>, TriangulationError>,
) -> bool {
    match r {
        Ok(v) => expected == Ok::<Seq<Triangle>, TriangulationError>(v@),
        Err(e) => expected == Err::<Seq<Triangle>, TriangulationError>(e),
    }
}

/// For every triangle of `tri` and every point of `points` that is not one of
/// its vertices, the point does not lie strictly inside its circumcircle.
pub open spec fn delaunay(tri: Seq<Triangle>, points: Seq<Point>) -> bool {
    forall|j: int, m: int|
        0 <= j < tri.len() && 0 <= m < points.len() && !tri[j].has_vertex(points[m])
            ==> !(#[trigger] tri[j]).circle_strictly_contains(#[trigger] points[m])
}

fn find_out_of_range(points: &Vec<Point>) -> (r: bool)
    ensures
        r == !all_in_input_range(points@),
{
    let mut i: usize = 0;
    while i < points.len()
        invariant
            i <= points.len(),
            forall|m: int| 0 <= m < i ==> in_input_range(#[trigger] points@[m]),
        decreases points.len() - i,
    {
        let p = points[i];
        if p.x < -INPUT_BOUND || p.x > INPUT_BOUND || p.y < -INPUT_BOUND || p.y > INPUT_BOUND {
            return true;
        }
        i = i + 1;
    }
    false
}

fn find_duplicate(points: &Vec<Point>) -> (r: bool)
    ensures
        r == has_duplicate(points@),
{
    let mut j: usize = 0;
    while j < points.len()
        invariant
            j <= points.len(),
            forall|a: int, b: int| 0 <= a < b < j ==> points@[a] != points@[b],
        decreases points.len() - j,
    {
        let mut i: usize = 0;
        while i < j
            invariant
                i <= j < points.len(),
                forall|a: int| 0 <= a < i ==> points@[a] != points@[j as int],
            decreases j - i,
        {
            if points[i] == points[j] {
                return true;
            }
            i = i + 1;
        }
        j = j + 1;
    }
    false
}

fn all_on_one_line(points: &Vec<Point>) -> (r: bool)
    requires
        points@.len() >= 2,
        all_in_input_range(points@),
    ensures
        r == on_one_line(points@),
{
    let a = points[0];
    let b = points[1];
    let mut k: usize = 0;
    while k < points.len()
        invariant
            k <= points.len(),
            points@.len() >= 2,
            a == points@[0],
            b == points@[1],
            all_in_input_range(points@),
            forall|m: int| 0 <= m < k ==> det(a, b, #[trigger] points@[m]) == 0,
        decreases points.len() - k,
    {
        let c = points[k];
        assert(in_input_range(points@[k as int]));
        assert(in_input_range(points@[0]));
        assert(in_input_range(points@[1]));
        let d = 2 * cyclic_sum_i128(
            a.x as i128,
            b.x as i128,
            c.x as i128,
            a.y as i128,
            b.y as i128,
            c.y as i128,
            100_000,
        );
        if d != 0 {
            return false;
        }
        k = k + 1;
    }
    true
}

/// The Delaunay triangulation of `points`, by Bowyer–Watson.
///
/// The input is refused when a coordinate lies outside `INPUT_BOUND`
/// (`CoordinateOutOfRange`), when there are fewer than three points
/// (`InsufficientPoints`), when a point occurs twice (`CoincidentPoint`), or
/// when all points lie on one line (`DegenerateInput`), tested in that order.
/// Past those checks it is refused, with `DegenerateInput`, only where an
/// insertion would have to build a triangle on three collinear points.
pub fn bowyer_watson_triangulation(points: &Vec<Point>) -> (r: Result<
    Vec<Triangle>,
    TriangulationError,
>)
    ensures
        result_is(r, triangulation_of(points@)),
        r matches Ok(v) ==> valid_output(v@, points@),
{
    if find_out_of_range(points) {
        return Err(TriangulationError::CoordinateOutOfRange);
    }
    if points.len() < 3 {
        return Err(TriangulationError::InsufficientPoints);
    }
    if find_duplicate(points) {
        return Err(TriangulationError::CoincidentPoint);
    }
    if all_on_one_line(points) {
        return Err(TriangulationError::DegenerateInput);
    }
    run_bowyer_watson(points)
}

/// The Delaunay triangulation of `points`: see `bowyer_watson_triangulation`.
pub fn triangulate(points: &Vec<Point>) -> (r: Result<Vec<Triangle>, TriangulationError>)
    ensures
        result_is(r, triangulation_of(points@)),
        r matches Ok(v) ==> valid_output(v@, points@),
{
    bowyer_watson_triangulation(points)
}

/// Whether no point of `points` lies strictly inside the circumcircle of a
/// triangle of `tri` of which it is not a vertex.
pub fn is_delaunay(tri: &Vec<Triangle>, points: &Vec<Point>) -> (r: bool)
    requires
        all_wf(tri@),
        forall|m: int| 0 <= m < points@.len() ==> bounded(#[trigger] points@[m]),
    ensures
        r == delaunay(tri@, points@),
{
    let mut j: usize = 0;
    while j < tri.len()
        invariant
            j <= tri.len(),
            all_wf(tri@),
            forall|m: int| 0 <= m < points@.len() ==> bounded(#[trigger] points@[m]),
            forall|a: int, m: int|
                0 <= a < j && 0 <= m < points@.len() && !tri@[a].has_vertex(points@[m])
                    ==> !(#[trigger] tri@[a]).circle_strictly_contains(#[trigger] points@[m]),
        decreases tri.len() - j,
    {
        let t = tri[j];
        assert(t.wf());
        let mut m: usize = 0;
        while m < points.len()
            invariant
                j < tri.len(),
                t == tri@[j as int],
                t.wf(),
                m <= points.len(),
                forall|q: int| 0 <= q < points@.len() ==> bounded(#[trigger] points@[q]),
                forall|q: int|
                    0 <= q < m && !t.has_vertex(points@[q]) ==> !t.circle_strictly_contains(
                        #[trigger] points@[q],
                    ),
            decreases points.len() - m,
        {
            let p = points[m];
            assert(bounded(points@[m as int]));
            if !t.has_vertex_at(&p) && t.strictly_in_circumcircle(&p) {
                return false;
            }
            m = m + 1;
        }
        j = j + 1;
    }
    true
}

} // verus!
