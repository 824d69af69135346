//! Triangles with their circumcircles, in exact rational form.
use vstd::prelude::*;

use crate::error::TriangulationError;
use crate::geometry::{
    bounded, center_x_num, center_y_num, cyclic_sum_i128, det, lemma_center_equidistant, lemma_circle_bounds, lemma_mul_bound,
    lemma_sq_bound, scaled_dist_sq, scaled_dist_sq_i128,
    sq_norm_i128, Edge, Point,
};

verus! {

/// A triangle and its circumcircle.
///
/// The circumcenter is `(center_x / scale, center_y / scale)`, where `scale`
/// is four times the signed area of the triangle; the squared circumradius is
/// `scaled_radius_sq / (scale * scale)`.
#[derive(Clone, Copy, Debug)]
pub struct Triangle {
    pub vertices: [Point; 3],
    pub center_x: i128,
    pub center_y: i128,
    pub scale: i128,
    pub scaled_radius_sq: i128,
}

impl Triangle {
    pub open spec fn v(self, i: int) -> Point {
        self.vertices@[i]
    }

    /// The stored circumcircle is the one of the three vertices, and they are
    /// not collinear.
    pub open spec fn wf(self) -> bool {
        &&& bounded(self.v(0)) && bounded(self.v(1)) && bounded(self.v(2))
        &&& self.scale == det(self.v(0), self.v(1), self.v(2))
        &&& self.scale != 0
        &&& self.center_x == center_x_num(self.v(0), self.v(1), self.v(2))
        &&& self.center_y == center_y_num(self.v(0), self.v(1), self.v(2))
        &&& self.scaled_radius_sq == scaled_dist_sq(
            self.v(0),
            self.center_x as int,
            self.center_y as int,
            self.scale as int,
        )
    }

    /// `p` lies inside the circumcircle or on it.
    pub open spec fn circle_contains(self, p: Point) -> bool {
        scaled_dist_sq(p, self.center_x as int, self.center_y as int, self.scale as int)
            <= self.scaled_radius_sq
    }

    /// `p` lies strictly inside the circumcircle.
    pub open spec fn circle_strictly_contains(self, p: Point) -> bool {
        scaled_dist_sq(p, self.center_x as int, self.center_y as int, self.scale as int)
            < self.scaled_radius_sq
    }

    /// `p` lies on the circumcircle.
    pub open spec fn on_circle(self, p: Point) -> bool {
        scaled_dist_sq(p, self.center_x as int, self.center_y as int, self.scale as int)
            == self.scaled_radius_sq
    }

    /// `p` is one of the three vertices.
    pub open spec fn has_vertex(self, p: Point) -> bool {
        self.v(0) == p || self.v(1) == p || self.v(2) == p
    }

    /// The `i`-th side, from vertex `i` to the next one.
    pub open spec fn edge_at(self, i: int) -> Edge {
        Edge { a: self.v(i), b: self.v((i + 1) % 3) }
    }

    /// The side that starts at vertex `i` (0, 1 or 2) and ends at the next one.
    pub fn edge(&self, i: usize) -> (r: Edge)
        requires
            i < 3,
        ensures
            r == self.edge_at(i as int),
    {
        let j: usize = if i == 2 { 0 } else { i + 1 };
        Edge { a: self.vertices[i], b: self.vertices[j] }
    }

    /// Whether `p` lies inside or on the circumcircle.
    pub fn in_circumcircle(&self, p: &Point) -> (r: bool)
        requires
            self.wf(),
            bounded(*p),
        ensures
            r == self.circle_contains(*p),
    {
        proof {
            lemma_circle_bounds(self.v(0), self.v(1), self.v(2));
        }
        let d = scaled_dist_sq_i128(p, self.center_x, self.center_y, self.scale);
        d <= self.scaled_radius_sq
    }

    /// Whether `p` lies strictly inside the circumcircle.
    pub fn strictly_in_circumcircle(&self, p: &Point) -> (r: bool)
        requires
            self.wf(),
            bounded(*p),
        ensures
            r == self.circle_strictly_contains(*p),
    {
        proof {
            lemma_circle_bounds(self.v(0), self.v(1), self.v(2));
        }
        let d = scaled_dist_sq_i128(p, self.center_x, self.center_y, self.scale);
        d < self.scaled_radius_sq
    }

    /// Whether `p` is one of the three vertices.
    pub fn has_vertex_at(&self, p: &Point) -> (r: bool)
        ensures
            r == self.has_vertex(*p),
    {
        self.vertices[0] == *p || self.vertices[1] == *p || self.vertices[2] == *p
    }
}

/// Builds the triangle with the given vertices, in that order, with its
/// circumcircle. Collinear vertices have no circumcircle and are refused.
pub fn build_triangle(points: [Point; 3]) -> (r: Result<Triangle, TriangulationError>)
    requires
        bounded(points@[0]),
        bounded(points@[1]),
        bounded(points@[2]),
    ensures
        det(points@[0], points@[1], points@[2]) == 0 <==> r is Err,
        r is Err ==> r == Err::<Triangle, TriangulationError>(TriangulationError::DegenerateInput),
        r matches Ok(t) ==> t.wf() && t.vertices@ == points@,
        r matches Ok(t) ==> t.on_circle(points@[0]) && t.on_circle(points@[1]) && t.on_circle(
            points@[2],
        ),
{
    let a = points[0];
    let b = points[1];
    let c = points[2];
    let d = 2 * cyclic_sum_i128(
        a.x as i128,
        b.x as i128,
        c.x as i128,
        a.y as i128,
        b.y as i128,
        c.y as i128,
        100_000,
    );
    if d == 0 {
        return Err(TriangulationError::DegenerateInput);
    }
    let na = sq_norm_i128(a.x as i128, a.y as i128, 100_000);
    let nb = sq_norm_i128(b.x as i128, b.y as i128, 100_000);
    let nc = sq_norm_i128(c.x as i128, c.y as i128, 100_000);
    let cx = cyclic_sum_i128(na, nb, nc, a.y as i128, b.y as i128, c.y as i128, 20_000_000_000);
    let cy = cyclic_sum_i128(
        na,
        nb,
        nc,
        -(a.x as i128),
        -(b.x as i128),
        -(c.x as i128),
        20_000_000_000,
    );
    let r = scaled_dist_sq_i128(&a, cx, cy, d);
    let t = Triangle { vertices: points, center_x: cx, center_y: cy, scale: d, scaled_radius_sq: r };
    proof {
        lemma_vertices_on_circle(t);
    }
    Ok(t)
}

/// The circumcircle of a well-formed triangle passes through its three
/// vertices, so no vertex lies strictly inside it.
pub proof fn lemma_vertices_on_circle(t: Triangle)
    requires
        t.wf(),
    ensures
        t.on_circle(t.v(0)),
        t.on_circle(t.v(1)),
        t.on_circle(t.v(2)),
        !t.circle_strictly_contains(t.v(0)),
        !t.circle_strictly_contains(t.v(1)),
        !t.circle_strictly_contains(t.v(2)),
{
    lemma_center_equidistant(t.v(0), t.v(1), t.v(2));
}

/// The well-formed triangle with vertices `a`, `b`, `c`, in that order.
pub open spec fn triangle_on(a: Point, b: Point, c: Point) -> Triangle {
    choose|t: Triangle| t.wf() && t.vertices@ == seq![a, b, c]
}

/// A well-formed triangle is fixed by its vertices.
pub proof fn lemma_triangle_on(t: Triangle)
    requires
        t.wf(),
    ensures
        triangle_on(t.v(0), t.v(1), t.v(2)) == t,
{
    let a = t.v(0);
    let b = t.v(1);
    let c = t.v(2);
    assert(t.vertices@ =~= seq![a, b, c]);
    let u = triangle_on(a, b, c);
    assert(u.wf() && u.vertices@ == seq![a, b, c]);
    assert(u.vertices =~= t.vertices);
}

/// Three bounded points that are not on one line carry a well-formed
/// triangle.
pub proof fn lemma_triangle_on_exists(a: Point, b: Point, c: Point)
    requires
        bounded(a),
        bounded(b),
        bounded(c),
        det(a, b, c) != 0,
    ensures
        triangle_on(a, b, c).wf(),
        triangle_on(a, b, c).vertices@ == seq![a, b, c],
{
    lemma_circle_bounds(a, b, c);
    let cx = center_x_num(a, b, c);
    let cy = center_y_num(a, b, c);
    let d = det(a, b, c);
    lemma_mul_bound(a.x as int, d, 100_000, 120_000_000_000);
    lemma_mul_bound(a.y as int, d, 100_000, 120_000_000_000);
    lemma_sq_bound(a.x * d - cx, 24_000_000_000_000_000);
    lemma_sq_bound(a.y * d - cy, 24_000_000_000_000_000);
    let r = scaled_dist_sq(a, cx, cy, d);
    let t = Triangle {
        vertices: [a, b, c],
        center_x: cx as i128,
        center_y: cy as i128,
        scale: d as i128,
        scaled_radius_sq: r as i128,
    };
    assert(t.vertices@ =~= seq![a, b, c]);
    assert(t.wf());
}

} // verus!
