//! Points, undirected edges and the exact arithmetic of circumcircles.
use vstd::arithmetic::mul::{
    lemma_mul_is_associative, lemma_mul_is_distributive_add,
    lemma_mul_is_distributive_add_other_way,
};
use vstd::prelude::*;

verus! {

/// Largest magnitude of a coordinate that the circumcircle arithmetic accepts.
/// The synthetic bounding triangle has its corners at this magnitude.
pub const COORD_BOUND: i64 = 100_000;

/// A point of the plane with integer coordinates.
#[derive(Clone, Copy, Debug, PartialEq, Eq, Structural)]
pub struct Point {
    pub x: i64,
    pub y: i64,
}

/// One side of a triangle, stored in a direction.
#[derive(Clone, Copy, Debug, PartialEq, Eq, Structural)]
pub struct Edge {
    pub a: Point,
    pub b: Point,
}

/// Both coordinates lie within `COORD_BOUND` in magnitude.
pub open spec fn bounded(p: Point) -> bool {
    -COORD_BOUND <= p.x <= COORD_BOUND && -COORD_BOUND <= p.y <= COORD_BOUND
}

/// Two edges join the same pair of points, in either direction.
pub open spec fn same_edge(e: Edge, f: Edge) -> bool {
    (e.a == f.a && e.b == f.b) || (e.a == f.b && e.b == f.a)
}

/// `v` squared.
pub open spec fn sq(v: int) -> int {
    v * v
}

/// Squared Euclidean distance between two points.
pub open spec fn dist_sq(p: Point, q: Point) -> int {
    sq(p.x - q.x) + sq(p.y - q.y)
}

/// Four times the signed area of the triangle `a b c`: positive when it turns
/// left.
pub open spec fn det(a: Point, b: Point, c: Point) -> int {
    2 * cyclic_sum(a.x as int, b.x as int, c.x as int, a.y as int, b.y as int, c.y as int)
}

/// `sq(p.x) + sq(p.y)`.
pub open spec fn norm_sq(p: Point) -> int {
    sq(p.x as int) + sq(p.y as int)
}

/// Numerator of the circumcenter's x coordinate; the denominator is `det(a, b, c)`.
pub open spec fn center_x_num(a: Point, b: Point, c: Point) -> int {
    cyclic_sum(norm_sq(a), norm_sq(b), norm_sq(c), a.y as int, b.y as int, c.y as int)
}

/// Numerator of the circumcenter's y coordinate; the denominator is `det(a, b, c)`.
pub open spec fn center_y_num(a: Point, b: Point, c: Point) -> int {
    cyclic_sum(norm_sq(a), norm_sq(b), norm_sq(c), -a.x, -b.x, -c.x)
}

/// Squared distance from `p` to the point `(cx / d, cy / d)`, multiplied by `d * d`.
pub open spec fn scaled_dist_sq(p: Point, cx: int, cy: int, d: int) -> int {
    sq(p.x * d - cx) + sq(p.y * d - cy)
}

/// A product of bounded factors is bounded by the product of the bounds.
pub proof fn lemma_mul_bound(a: int, b: int, ba: int, bb: int) by (nonlinear_arith)
    requires
        -ba <= a <= ba,
        -bb <= b <= bb,
    ensures
        -(ba * bb) <= a * b <= ba * bb,
{
}

/// A square of a bounded value is bounded by the square of the bound.
pub proof fn lemma_sq_bound(a: int, ba: int) by (nonlinear_arith)
    requires
        -ba <= a <= ba,
    ensures
        0 <= sq(a) <= ba * ba,
{
}

/// `dx * dx + dy * dy`, exactly, for components within `bound`.
pub fn sq_norm_i128(dx: i128, dy: i128, bound: i128) -> (r: i128)
    requires
        0 <= bound <= 100_000_000_000_000_000,
        -bound <= dx <= bound,
        -bound <= dy <= bound,
    ensures
        r == sq(dx as int) + sq(dy as int),
        0 <= r <= 2 * bound * bound,
{
    proof {
        lemma_sq_bound(dx as int, bound as int);
        lemma_sq_bound(dy as int, bound as int);
        assert(bound * bound <= 100_000_000_000_000_000 * 100_000_000_000_000_000) by (nonlinear_arith)
            requires 0 <= bound <= 100_000_000_000_000_000;
        assert(2 * bound * bound == bound * bound + bound * bound) by (nonlinear_arith);
    }
    dx * dx + dy * dy
}

/// `w0 (u1 - u2) + w1 (u2 - u0) + w2 (u0 - u1)`: the shape shared by the
/// determinant and both circumcenter numerators.
pub open spec fn cyclic_sum(w0: int, w1: int, w2: int, u0: int, u1: int, u2: int) -> int {
    w0 * (u1 - u2) + w1 * (u2 - u0) + w2 * (u0 - u1)
}

/// `cyclic_sum` over machine integers, for weights within `wb` and values
/// within `COORD_BOUND`.
pub fn cyclic_sum_i128(w0: i128, w1: i128, w2: i128, u0: i128, u1: i128, u2: i128, wb: i128) -> (r:
    i128)
    requires
        0 <= wb <= 20_000_000_000,
        -wb <= w0 <= wb,
        -wb <= w1 <= wb,
        -wb <= w2 <= wb,
        -100_000 <= u0 <= 100_000,
        -100_000 <= u1 <= 100_000,
        -100_000 <= u2 <= 100_000,
    ensures
        r == cyclic_sum(w0 as int, w1 as int, w2 as int, u0 as int, u1 as int, u2 as int),
        -(600_000 * wb) <= r <= 600_000 * wb,
{
    proof {
        lemma_cyclic_sum_bound(w0 as int, w1 as int, w2 as int, u0 as int, u1 as int, u2 as int, wb as int);
        lemma_mul_bound(w0 as int, (u1 - u2) as int, wb as int, 200_000);
        lemma_mul_bound(w1 as int, (u2 - u0) as int, wb as int, 200_000);
    }
    w0 * (u1 - u2) + w1 * (u2 - u0) + w2 * (u0 - u1)
}

/// The bound that `cyclic_sum_i128` ensures, for `int` arguments.
pub proof fn lemma_cyclic_sum_bound(w0: int, w1: int, w2: int, u0: int, u1: int, u2: int, wb: int)
    requires
        0 <= wb,
        -wb <= w0 <= wb,
        -wb <= w1 <= wb,
        -wb <= w2 <= wb,
        -100_000 <= u0 <= 100_000,
        -100_000 <= u1 <= 100_000,
        -100_000 <= u2 <= 100_000,
    ensures
        -(600_000 * wb) <= cyclic_sum(w0, w1, w2, u0, u1, u2) <= 600_000 * wb,
{
    lemma_mul_bound(w0, u1 - u2, wb, 200_000);
    lemma_mul_bound(w1, u2 - u0, wb, 200_000);
    lemma_mul_bound(w2, u0 - u1, wb, 200_000);
    assert(wb * 200_000 == 200_000 * wb) by (nonlinear_arith);
}

/// The determinant and the circumcenter numerators of bounded points fit the
/// ranges that the exact arithmetic is written for.
pub proof fn lemma_circle_bounds(a: Point, b: Point, c: Point)
    requires
        bounded(a),
        bounded(b),
        bounded(c),
    ensures
        -120_000_000_000 <= det(a, b, c) <= 120_000_000_000,
        -12_000_000_000_000_000 <= center_x_num(a, b, c) <= 12_000_000_000_000_000,
        -12_000_000_000_000_000 <= center_y_num(a, b, c) <= 12_000_000_000_000_000,
{
    lemma_cyclic_sum_bound(a.x as int, b.x as int, c.x as int, a.y as int, b.y as int, c.y as int, 100_000);
    lemma_sq_bound(a.x as int, 100_000);
    lemma_sq_bound(a.y as int, 100_000);
    lemma_sq_bound(b.x as int, 100_000);
    lemma_sq_bound(b.y as int, 100_000);
    lemma_sq_bound(c.x as int, 100_000);
    lemma_sq_bound(c.y as int, 100_000);
    lemma_cyclic_sum_bound(norm_sq(a), norm_sq(b), norm_sq(c), a.y as int, b.y as int, c.y as int, 20_000_000_000);
    lemma_cyclic_sum_bound(norm_sq(a), norm_sq(b), norm_sq(c), -a.x, -b.x, -c.x, 20_000_000_000);
}

/// `scaled_dist_sq(p, cx, cy, d)` computed exactly.
pub fn scaled_dist_sq_i128(p: &Point, cx: i128, cy: i128, d: i128) -> (r: i128)
    requires
        bounded(*p),
        -12_000_000_000_000_000 <= cx <= 12_000_000_000_000_000,
        -12_000_000_000_000_000 <= cy <= 12_000_000_000_000_000,
        -120_000_000_000 <= d <= 120_000_000_000,
    ensures
        r == scaled_dist_sq(*p, cx as int, cy as int, d as int),
        r >= 0,
{
    proof {
        lemma_mul_bound(p.x as int, d as int, 100_000, 120_000_000_000);
        lemma_mul_bound(p.y as int, d as int, 100_000, 120_000_000_000);
    }
    let dx = p.x as i128 * d - cx;
    let dy = p.y as i128 * d - cy;
    sq_norm_i128(dx, dy, 24_000_000_000_000_000)
}

impl Point {
    /// Squared Euclidean distance to `other`.
    pub fn squared_distance_to(&self, other: &Point) -> (r: i128)
        requires
            bounded(*self),
            bounded(*other),
        ensures
            r == dist_sq(*self, *other),
    {
        let dx = self.x as i128 - other.x as i128;
        let dy = self.y as i128 - other.y as i128;
        sq_norm_i128(dx, dy, 200_000)
    }
}

impl Edge {
    /// Whether `other` joins the same two points, in either direction.
    pub fn same_as(&self, other: &Edge) -> (r: bool)
        ensures
            r == same_edge(*self, *other),
    {
        (self.a == other.a && self.b == other.b) || (self.a == other.b && self.b == other.a)
    }
}

/// The point `(center_x_num / det, center_y_num / det)` is at the same
/// distance from the three points: it is their circumcenter.
pub proof fn lemma_center_equidistant(a: Point, b: Point, c: Point)
    ensures
        scaled_dist_sq(b, center_x_num(a, b, c), center_y_num(a, b, c), det(a, b, c))
            == scaled_dist_sq(a, center_x_num(a, b, c), center_y_num(a, b, c), det(a, b, c)),
        scaled_dist_sq(c, center_x_num(a, b, c), center_y_num(a, b, c), det(a, b, c))
            == scaled_dist_sq(a, center_x_num(a, b, c), center_y_num(a, b, c), det(a, b, c)),
{
    lemma_equidistant_ring(
        a.x as int, a.y as int, b.x as int, b.y as int, c.x as int, c.y as int,
        center_x_num(a, b, c), center_y_num(a, b, c), det(a, b, c),
    );
    lemma_equidistant_ring(
        c.x as int, c.y as int, a.x as int, a.y as int, b.x as int, b.y as int,
        center_x_num(a, b, c), center_y_num(a, b, c), det(a, b, c),
    );
}

proof fn lemma_sq_diff(p: int, q: int, u: int) by (nonlinear_arith)
    ensures
        (p - u) * (p - u) - (q - u) * (q - u) == p * p - q * q - 2 * (u * (p - q)),
{
}

proof fn lemma_scaled_sq(b: int, d: int) by (nonlinear_arith)
    ensures
        (b * d) * (b * d) == (d * d) * (b * b),
{
}

proof fn lemma_scaled_dot(u: int, b: int, a: int, d: int) by (nonlinear_arith)
    ensures
        u * (b * d - a * d) == d * (u * (b - a)),
{
}

proof fn lemma_factor(dd: int, d: int, h: int, x: int, y: int) by (nonlinear_arith)
    requires
        dd == d * d,
        d == 2 * h,
        y == h * x,
    ensures
        dd * x - 2 * (d * y) == 0,
{
}

proof fn lemma_distribute(k: int, a: int, b: int, c: int, e: int) by (nonlinear_arith)
    ensures
        k * a - k * b + k * c - k * e == k * ((a + c) - (b + e)),
        2 * (k * a) + 2 * (k * b) == 2 * (k * (a + b)),
{
}

proof fn lemma_spread(na: int, nb: int, nc: int, a: int, b: int, c: int, x: int)
    ensures
        (na * a + nb * b + nc * c) * x == na * (a * x) + nb * (b * x) + nc * (c * x),
{
    lemma_mul_is_distributive_add_other_way(x, na * a + nb * b, nc * c);
    lemma_mul_is_distributive_add_other_way(x, na * a, nb * b);
    lemma_mul_is_associative(na, a, x);
    lemma_mul_is_associative(nb, b, x);
    lemma_mul_is_associative(nc, c, x);
}

proof fn lemma_combine(
    na: int, nb: int, nc: int, a1: int, b1: int, c1: int, a2: int, b2: int, c2: int, x: int, y: int,
)
    ensures
        (na * a1 + nb * b1 + nc * c1) * x + (na * a2 + nb * b2 + nc * c2) * y == na * (a1 * x + a2
            * y) + nb * (b1 * x + b2 * y) + nc * (c1 * x + c2 * y),
{
    lemma_spread(na, nb, nc, a1, b1, c1, x);
    lemma_spread(na, nb, nc, a2, b2, c2, y);
    lemma_mul_is_distributive_add(na, a1 * x, a2 * y);
    lemma_mul_is_distributive_add(nb, b1 * x, b2 * y);
    lemma_mul_is_distributive_add(nc, c1 * x, c2 * y);
}

proof fn lemma_coefficients(ax: int, ay: int, bx: int, by: int, cx: int, cy: int) by (nonlinear_arith)
    ensures
        (by - cy) * (bx - ax) + (-bx - -cx) * (by - ay) == -(ax * (by - cy) + bx * (cy - ay) + cx
            * (ay - by)),
        (cy - ay) * (bx - ax) + (-cx - -ax) * (by - ay) == ax * (by - cy) + bx * (cy - ay) + cx * (
        ay - by),
        (ay - by) * (bx - ax) + (-ax - -bx) * (by - ay) == 0,
{
}

proof fn lemma_scale3(na: int, nb: int, nc: int, h: int) by (nonlinear_arith)
    ensures
        na * (-h) + nb * h + nc * 0 == h * (nb - na),
{
}

/// `(p - a) . (ux, uy) == h * (|p|^2 - |a|^2)` for `p == b`, where `(ux, uy)`
/// is the circumcenter numerator and `h` half the determinant.
proof fn lemma_center_dot(
    ax: int, ay: int, bx: int, by: int, cx: int, cy: int, na: int, nb: int, nc: int,
)
    ensures
        (na * (by - cy) + nb * (cy - ay) + nc * (ay - by)) * (bx - ax) + (na * (-bx - -cx) + nb * (
        -cx - -ax) + nc * (-ax - -bx)) * (by - ay) == (ax * (by - cy) + bx * (cy - ay) + cx * (ay
            - by)) * (nb - na),
{
    let h = ax * (by - cy) + bx * (cy - ay) + cx * (ay - by);
    lemma_combine(na, nb, nc, by - cy, cy - ay, ay - by, -bx - -cx, -cx - -ax, -ax - -bx, bx - ax, by - ay);
    lemma_coefficients(ax, ay, bx, by, cx, cy);
    lemma_scale3(na, nb, nc, h);
}

proof fn lemma_equidistant_ring(
    ax: int, ay: int, bx: int, by: int, cx: int, cy: int, ux: int, uy: int, d: int,
)
    requires
        d == 2 * (ax * (by - cy) + bx * (cy - ay) + cx * (ay - by)),
        ux == (ax * ax + ay * ay) * (by - cy) + (bx * bx + by * by) * (cy - ay) + (cx * cx + cy * cy) * (ay - by),
        uy == (ax * ax + ay * ay) * (-bx - -cx) + (bx * bx + by * by) * (-cx - -ax) + (cx * cx + cy * cy) * (-ax - -bx),
    ensures
        (bx * d - ux) * (bx * d - ux) + (by * d - uy) * (by * d - uy)
            == (ax * d - ux) * (ax * d - ux) + (ay * d - uy) * (ay * d - uy),
{
    let na = ax * ax + ay * ay;
    let nb = bx * bx + by * by;
    let nc = cx * cx + cy * cy;
    let h = ax * (by - cy) + bx * (cy - ay) + cx * (ay - by);
    lemma_center_dot(ax, ay, bx, by, cx, cy, na, nb, nc);
    let dot = ux * (bx - ax) + uy * (by - ay);
    lemma_sq_diff(bx * d, ax * d, ux);
    lemma_sq_diff(by * d, ay * d, uy);
    lemma_scaled_sq(bx, d);
    lemma_scaled_sq(ax, d);
    lemma_scaled_sq(by, d);
    lemma_scaled_sq(ay, d);
    lemma_scaled_dot(ux, bx, ax, d);
    lemma_scaled_dot(uy, by, ay, d);
    lemma_distribute(d * d, bx * bx, ax * ax, by * by, ay * ay);
    lemma_distribute(d, ux * (bx - ax), 0, 0, 0);
    lemma_distribute(d, ux * (bx - ax), uy * (by - ay), 0, 0);
    lemma_factor(d * d, d, h, nb - na, dot);
}

} // verus!
