use delaunay::boundary::add_boundary_edge;
use delaunay::error::TriangulationError;
use delaunay::geometry::{Edge, Point};
use delaunay::insertion::insert_point;
use delaunay::triangle::{build_triangle, Triangle};
use delaunay::triangulation::{
    bowyer_watson_triangulation, is_delaunay, strip_synthetic, triangulate,
};

fn pt(x: i64, y: i64) -> Point {
    Point { x, y }
}

fn scattered() -> Vec<Point> {
    vec![pt(10, 12), pt(8, -1), pt(4, 2), pt(10, 6), pt(0, 0), pt(15, -3)]
}

fn sorted_vertices(t: &Triangle) -> Vec<(i64, i64)> {
    let mut v: Vec<(i64, i64)> = t.vertices.iter().map(|p| (p.x, p.y)).collect();
    v.sort();
    v
}

fn normalized(ts: &[Triangle]) -> Vec<Vec<(i64, i64)>> {
    let mut all: Vec<Vec<(i64, i64)>> = ts.iter().map(sorted_vertices).collect();
    all.sort();
    all
}

fn cross(o: (i64, i64), a: (i64, i64), b: (i64, i64)) -> i64 {
    (a.0 - o.0) * (b.1 - o.1) - (a.1 - o.1) * (b.0 - o.0)
}

/// Twice the area of the convex hull, by the monotone chain.
fn doubled_hull_area(points: &[Point]) -> i64 {
    let mut p: Vec<(i64, i64)> = points.iter().map(|q| (q.x, q.y)).collect();
    p.sort();
    p.dedup();
    let mut lower: Vec<(i64, i64)> = Vec::new();
    for &q in &p {
        while lower.len() >= 2 && cross(lower[lower.len() - 2], lower[lower.len() - 1], q) <= 0 {
            lower.pop();
        }
        lower.push(q);
    }
    let mut upper: Vec<(i64, i64)> = Vec::new();
    for &q in p.iter().rev() {
        while upper.len() >= 2 && cross(upper[upper.len() - 2], upper[upper.len() - 1], q) <= 0 {
            upper.pop();
        }
        upper.push(q);
    }
    lower.pop();
    upper.pop();
    let hull: Vec<(i64, i64)> = lower.into_iter().chain(upper).collect();
    let mut sum = 0;
    for i in 0..hull.len() {
        let a = hull[i];
        let b = hull[(i + 1) % hull.len()];
        sum += a.0 * b.1 - b.0 * a.1;
    }
    sum.abs()
}

/// Twice the total area of the triangles: `scale` is four times a triangle's signed area.
fn doubled_area(ts: &[Triangle]) -> i64 {
    ts.iter().map(|t| (t.scale.abs() / 2) as i64).sum()
}

#[test]
fn three_points_give_one_triangle() {
    let points = vec![pt(0, 0), pt(4, 0), pt(0, 4)];
    let ts = triangulate(&points).unwrap();
    assert_eq!(ts.len(), 1);
    assert_eq!(sorted_vertices(&ts[0]), vec![(0, 0), (0, 4), (4, 0)]);
    let t = ts[0];
    assert_eq!(t.center_x % t.scale, 0);
    assert_eq!(t.center_x / t.scale, 2);
    assert_eq!(t.center_y / t.scale, 2);
    assert_eq!(t.scaled_radius_sq % (t.scale * t.scale), 0);
    assert_eq!(t.scaled_radius_sq / (t.scale * t.scale), 8);
}

#[test]
fn build_triangle_circumcircle() {
    let t = build_triangle([pt(0, 0), pt(4, 0), pt(0, 4)]).unwrap();
    assert_eq!(t.scale, 32);
    assert_eq!(t.center_x, 64);
    assert_eq!(t.center_y, 64);
    assert_eq!(t.scaled_radius_sq, 8 * 32 * 32);
    assert!(t.in_circumcircle(&pt(4, 4)));
    assert!(!t.strictly_in_circumcircle(&pt(4, 4)));
    assert!(t.strictly_in_circumcircle(&pt(1, 1)));
    assert!(!t.in_circumcircle(&pt(5, 5)));
    assert_eq!(pt(0, 0).squared_distance_to(&pt(3, 4)), 25);
}

#[test]
fn build_triangle_refuses_collinear() {
    let r = build_triangle([pt(0, 0), pt(1, 1), pt(2, 2)]);
    assert_eq!(r.err(), Some(TriangulationError::DegenerateInput));
}

#[test]
fn square_gives_two_triangles() {
    let points = vec![pt(0, 0), pt(4, 0), pt(4, 4), pt(0, 4)];
    let ts = triangulate(&points).unwrap();
    assert_eq!(ts.len(), 2);
    assert_eq!(doubled_area(&ts), 32);
    assert_eq!(doubled_hull_area(&points), 32);
}

#[test]
fn scattered_points_are_delaunay() {
    let points = scattered();
    let ts = triangulate(&points).unwrap();
    assert!(!ts.is_empty());
    assert!(is_delaunay(&ts, &points));
    for t in &ts {
        for v in t.vertices.iter() {
            assert!(v.x.abs() <= 10_000 && v.y.abs() <= 10_000);
            assert!(points.contains(v));
        }
    }
}

#[test]
fn scattered_points_every_point_is_a_vertex() {
    let points = scattered();
    let ts = triangulate(&points).unwrap();
    for p in &points {
        assert!(ts.iter().any(|t| t.vertices.contains(p)));
    }
}

#[test]
fn scattered_points_cover_the_hull() {
    let points = scattered();
    let ts = triangulate(&points).unwrap();
    assert_eq!(doubled_area(&ts), doubled_hull_area(&points));
}

#[test]
fn repeated_runs_agree() {
    let points = scattered();
    let a = triangulate(&points).unwrap();
    let b = triangulate(&points).unwrap();
    assert_eq!(a.len(), b.len());
    for (s, t) in a.iter().zip(b.iter()) {
        assert_eq!(s.vertices, t.vertices);
        assert_eq!(s.scaled_radius_sq, t.scaled_radius_sq);
    }
}

#[test]
fn triangulating_the_vertices_again_gives_the_same_triangles() {
    let ts = triangulate(&scattered()).unwrap();
    let mut vertices: Vec<Point> = Vec::new();
    for t in &ts {
        for v in t.vertices.iter() {
            if !vertices.contains(v) {
                vertices.push(*v);
            }
        }
    }
    let again = triangulate(&vertices).unwrap();
    assert_eq!(normalized(&ts), normalized(&again));
}

#[test]
fn two_points_are_refused() {
    let r = triangulate(&vec![pt(0, 0), pt(1, 1)]);
    assert_eq!(r.err(), Some(TriangulationError::InsufficientPoints));
    let r = triangulate(&Vec::new());
    assert_eq!(r.err(), Some(TriangulationError::InsufficientPoints));
}

#[test]
fn collinear_points_are_refused() {
    let r = triangulate(&vec![pt(0, 0), pt(1, 1), pt(2, 2)]);
    assert_eq!(r.err(), Some(TriangulationError::DegenerateInput));
}

#[test]
fn duplicate_points_are_refused() {
    let r = triangulate(&vec![pt(0, 0), pt(4, 0), pt(0, 4), pt(4, 0)]);
    assert_eq!(r.err(), Some(TriangulationError::CoincidentPoint));
}

#[test]
fn far_points_are_refused() {
    let r = triangulate(&vec![pt(0, 0), pt(10_001, 0), pt(0, 4)]);
    assert_eq!(r.err(), Some(TriangulationError::CoordinateOutOfRange));
    let ok = triangulate(&vec![pt(-10_000, -10_000), pt(10_000, -10_000), pt(0, 10_000)]);
    assert_eq!(ok.unwrap().len(), 1);
}

#[test]
fn shared_edge_cancels_in_either_direction() {
    let e = Edge { a: pt(0, 0), b: pt(1, 0) };
    let f = Edge { a: pt(1, 0), b: pt(2, 2) };
    let mut outer: Vec<Edge> = Vec::new();
    let mut seen: Vec<Edge> = Vec::new();
    add_boundary_edge(&mut outer, &mut seen, e);
    add_boundary_edge(&mut outer, &mut seen, f);
    add_boundary_edge(&mut outer, &mut seen, Edge { a: e.b, b: e.a });
    assert_eq!(outer, vec![f]);
    assert_eq!(seen, vec![e, f]);
}

#[test]
fn is_delaunay_detects_a_point_inside() {
    let t = build_triangle([pt(0, 0), pt(4, 0), pt(0, 4)]).unwrap();
    assert!(!is_delaunay(&vec![t], &vec![pt(1, 1)]));
    assert!(is_delaunay(&vec![t], &vec![pt(4, 4), pt(0, 0)]));
}

fn grid(n: i64) -> Vec<Point> {
    let mut v = Vec::new();
    for i in 0..n {
        for j in 0..n {
            v.push(pt(3 * i, 3 * j));
        }
    }
    v
}

fn cloud(n: usize, seed: u64) -> Vec<Point> {
    let mut state = seed;
    let mut v: Vec<Point> = Vec::new();
    while v.len() < n {
        state = state.wrapping_mul(6364136223846793005).wrapping_add(1442695040888963407);
        let x = ((state >> 33) % 2001) as i64 - 1000;
        state = state.wrapping_mul(6364136223846793005).wrapping_add(1442695040888963407);
        let y = ((state >> 33) % 2001) as i64 - 1000;
        let p = pt(x, y);
        if !v.contains(&p) {
            v.push(p);
        }
    }
    v
}

#[test]
fn grid_of_cocircular_points() {
    let points = grid(5);
    let ts = triangulate(&points).unwrap();
    assert!(is_delaunay(&ts, &points));
    assert_eq!(ts.len(), 32);
    assert_eq!(doubled_area(&ts), doubled_hull_area(&points));
    for p in &points {
        assert!(ts.iter().any(|t| t.vertices.contains(p)));
    }
}

#[test]
fn random_cloud_properties() {
    let points = cloud(60, 7);
    let ts = triangulate(&points).unwrap();
    assert!(is_delaunay(&ts, &points));
    assert_eq!(doubled_area(&ts), doubled_hull_area(&points));
    for p in &points {
        assert!(ts.iter().any(|t| t.vertices.contains(p)));
    }
    let mut vertices: Vec<Point> = Vec::new();
    for t in &ts {
        for v in t.vertices.iter() {
            if !vertices.contains(v) {
                vertices.push(*v);
            }
        }
    }
    let again = triangulate(&vertices).unwrap();
    assert_eq!(normalized(&ts), normalized(&again));
}

#[test]
fn inserting_an_inner_point_splits_the_triangle() {
    let t = build_triangle([pt(0, 0), pt(9, 0), pt(0, 9)]).unwrap();
    assert_eq!(t.edge(2), Edge { a: pt(0, 9), b: pt(0, 0) });
    let next = insert_point(&vec![t], pt(2, 2)).unwrap();
    assert_eq!(next.len(), 3);
    for (k, s) in next.iter().enumerate() {
        assert_eq!(s.vertices[0], t.vertices[k]);
        assert_eq!(s.vertices[1], t.vertices[(k + 1) % 3]);
        assert_eq!(s.vertices[2], pt(2, 2));
    }
    assert_eq!(strip_synthetic(&next).len(), 3);
    let far = build_triangle([pt(-100_000, -100_000), pt(100_000, 0), pt(0, 5)]).unwrap();
    assert_eq!(strip_synthetic(&vec![far, t]).len(), 1);
}

#[test]
fn bowyer_watson_refuses_collinear_points() {
    let r = bowyer_watson_triangulation(&vec![pt(0, 0), pt(1, 0), pt(2, 0)]);
    assert_eq!(r.err(), Some(TriangulationError::DegenerateInput));
}

#[test]
fn bowyer_watson_refuses_shapes_it_cannot_take() {
    let r = bowyer_watson_triangulation(&vec![pt(0, 0), pt(4, 0), pt(0, 4), pt(0, 0)]);
    assert_eq!(r.err(), Some(TriangulationError::CoincidentPoint));
    let r = bowyer_watson_triangulation(&vec![pt(0, 0), pt(4, 0)]);
    assert_eq!(r.err(), Some(TriangulationError::InsufficientPoints));
    let r = bowyer_watson_triangulation(&vec![pt(0, 0), pt(4, 0), pt(0, 40_000)]);
    assert_eq!(r.err(), Some(TriangulationError::CoordinateOutOfRange));
}

#[test]
fn bowyer_watson_on_scattered_points() {
    let points = scattered();
    let ts = bowyer_watson_triangulation(&points).unwrap();
    assert!(is_delaunay(&ts, &points));
    assert_eq!(normalized(&ts), normalized(&triangulate(&points).unwrap()));
}
