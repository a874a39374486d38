use algeo::casteljau::{evaluate, subdivide};
use algeo::curve::BezierCurve;
use algeo::geometry::{DerivativeSpace, Point2, Vector2};

fn curve(points: &[(i128, i128)]) -> BezierCurve<Point2> {
    BezierCurve::new(points.iter().map(|&(x, y)| Point2::new(x, y)).collect())
}

fn vcurve(points: &[(i128, i128)]) -> BezierCurve<Vector2> {
    BezierCurve::new(points.iter().map(|&(x, y)| Vector2::new(x, y)).collect())
}

#[test]
fn test_evaluate() {
    let a = Point2::new(1, 0);
    let b = Point2::new(5, 1);
    let ab = curve(&[(1, 0), (5, 1)]);
    assert_eq!(evaluate(&ab, 0), a);
    assert_eq!(evaluate(&ab, 1), b);
    assert_eq!(evaluate(&ab, 2), Point2::new(9, 2));

    let a = Point2::new(0, 0);
    let c = Point2::new(1, 1);
    let abc = curve(&[(0, 0), (0, 1), (1, 1)]);
    assert_eq!(evaluate(&abc, 0), a);
    assert_eq!(evaluate(&abc, 1), c);
    // (1 - t)^2 a + 2 t (1 - t) b + t^2 c at t = 2
    assert_eq!(evaluate(&abc, 2), Point2::new(4, 0));
    assert_eq!(evaluate(&abc, -1), Point2::new(1, -3));
}

#[test]
fn evaluate_single_point() {
    let p = curve(&[(7, -3)]);
    assert_eq!(evaluate(&p, 5), Point2::new(7, -3));
}

#[test]
fn evaluate_endpoints() {
    let c = curve(&[(3, 1), (-4, 9), (6, 6), (2, -8), (11, 0)]);
    assert_eq!(evaluate(&c, 0), Point2::new(3, 1));
    assert_eq!(evaluate(&c, 1), Point2::new(11, 0));
}

fn bernstein_cubic(p: &[(i128, i128)], t: i128) -> (i128, i128) {
    let s = 1 - t;
    let w = [s * s * s, 3 * t * s * s, 3 * t * t * s, t * t * t];
    let mut x = 0;
    let mut y = 0;
    for i in 0..4 {
        x += w[i] * p[i].0;
        y += w[i] * p[i].1;
    }
    (x, y)
}

#[test]
fn evaluate_matches_bernstein_form() {
    let pts = [(0, 1), (5, 3), (3, 8), (8, 2)];
    let c = curve(&pts);
    for t in -3..=4 {
        let (x, y) = bernstein_cubic(&pts, t);
        assert_eq!(evaluate(&c, t), Point2::new(x, y));
    }
}

#[test]
fn evaluate_vector_curve() {
    let c = vcurve(&[(1, 2), (3, -4)]);
    assert_eq!(evaluate(&c, 3), Vector2::new(7, -16));
}

#[test]
fn test_subdiv() {
    let pts = [(0, 1), (5, 3), (3, 8), (8, 2)];
    let c = curve(&pts);
    let t = 2;
    let (split_a, split_b) = subdivide(&c, t);
    assert_eq!(split_a.count(), 4);
    assert_eq!(split_b.count(), 4);
    // left(s) = curve(s t), right(s) = curve(t + s (1 - t))
    assert_eq!(evaluate(&c, 0), evaluate(&split_a, 0));
    assert_eq!(evaluate(&c, 4), evaluate(&split_a, 2));
    assert_eq!(evaluate(&c, 2), evaluate(&split_a, 1));
    assert_eq!(evaluate(&c, 2), evaluate(&split_b, 0));
    assert_eq!(evaluate(&c, 0), evaluate(&split_b, 2));
    assert_eq!(evaluate(&c, 1), evaluate(&split_b, 1));
}

#[test]
fn subdivide_control_points() {
    let c = curve(&[(0, 0), (2, 4), (6, 2)]);
    let (l, r) = subdivide(&c, 1);
    // At t = 1 the first part is the whole curve and the second collapses to the end point.
    assert_eq!(l.points, c.points);
    assert_eq!(r.points, vec![Point2::new(6, 2); 3]);
    let (l, r) = subdivide(&c, 0);
    assert_eq!(l.points, vec![Point2::new(0, 0); 3]);
    assert_eq!(r.points, c.points);
}

#[test]
fn subdivide_round_trip() {
    let c = curve(&[(1, -2), (4, 7), (-3, 5), (9, 9), (2, 0)]);
    for t in -2..=3 {
        let (l, r) = subdivide(&c, t);
        let at_t = evaluate(&c, t);
        assert_eq!(evaluate(&l, 1), at_t);
        assert_eq!(evaluate(&r, 0), at_t);
    }
}

#[test]
fn test_derive() {
    let a = Point2::new(0, 0);
    let b = Point2::new(0, 1);
    let c = Point2::new(1, 1);
    let quad = curve(&[(0, 0), (0, 1), (1, 1)]);
    let derivative = algeo::casteljau::derive(&quad);
    assert_eq!(derivative.count(), 2);
    for t in [0, 1, 2, -1, 3] {
        // 2 (1 - t) (p1 - p0) + 2 t (p2 - p1)
        let expected = Vector2::new(
            2 * (1 - t) * (b.x - a.x) + 2 * t * (c.x - b.x),
            2 * (1 - t) * (b.y - a.y) + 2 * t * (c.y - b.y),
        );
        assert_eq!(evaluate(&derivative, t), expected);
    }
}

#[test]
fn derive_cubic_elements() {
    let c = curve(&[(0, 2), (4, 3), (6, 0), (9, 4)]);
    let d = algeo::casteljau::derive(&c);
    assert_eq!(
        d.points,
        vec![Vector2::new(12, 3), Vector2::new(6, -9), Vector2::new(9, 12)]
    );
}

#[test]
fn derive_single_point_is_empty() {
    let c = curve(&[(5, 5)]);
    assert_eq!(algeo::casteljau::derive(&c).count(), 0);
}

#[test]
fn container_operations() {
    let mut c = curve(&[(1, 1), (2, 2), (3, 3)]);
    assert_eq!(c.count(), 3);
    assert_eq!(c.get(1), Point2::new(2, 2));
    c.set(1, Point2::new(9, 8));
    assert_eq!(c.get(1), Point2::new(9, 8));
    let r = c.reduced();
    assert_eq!(r.points, vec![Point2::new(1, 1), Point2::new(9, 8)]);
    let d = c.duplicate();
    assert_eq!(d.points, c.points);
}

#[test]
fn point_vector_arithmetic() {
    let p = Point2::new(3, 4);
    let q = Point2::new(1, 9);
    let v = p.sub(&q);
    assert_eq!(v, Vector2::new(2, -5));
    assert_eq!(q.add_vec(&v), p);
    assert_eq!(v.scale(3), Vector2::new(6, -15));
    assert_eq!(p.to_vec(), Vector2::new(3, 4));
    assert_eq!(v.add(&Vector2::new(1, 1)), Vector2::new(3, -4));
}

#[test]
fn points_convert_to_vectors() {
    let v = Vector2::from_integral(Point2::new(4, -7));
    assert_eq!(v, Vector2::new(4, -7));
    let pts = curve(&[(1, 2), (3, 4)]);
    let vs = BezierCurve::<Vector2>::from_integral(pts);
    assert_eq!(vs.points, vec![Vector2::new(1, 2), Vector2::new(3, 4)]);
}
