use algeo::casteljau::evaluate;
use algeo::curve::BezierCurve;
use algeo::geometry::Point2;
use algeo::implicit::{implicit_cubic, parametric_cubic};
use algeo::intersect::intersection_polynomial;
use algeo::polynomial::{Poly1x2d, Poly2x2d, Poly3, Poly3x2d};

fn eval_poly(f: &[i128], t: i128) -> i128 {
    let mut out = 0;
    let mut power = 1;
    for a in f {
        out += a * power;
        power *= t;
    }
    out
}

#[test]
fn test_poly3x2d_subst() {
    let p = Poly3x2d {
        k: 3,
        x: 2,
        y: 5,
        xy: -5,
        xx: -24,
        yy: 3,
        xxy: 9,
        xyy: -16,
        xxx: -44,
        yyy: 1,
    };
    let px = Poly3 { k: -4, x: 1, xx: 2, xxx: 3 };
    let py = Poly3 { k: 4, x: -2, xx: 7, xxx: 1 };

    let f_ref = |t: i128| p.eval(px.eval(t), py.eval(t));
    let f_subst = p.subst(&px.as_slice(), &py.as_slice());
    assert_eq!(f_subst.len(), 10);

    for i in 0..10 {
        let t = i as i128;
        assert_eq!(f_ref(t), eval_poly(&f_subst, t));
    }
}

#[test]
fn subst_cubics_agrees_with_subst() {
    let p = Poly3x2d { k: 1, x: -2, y: 3, xy: 4, xx: -5, yy: 6, xxy: -7, xyy: 8, xxx: 9, yyy: -1 };
    let px = Poly3 { k: 2, x: 0, xx: -1, xxx: 1 };
    let py = Poly3 { k: -3, x: 5, xx: 0, xxx: 2 };
    let a = p.subst(&px.as_slice(), &py.as_slice());
    let b = p.subst_cubics(&px, &py);
    assert_eq!(a, b);
    for t in -6..=6 {
        assert_eq!(eval_poly(&b, t), p.eval(px.eval(t), py.eval(t)));
    }
}

#[test]
fn subst_uneven_lengths() {
    // p(x, y) = x y + y^3, x(t) = 1 + t, y(t) = 2
    let p = Poly3x2d { k: 0, x: 0, y: 0, xy: 1, xx: 0, yy: 0, xxy: 0, xyy: 0, xxx: 0, yyy: 1 };
    let r = p.subst(&[1, 1], &[2]);
    // (1 + t) 2 + 8, padded to degree three times the longer list's degree
    assert_eq!(r, vec![10, 2, 0, 0]);
}

#[test]
fn subst_constant_polynomial() {
    let p = Poly3x2d { k: 7, x: 0, y: 0, xy: 0, xx: 0, yy: 0, xxy: 0, xyy: 0, xxx: 0, yyy: 0 };
    let r = p.subst(&[1, 2, 3, 4], &[5, 6, 7, 8]);
    assert_eq!(r, vec![7, 0, 0, 0, 0, 0, 0, 0, 0, 0]);
}

#[test]
fn poly3_eval_and_slice() {
    let p = Poly3 { k: 1, x: -2, xx: 3, xxx: -4 };
    assert_eq!(p.eval(0), 1);
    assert_eq!(p.eval(2), 1 - 4 + 12 - 32);
    assert_eq!(p.eval(-3), 1 + 6 + 27 + 108);
    assert_eq!(p.as_slice(), [1, -2, 3, -4]);
}

#[test]
fn poly3x2d_eval_terms() {
    let p = Poly3x2d { k: 1, x: 2, y: 3, xy: 4, xx: 5, yy: 6, xxy: 7, xyy: 8, xxx: 9, yyy: 10 };
    // x = 2, y = -1
    let expected = 1 + 4 - 3 - 8 + 20 + 6 - 28 + 16 + 72 - 10;
    assert_eq!(p.eval(2, -1), expected);
}

#[test]
fn linear_products() {
    let a = Poly1x2d { k: 1, x: 2, y: 3 };
    let b = Poly1x2d { k: -1, x: 4, y: 5 };
    let q = a.mul(b);
    assert_eq!(q, Poly2x2d { k: -1, x: 2, y: 2, xy: 22, xx: 8, yy: 15 });
    let c = Poly1x2d { k: 2, x: -1, y: 1 };
    let cubic = c.mul_quad(q);
    for (x, y) in [(0, 0), (1, 2), (-3, 4), (5, -2)] {
        let lin = |p: &Poly1x2d<i128>| p.k + p.x * x + p.y * y;
        let expected = lin(&a) * lin(&b) * lin(&c);
        assert_eq!(cubic.eval(x, y), expected);
    }
}

#[test]
fn sums_and_differences() {
    let a = Poly1x2d { k: 1, x: 2, y: 3 };
    let b = Poly1x2d { k: 10, x: 20, y: 30 };
    assert_eq!(a.add(b), Poly1x2d { k: 11, x: 22, y: 33 });
    assert_eq!(a.sub(b), Poly1x2d { k: -9, x: -18, y: -27 });
    assert_eq!(a.scale(-2), Poly1x2d { k: -2, x: -4, y: -6 });
    let q = Poly2x2d { k: 1, x: 1, y: 1, xy: 1, xx: 1, yy: 1 };
    let r = Poly2x2d { k: 1, x: 2, y: 3, xy: 4, xx: 5, yy: 6 };
    assert_eq!(q.add(r), Poly2x2d { k: 2, x: 3, y: 4, xy: 5, xx: 6, yy: 7 });
    assert_eq!(q.sub(r), Poly2x2d { k: 0, x: -1, y: -2, xy: -3, xx: -4, yy: -5 });
    let c = Poly3x2d { k: 1, x: 1, y: 1, xy: 1, xx: 1, yy: 1, xxy: 1, xyy: 1, xxx: 1, yyy: 1 };
    let d = Poly3x2d { k: 0, x: 1, y: 2, xy: 3, xx: 4, yy: 5, xxy: 6, xyy: 7, xxx: 8, yyy: 9 };
    assert_eq!(c.add(d), Poly3x2d { k: 1, x: 2, y: 3, xy: 4, xx: 5, yy: 6, xxy: 7, xyy: 8, xxx: 9, yyy: 10 });
    assert_eq!(c.sub(d), Poly3x2d { k: 1, x: 0, y: -1, xy: -2, xx: -3, yy: -4, xxy: -5, xyy: -6, xxx: -7, yyy: -8 });
}

fn cubic_curve() -> [Point2; 4] {
    [Point2::new(1, 0), Point2::new(5, 0), Point2::new(5, 2), Point2::new(4, 3)]
}

#[test]
fn test_parametric_cubic() {
    let curve1 = cubic_curve();
    let (p_curve1_x, p_curve1_y) = parametric_cubic(curve1);
    assert_eq!(p_curve1_x, Poly3 { k: 1, x: 12, xx: -12, xxx: 3 });
    assert_eq!(p_curve1_y, Poly3 { k: 0, x: 0, xx: 6, xxx: -3 });
    let c = BezierCurve::new(curve1.to_vec());
    for t in -5..=5 {
        let p = evaluate(&c, t);
        assert_eq!(p.x, p_curve1_x.eval(t));
        assert_eq!(p.y, p_curve1_y.eval(t));
    }
}

#[test]
fn test_implicit_cubic() {
    let curve1 = cubic_curve();
    let i_curve1 = implicit_cubic(curve1);
    let c = BezierCurve::new(curve1.to_vec());
    for t in -4..=5 {
        let curve_point = evaluate(&c, t);
        // the curve point is on the curve: the implicit equation is exactly zero
        assert_eq!(i_curve1.eval(curve_point.x, curve_point.y), 0);
        // points next to it are not
        assert_ne!(i_curve1.eval(curve_point.x, curve_point.y + 1), 0);
        assert_ne!(i_curve1.eval(curve_point.x + 1, curve_point.y), 0);
    }
}

#[test]
fn implicit_vanishes_on_control_polygon_ends() {
    let curve = [Point2::new(0, 0), Point2::new(5, 11), Point2::new(7, 2), Point2::new(16, 0)];
    let f = implicit_cubic(curve);
    assert_eq!(f.eval(0, 0), 0);
    assert_eq!(f.eval(16, 0), 0);
    assert_ne!(f.eval(5, 11), 0);
}

#[test]
fn intersection_polynomial_roots_are_shared_points() {
    // g(t) vanishes exactly where curve a meets curve b; here a passes through b's end points.
    let b = [Point2::new(0, 0), Point2::new(1, 3), Point2::new(3, 3), Point2::new(4, 0)];
    let a = [Point2::new(0, 0), Point2::new(2, -2), Point2::new(2, -2), Point2::new(4, 0)];
    let g = intersection_polynomial(a, b);
    assert_eq!(g.len(), 10);
    assert_eq!(eval_poly(&g, 0), 0);
    assert_eq!(eval_poly(&g, 1), 0);
    let fb = implicit_cubic(b);
    let (ax, ay) = parametric_cubic(a);
    for t in -3..=3 {
        assert_eq!(eval_poly(&g, t), fb.eval(ax.eval(t), ay.eval(t)));
    }
}

fn roots_in_unit_interval(g: &[i128]) -> Vec<f64> {
    let lead = g[g.len() - 1] as f64;
    let normalized: Vec<f64> = g[..g.len() - 1].iter().map(|&c| c as f64 / lead).collect();
    roots::find_roots_eigen(normalized)
        .into_iter()
        .filter(|t| *t >= 0. && *t <= 1.)
        .collect()
}

fn point_at(curve: [Point2; 4], t: f64) -> (f64, f64) {
    let (px, py) = parametric_cubic(curve);
    let e = |p: Poly3<i128>| p.k as f64 + p.x as f64 * t + p.xx as f64 * t * t + p.xxx as f64 * t * t * t;
    (e(px), e(py))
}

fn intersect(a: [Point2; 4], b: [Point2; 4]) -> Vec<(f64, f64)> {
    let g = intersection_polynomial(a, b);
    let mut pts: Vec<(f64, f64)> = roots_in_unit_interval(&g).into_iter().map(|t| point_at(a, t)).collect();
    pts.sort_by(|p, q| p.0.partial_cmp(&q.0).unwrap());
    pts
}

#[test]
fn test_intersect_cubic() {
    let curve1 = [Point2::new(0, 0), Point2::new(5, 11), Point2::new(7, 2), Point2::new(16, 0)];
    let curve2 = [Point2::new(1, 6), Point2::new(2, 0), Point2::new(14, 10), Point2::new(11, 1)];
    let ips = intersect(curve1, curve2);
    let ips2 = intersect(curve2, curve1);
    let p_ref = vec![(2.43, 4.11), (7.12, 4.54), (11.26, 1.88)];

    assert_eq!(p_ref.len(), ips.len());
    assert_eq!(ips.len(), ips2.len());

    for (i, (j, k)) in p_ref.iter().zip(ips.iter().zip(ips2.iter())) {
        assert!((i.0 - j.0).abs() <= 0.02 && (i.1 - j.1).abs() <= 0.02);
        assert!((j.0 - k.0).abs() <= 1e-5 && (j.1 - k.1).abs() <= 1e-5);
    }
}
