//! Parametric and implicit forms of planar cubic Bézier curves.
//!
//! The implicit form follows Sederberg's construction: six lines through pairs of control
//! points, weighted by binomial coefficients, fill a symmetric 3x3 matrix whose determinant
//! vanishes exactly on the curve.
use crate::coeffs::{abs, lemma_mul_abs_le, lemma_mul_le};
use crate::curve::{bezier_eval, step, xs, ys};
use crate::geometry::Point2;
use crate::polynomial::{Poly1x2d, Poly2x2d, Poly3, Poly3x2d};
use vstd::prelude::*;

verus! {

/// Coordinate magnitude up to which a cubic is put into power-basis form.
pub const PARAM_COORD_BOUND: i128 = 1329227995784915872903807060280344576;

/// Coordinate magnitude up to which a cubic is implicitized.
pub const IMPLICIT_COORD_BOUND: i128 = 65536;

pub open spec fn coord_bounded(p: Point2, c: int) -> bool {
    abs(p.x as int) <= c && abs(p.y as int) <= c
}

/// The binomial coefficient `n choose k`, by Pascal's rule.
pub open spec fn binom(n: nat, k: nat) -> nat
    decreases n,
{
    if k == 0 {
        1
    } else if n == 0 {
        0
    } else {
        binom((n - 1) as nat, (k - 1) as nat) + binom((n - 1) as nat, k)
    }
}

/// The power-basis coefficients of one coordinate of a cubic with control values `a, b, c, d`.
pub open spec fn spec_parametric(a: int, b: int, c: int, d: int) -> Poly3<int> {
    Poly3 { k: a, x: 3 * b - 3 * a, xx: 3 * a - 6 * b + 3 * c, xxx: 3 * b - a - 3 * c + d }
}

/// The power-basis form of a cubic agrees with De Casteljau's construction everywhere.
pub proof fn lemma_parametric_agrees(a: int, b: int, c: int, d: int, t: int)
    ensures
        spec_parametric(a, b, c, d).spec_eval(t) == bezier_eval(seq![a, b, c, d], t),
{
    let s = seq![a, b, c, d];
    let s1 = step(s, t);
    let s2 = step(s1, t);
    let s3 = step(s2, t);
    assert(s1 =~= seq![a + t * (b - a), b + t * (c - b), c + t * (d - c)]);
    assert(s2 =~= seq![
        s1[0] + t * (s1[1] - s1[0]),
        s1[1] + t * (s1[2] - s1[1]),
    ]);
    assert(s3 =~= seq![s2[0] + t * (s2[1] - s2[0])]);
    assert(bezier_eval(s, t) == bezier_eval(s1, t));
    assert(bezier_eval(s1, t) == bezier_eval(s2, t));
    assert(bezier_eval(s2, t) == bezier_eval(s3, t));
    assert(bezier_eval(s3, t) == s3[0]);
    let e0 = a + 2 * t * (b - a) + t * t * (a - 2 * b + c);
    let e1 = b + 2 * t * (c - b) + t * t * (b - 2 * c + d);
    assert(s2[0] == e0) by (nonlinear_arith)
        requires
            s2[0] == s1[0] + t * (s1[1] - s1[0]),
            s1[0] == a + t * (b - a),
            s1[1] == b + t * (c - b),
            e0 == a + 2 * t * (b - a) + t * t * (a - 2 * b + c),
    ;
    assert(s2[1] == e1) by (nonlinear_arith)
        requires
            s2[1] == s1[1] + t * (s1[2] - s1[1]),
            s1[1] == b + t * (c - b),
            s1[2] == c + t * (d - c),
            e1 == b + 2 * t * (c - b) + t * t * (b - 2 * c + d),
    ;
    let u = a - 2 * b + c;
    let v = -a + 3 * b - 3 * c + d;
    let diff = (b - a) + 2 * t * u + t * t * v;
    assert(e1 - e0 == diff) by (nonlinear_arith)
        requires
            e0 == a + 2 * t * (b - a) + t * t * (a - 2 * b + c),
            e1 == b + 2 * t * (c - b) + t * t * (b - 2 * c + d),
            u == a - 2 * b + c,
            v == -a + 3 * b - 3 * c + d,
            diff == (b - a) + 2 * t * u + t * t * v,
    ;
    assert(t * diff == t * (b - a) + 2 * t * t * u + t * t * t * v) by (nonlinear_arith)
        requires
            diff == (b - a) + 2 * t * u + t * t * v,
    ;
    assert(s3[0] == a + 3 * t * (b - a) + 3 * t * t * u + t * t * t * v) by (nonlinear_arith)
        requires
            s3[0] == e0 + t * (e1 - e0),
            e1 - e0 == diff,
            t * diff == t * (b - a) + 2 * t * t * u + t * t * t * v,
            e0 == a + 2 * t * (b - a) + t * t * u,
    ;
    let p = spec_parametric(a, b, c, d);
    assert(p.spec_eval(t) == a + 3 * t * (b - a) + 3 * t * t * u + t * t * t * v)
        by (nonlinear_arith)
        requires
            p.k == a,
            p.x == -3 * a + 3 * b,
            p.xx == 3 * u,
            p.xxx == v,
            p.spec_eval(t) == p.k + p.x * t + p.xx * t * t + p.xxx * t * t * t,
    ;
}

/// One coordinate of a cubic in power-basis form.
fn parametric_axis(a: i128, b: i128, c: i128, d: i128) -> (r: Poly3<i128>)
    requires
        abs(a as int) <= PARAM_COORD_BOUND,
        abs(b as int) <= PARAM_COORD_BOUND,
        abs(c as int) <= PARAM_COORD_BOUND,
        abs(d as int) <= PARAM_COORD_BOUND,
    ensures
        r@ == spec_parametric(a as int, b as int, c as int, d as int),
{
    Poly3 { k: a, x: 3 * b - 3 * a, xx: 3 * a - 6 * b + 3 * c, xxx: 3 * b - a - 3 * c + d }
}

/// The parametric form `(x(t), y(t))` of a planar cubic Bézier curve, each coordinate a cubic
/// polynomial in `t` that agrees with the curve for every `t`.
pub fn parametric_cubic(curve: [Point2; 4]) -> (r: (Poly3<i128>, Poly3<i128>))
    requires
        forall|i: int| 0 <= i < 4 ==> coord_bounded(#[trigger] curve@[i], PARAM_COORD_BOUND as int),
    ensures
        r.0@ == spec_parametric(curve@[0].x as int, curve@[1].x as int, curve@[2].x as int, curve@[3].x as int),
        r.1@ == spec_parametric(curve@[0].y as int, curve@[1].y as int, curve@[2].y as int, curve@[3].y as int),
        forall|t: int| #[trigger] r.0@.spec_eval(t) == bezier_eval(xs(curve@), t),
        forall|t: int| #[trigger] r.1@.spec_eval(t) == bezier_eval(ys(curve@), t),
{
    let a = curve[0];
    let b = curve[1];
    let c = curve[2];
    let d = curve[3];
    assert(coord_bounded(curve@[0], PARAM_COORD_BOUND as int));
    assert(coord_bounded(curve@[1], PARAM_COORD_BOUND as int));
    assert(coord_bounded(curve@[2], PARAM_COORD_BOUND as int));
    assert(coord_bounded(curve@[3], PARAM_COORD_BOUND as int));
    let r = (parametric_axis(a.x, b.x, c.x, d.x), parametric_axis(a.y, b.y, c.y, d.y));
    proof {
        let sx = seq![a.x as int, b.x as int, c.x as int, d.x as int];
        let sy = seq![a.y as int, b.y as int, c.y as int, d.y as int];
        assert(xs(curve@) =~= sx);
        assert(ys(curve@) =~= sy);
        assert forall|t: int| #[trigger] r.0@.spec_eval(t) == bezier_eval(xs(curve@), t) by {
            lemma_parametric_agrees(sx[0], sx[1], sx[2], sx[3], t);
        }
        assert forall|t: int| #[trigger] r.1@.spec_eval(t) == bezier_eval(ys(curve@), t) by {
            lemma_parametric_agrees(sy[0], sy[1], sy[2], sy[3], t);
        }
    }
    r
}

/// `det [[x, y, 1], [pi.x, pi.y, 1], [pj.x, pj.y, 1]]` as a linear polynomial in `x, y`: zero
/// exactly on the line through `pi` and `pj`.
pub open spec fn spec_line_det(pi: Point2, pj: Point2) -> Poly1x2d<int> {
    let a = Poly1x2d { k: 0, x: pi.y - pj.y, y: 0 };
    let b = Poly1x2d { k: 0, x: 0, y: pi.x - pj.x };
    let c = Poly1x2d { k: pi.x * pj.y - pj.x * pi.y, x: 0, y: 0 };
    a.spec_sub(b).spec_add(c)
}

/// The line through control points `i` and `j`, weighted by `C(3, i) C(3, j)`.
pub open spec fn spec_impl_l(curve: Seq<Point2>, i: nat, j: nat) -> Poly1x2d<int> {
    spec_line_det(curve[i as int], curve[j as int]).spec_scale((binom(3, i) * binom(3, j)) as int)
}

/// The determinant of a 3x3 matrix of linear polynomials, by cofactors along the first row.
pub open spec fn spec_det3(
    m00: Poly1x2d<int>,
    m01: Poly1x2d<int>,
    m02: Poly1x2d<int>,
    m10: Poly1x2d<int>,
    m11: Poly1x2d<int>,
    m12: Poly1x2d<int>,
    m20: Poly1x2d<int>,
    m21: Poly1x2d<int>,
    m22: Poly1x2d<int>,
) -> Poly3x2d<int> {
    let a = m00.spec_mul_quad(m11.spec_mul(m22).spec_sub(m21.spec_mul(m12)));
    let b = m01.spec_mul_quad(m10.spec_mul(m22).spec_sub(m20.spec_mul(m12)));
    let c = m02.spec_mul_quad(m10.spec_mul(m21).spec_sub(m20.spec_mul(m11)));
    a.spec_sub(b).spec_add(c)
}

/// The implicit equation of the planar cubic with control points `curve`: the determinant of
/// `[[L32, L31, L30], [L31, L30 + L21, L20], [L30, L20, L10]]`.
pub open spec fn spec_implicit(curve: Seq<Point2>) -> Poly3x2d<int> {
    let l32 = spec_impl_l(curve, 3, 2);
    let l31 = spec_impl_l(curve, 3, 1);
    let l30 = spec_impl_l(curve, 3, 0);
    let l21 = spec_impl_l(curve, 2, 1);
    let l20 = spec_impl_l(curve, 2, 0);
    let l10 = spec_impl_l(curve, 1, 0);
    spec_det3(l32, l31, l30, l31, l30.spec_add(l21), l20, l30, l20, l10)
}

pub proof fn lemma_mul_bounded(a: Poly1x2d<int>, b: Poly1x2d<int>, ba: int, bb: int)
    requires
        a.bounded(ba),
        b.bounded(bb),
    ensures
        a.spec_mul(b).bounded(2 * ba * bb),
{
    lemma_mul_abs_le(a.k, b.k, ba, bb);
    lemma_mul_abs_le(a.k, b.x, ba, bb);
    lemma_mul_abs_le(a.k, b.y, ba, bb);
    lemma_mul_abs_le(a.x, b.k, ba, bb);
    lemma_mul_abs_le(a.x, b.x, ba, bb);
    lemma_mul_abs_le(a.x, b.y, ba, bb);
    lemma_mul_abs_le(a.y, b.k, ba, bb);
    lemma_mul_abs_le(a.y, b.x, ba, bb);
    lemma_mul_abs_le(a.y, b.y, ba, bb);
    assert(2 * ba * bb == ba * bb + ba * bb) by (nonlinear_arith);
    assert(0 <= ba * bb) by (nonlinear_arith)
        requires
            0 <= ba,
            0 <= bb,
    ;
}

pub proof fn lemma_mul_quad_bounded(a: Poly1x2d<int>, b: Poly2x2d<int>, ba: int, bb: int)
    requires
        a.bounded(ba),
        b.bounded(bb),
    ensures
        a.spec_mul_quad(b).bounded(3 * ba * bb),
{
    lemma_mul_abs_le(b.k, a.k, bb, ba);
    lemma_mul_abs_le(b.k, a.x, bb, ba);
    lemma_mul_abs_le(b.k, a.y, bb, ba);
    lemma_mul_abs_le(b.x, a.k, bb, ba);
    lemma_mul_abs_le(b.x, a.x, bb, ba);
    lemma_mul_abs_le(b.x, a.y, bb, ba);
    lemma_mul_abs_le(b.y, a.k, bb, ba);
    lemma_mul_abs_le(b.y, a.x, bb, ba);
    lemma_mul_abs_le(b.y, a.y, bb, ba);
    lemma_mul_abs_le(b.xx, a.k, bb, ba);
    lemma_mul_abs_le(b.xx, a.x, bb, ba);
    lemma_mul_abs_le(b.xx, a.y, bb, ba);
    lemma_mul_abs_le(b.xy, a.k, bb, ba);
    lemma_mul_abs_le(b.xy, a.x, bb, ba);
    lemma_mul_abs_le(b.xy, a.y, bb, ba);
    lemma_mul_abs_le(b.yy, a.k, bb, ba);
    lemma_mul_abs_le(b.yy, a.x, bb, ba);
    lemma_mul_abs_le(b.yy, a.y, bb, ba);
    assert(3 * ba * bb == bb * ba + bb * ba + bb * ba) by (nonlinear_arith);
    assert(0 <= bb * ba) by (nonlinear_arith)
        requires
            0 <= ba,
            0 <= bb,
    ;
}

/// A weighted line through two points with coordinates within `c` has coefficients within
/// `2 c^2 w`.
pub proof fn lemma_line_bounded(pi: Point2, pj: Point2, w: int, c: int)
    requires
        1 <= c,
        0 <= w,
        coord_bounded(pi, c),
        coord_bounded(pj, c),
    ensures
        spec_line_det(pi, pj).spec_scale(w).bounded(2 * (c * c) * w),
{
    let l = spec_line_det(pi, pj);
    lemma_mul_abs_le(pi.x as int, pj.y as int, c, c);
    lemma_mul_abs_le(pj.x as int, pi.y as int, c, c);
    assert(c <= c * c) by (nonlinear_arith)
        requires
            1 <= c,
    ;
    assert(l.bounded(2 * (c * c)));
    lemma_mul_abs_le(l.k, w, 2 * (c * c), w);
    lemma_mul_abs_le(l.x, w, 2 * (c * c), w);
    lemma_mul_abs_le(l.y, w, 2 * (c * c), w);
}

/// The determinant of a matrix of linear polynomials with coefficients within `m` has
/// coefficients within `36 m^3`.
pub proof fn lemma_det3_bounded(
    m00: Poly1x2d<int>,
    m01: Poly1x2d<int>,
    m02: Poly1x2d<int>,
    m10: Poly1x2d<int>,
    m11: Poly1x2d<int>,
    m12: Poly1x2d<int>,
    m20: Poly1x2d<int>,
    m21: Poly1x2d<int>,
    m22: Poly1x2d<int>,
    m: int,
)
    requires
        0 <= m,
        m00.bounded(m),
        m01.bounded(m),
        m02.bounded(m),
        m10.bounded(m),
        m11.bounded(m),
        m12.bounded(m),
        m20.bounded(m),
        m21.bounded(m),
        m22.bounded(m),
    ensures
        m11.spec_mul(m22).spec_sub(m21.spec_mul(m12)).bounded(4 * m * m),
        m10.spec_mul(m22).spec_sub(m20.spec_mul(m12)).bounded(4 * m * m),
        m10.spec_mul(m21).spec_sub(m20.spec_mul(m11)).bounded(4 * m * m),
        m00.spec_mul_quad(m11.spec_mul(m22).spec_sub(m21.spec_mul(m12))).bounded(12 * m * m * m),
        m01.spec_mul_quad(m10.spec_mul(m22).spec_sub(m20.spec_mul(m12))).bounded(12 * m * m * m),
        m02.spec_mul_quad(m10.spec_mul(m21).spec_sub(m20.spec_mul(m11))).bounded(12 * m * m * m),
        spec_det3(m00, m01, m02, m10, m11, m12, m20, m21, m22).bounded(36 * m * m * m),
{
    lemma_mul_bounded(m11, m22, m, m);
    lemma_mul_bounded(m21, m12, m, m);
    lemma_mul_bounded(m10, m22, m, m);
    lemma_mul_bounded(m20, m12, m, m);
    lemma_mul_bounded(m10, m21, m, m);
    lemma_mul_bounded(m20, m11, m, m);
    let qa = m11.spec_mul(m22).spec_sub(m21.spec_mul(m12));
    let qb = m10.spec_mul(m22).spec_sub(m20.spec_mul(m12));
    let qc = m10.spec_mul(m21).spec_sub(m20.spec_mul(m11));
    assert(4 * m * m == 2 * m * m + 2 * m * m) by (nonlinear_arith);
    assert(qa.bounded(4 * m * m));
    assert(qb.bounded(4 * m * m));
    assert(qc.bounded(4 * m * m));
    lemma_mul_quad_bounded(m00, qa, m, 4 * m * m);
    lemma_mul_quad_bounded(m01, qb, m, 4 * m * m);
    lemma_mul_quad_bounded(m02, qc, m, 4 * m * m);
    assert(3 * m * (4 * m * m) == 12 * m * m * m) by (nonlinear_arith);
    assert(36 * m * m * m == 12 * m * m * m + 12 * m * m * m + 12 * m * m * m) by (nonlinear_arith);
}

/// `C(3, k)`.
fn binom3(k: usize) -> (r: i128)
    requires
        k <= 3,
    ensures
        r == binom(3, k as nat),
        1 <= r <= 3,
{
    reveal_with_fuel(binom, 5);
    assert(binom(3, 0) == 1 && binom(3, 1) == 3 && binom(3, 2) == 3 && binom(3, 3) == 1);
    if k == 0 || k == 3 {
        1
    } else {
        3
    }
}

/// The line through `pi` and `pj`: see `spec_line_det`.
fn impl_l_det(pi: Point2, pj: Point2) -> (r: Poly1x2d<i128>)
    requires
        coord_bounded(pi, IMPLICIT_COORD_BOUND as int),
        coord_bounded(pj, IMPLICIT_COORD_BOUND as int),
    ensures
        r@ == spec_line_det(pi, pj),
{
    proof {
        let c = IMPLICIT_COORD_BOUND as int;
        lemma_mul_abs_le(pi.x as int, pj.y as int, c, c);
        lemma_mul_abs_le(pj.x as int, pi.y as int, c, c);
    }
    let a = Poly1x2d { k: 0, x: pi.y - pj.y, y: 0 };
    let b = Poly1x2d { k: 0, x: 0, y: pi.x - pj.x };
    let c = Poly1x2d { k: pi.x * pj.y - pj.x * pi.y, x: 0, y: 0 };
    a.sub(b).add(c)
}

/// The weighted line through control points `i` and `j`: see `spec_impl_l`.
fn impl_l(curve: [Point2; 4], i: usize, j: usize) -> (r: Poly1x2d<i128>)
    requires
        i < 4,
        j < 4,
        forall|k: int| 0 <= k < 4 ==> coord_bounded(#[trigger] curve@[k], IMPLICIT_COORD_BOUND as int),
    ensures
        r@ == spec_impl_l(curve@, i as nat, j as nat),
        r@.bounded(18 * IMPLICIT_COORD_BOUND * IMPLICIT_COORD_BOUND),
{
    assert(coord_bounded(curve@[i as int], IMPLICIT_COORD_BOUND as int));
    assert(coord_bounded(curve@[j as int], IMPLICIT_COORD_BOUND as int));
    let det = impl_l_det(curve[i], curve[j]);
    let bi = binom3(i);
    let bj = binom3(j);
    proof {
        lemma_mul_le(bi as int, bj as int, 3, 3);
    }
    let w = bi * bj;
    proof {
        let c = IMPLICIT_COORD_BOUND as int;
        lemma_line_bounded(curve@[i as int], curve@[j as int], w as int, c);
        assert(w <= 9) by (nonlinear_arith)
            requires
                w == binom(3, i as nat) * binom(3, j as nat),
                1 <= binom(3, i as nat) <= 3,
                1 <= binom(3, j as nat) <= 3,
        ;
        lemma_line_bounded(curve@[i as int], curve@[j as int], 1, c);
        assert(det@ == spec_line_det(curve@[i as int], curve@[j as int]).spec_scale(1));
        assert(det@.bounded(2 * (c * c)));
        lemma_mul_abs_le(det@.k, w as int, 2 * (c * c), 9);
        lemma_mul_abs_le(det@.x, w as int, 2 * (c * c), 9);
        lemma_mul_abs_le(det@.y, w as int, 2 * (c * c), 9);
    }
    det.scale(w)
}

/// Bound on the entries of the implicitization matrix.
pub const ENTRY_BOUND: i128 = 154618822656;

/// Expands the determinant of a row-major 3x3 matrix of linear polynomials.
fn expand_det3(m: [[Poly1x2d<i128>; 3]; 3]) -> (r: Poly3x2d<i128>)
    requires
        forall|i: int, j: int|
            0 <= i < 3 && 0 <= j < 3 ==> (#[trigger] m@[i]@[j])@.bounded(ENTRY_BOUND as int),
    ensures
        r@ == spec_det3(
            m@[0]@[0]@,
            m@[0]@[1]@,
            m@[0]@[2]@,
            m@[1]@[0]@,
            m@[1]@[1]@,
            m@[1]@[2]@,
            m@[2]@[0]@,
            m@[2]@[1]@,
            m@[2]@[2]@,
        ),
{
    let ghost e = ENTRY_BOUND as int;
    proof {
        assert(m@[0]@[0]@.bounded(e) && m@[0]@[1]@.bounded(e) && m@[0]@[2]@.bounded(e));
        assert(m@[1]@[0]@.bounded(e) && m@[1]@[1]@.bounded(e) && m@[1]@[2]@.bounded(e));
        assert(m@[2]@[0]@.bounded(e) && m@[2]@[1]@.bounded(e) && m@[2]@[2]@.bounded(e));
        lemma_mul_bounded(m@[1]@[1]@, m@[2]@[2]@, e, e);
        lemma_mul_bounded(m@[2]@[1]@, m@[1]@[2]@, e, e);
        lemma_mul_bounded(m@[1]@[0]@, m@[2]@[2]@, e, e);
        lemma_mul_bounded(m@[2]@[0]@, m@[1]@[2]@, e, e);
        lemma_mul_bounded(m@[1]@[0]@, m@[2]@[1]@, e, e);
        lemma_mul_bounded(m@[2]@[0]@, m@[1]@[1]@, e, e);
        lemma_det3_bounded(
            m@[0]@[0]@,
            m@[0]@[1]@,
            m@[0]@[2]@,
            m@[1]@[0]@,
            m@[1]@[1]@,
            m@[1]@[2]@,
            m@[2]@[0]@,
            m@[2]@[1]@,
            m@[2]@[2]@,
            e,
        );
    }
    let a = m[0][0].mul_quad(m[1][1].mul(m[2][2]).sub(m[2][1].mul(m[1][2])));
    let b = m[0][1].mul_quad(m[1][0].mul(m[2][2]).sub(m[2][0].mul(m[1][2])));
    let c = m[0][2].mul_quad(m[1][0].mul(m[2][1]).sub(m[2][0].mul(m[1][1])));
    a.sub(b).add(c)
}

/// The implicit equation `f(x, y) = 0` of a planar cubic Bézier curve, by Sederberg's
/// construction: the determinant of `[[L32, L31, L30], [L31, L30 + L21, L20], [L30, L20, L10]]`,
/// where `Lij` is the line through control points `i` and `j` weighted by `C(3, i) C(3, j)`.
pub fn implicit_cubic(curve: [Point2; 4]) -> (r: Poly3x2d<i128>)
    requires
        forall|i: int| 0 <= i < 4 ==> coord_bounded(#[trigger] curve@[i], IMPLICIT_COORD_BOUND as int),
    ensures
        r@ == spec_implicit(curve@),
{
    let l32 = impl_l(curve, 3, 2);
    let l31 = impl_l(curve, 3, 1);
    let l30 = impl_l(curve, 3, 0);
    let l21 = impl_l(curve, 2, 1);
    let l20 = impl_l(curve, 2, 0);
    let l10 = impl_l(curve, 1, 0);
    let mid = l30.add(l21);
    let m = [[l32, l31, l30], [l31, mid, l20], [l30, l20, l10]];
    assert(m@[0]@ == seq![l32, l31, l30]);
    assert(m@[1]@ == seq![l31, mid, l20]);
    assert(m@[2]@ == seq![l30, l20, l10]);
    expand_det3(m)
}

} // verus!
