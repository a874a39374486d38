//! The exact algebraic part of intersecting two planar cubic Bézier curves.
//!
//! The second curve is implicitized, the parametric form of the first is substituted into its
//! implicit equation, and the result is a univariate polynomial of degree nine in the first
//! curve's parameter. Its real roots in `[0, 1]` are the parameters of the intersection points;
//! finding them is numerical work left to the caller.
use crate::coeffs::{lemma_mul_le, peval, LIMIT};
use crate::curve::{bezier_eval, xs, ys};
use crate::geometry::Point2;
use crate::implicit::{
    binom, coord_bounded, implicit_cubic, lemma_det3_bounded, lemma_line_bounded,
    parametric_cubic, spec_impl_l, spec_implicit, spec_line_det,
};
use vstd::prelude::*;

verus! {

/// Coordinate magnitude up to which two cubics are intersected.
pub const INTERSECT_COORD_BOUND: i128 = 256;

/// With coordinates within `INTERSECT_COORD_BOUND`, the implicit equation has coefficients
/// within `36 m^3`, for the matrix entry bound `m = 36 * 256^2`.
proof fn lemma_implicit_small(curve: Seq<Point2>)
    requires
        curve.len() == 4,
        forall|i: int| 0 <= i < 4 ==> coord_bounded(#[trigger] curve[i], INTERSECT_COORD_BOUND as int),
    ensures
        spec_implicit(curve).bounded(472769874482845188096),
{
    let c = INTERSECT_COORD_BOUND as int;
    reveal_with_fuel(binom, 5);
    assert(coord_bounded(curve[0], c) && coord_bounded(curve[1], c));
    assert(coord_bounded(curve[2], c) && coord_bounded(curve[3], c));
    lemma_line_bounded(curve[3], curve[2], 3, c);
    lemma_line_bounded(curve[3], curve[1], 3, c);
    lemma_line_bounded(curve[3], curve[0], 1, c);
    lemma_line_bounded(curve[2], curve[1], 9, c);
    lemma_line_bounded(curve[2], curve[0], 3, c);
    lemma_line_bounded(curve[1], curve[0], 3, c);
    let l32 = spec_impl_l(curve, 3, 2);
    let l31 = spec_impl_l(curve, 3, 1);
    let l30 = spec_impl_l(curve, 3, 0);
    let l21 = spec_impl_l(curve, 2, 1);
    let l20 = spec_impl_l(curve, 2, 0);
    let l10 = spec_impl_l(curve, 1, 0);
    assert(binom(3, 0) == 1 && binom(3, 1) == 3 && binom(3, 2) == 3 && binom(3, 3) == 1);
    assert(l32 == spec_line_det(curve[3], curve[2]).spec_scale(3));
    assert(l31 == spec_line_det(curve[3], curve[1]).spec_scale(3));
    assert(l30 == spec_line_det(curve[3], curve[0]).spec_scale(1));
    assert(l21 == spec_line_det(curve[2], curve[1]).spec_scale(9));
    assert(l20 == spec_line_det(curve[2], curve[0]).spec_scale(3));
    assert(l10 == spec_line_det(curve[1], curve[0]).spec_scale(3));
    let m: int = 2359296;
    assert(l32.bounded(m) && l31.bounded(m) && l30.bounded(m));
    assert(l21.bounded(m) && l20.bounded(m) && l10.bounded(m));
    assert(l30.spec_add(l21).bounded(m));
    lemma_det3_bounded(l32, l31, l30, l31, l30.spec_add(l21), l20, l30, l20, l10, m);
    assert(36 * m * m * m == 472769874482845188096);
}

/// The polynomial `g(t) = f_b(x_a(t), y_a(t))`, as its ten coefficients lowest degree first,
/// where `f_b` is the implicit equation of curve `b` and `(x_a, y_a)` is curve `a`. The points
/// of `a` that lie on `b` are those at the roots of `g`.
pub fn intersection_polynomial(a: [Point2; 4], b: [Point2; 4]) -> (r: Vec<i128>)
    requires
        forall|i: int| 0 <= i < 4 ==> coord_bounded(#[trigger] a@[i], INTERSECT_COORD_BOUND as int),
        forall|i: int| 0 <= i < 4 ==> coord_bounded(#[trigger] b@[i], INTERSECT_COORD_BOUND as int),
    ensures
        r@.len() == 10,
        forall|t: int| #[trigger]
            peval(r@, t) == spec_implicit(b@).spec_eval(
                bezier_eval(xs(a@), t),
                bezier_eval(ys(a@), t),
            ),
{
    proof {
        lemma_implicit_small(b@);
        assert(coord_bounded(a@[0], 256) && coord_bounded(a@[1], 256));
        assert(coord_bounded(a@[2], 256) && coord_bounded(a@[3], 256));
    }
    let fb = implicit_cubic(b);
    let (ax, ay) = parametric_cubic(a);
    proof {
        let q = 1 + ax@.abs_sum() + ay@.abs_sum();
        assert(ax@.abs_sum() <= 6912);
        assert(ay@.abs_sum() <= 6912);
        let big: int = 472769874482845188096;
        assert(fb@.abs_sum() <= 10 * big);
        let qb: int = 13825;
        lemma_mul_le(q, q, qb, qb);
        lemma_mul_le(q * q, q, qb * qb, qb);
        lemma_mul_le(fb@.abs_sum() + 1, q * q * q, 10 * big + 1, qb * qb * qb);
        assert((10 * big + 1) * (qb * qb * qb) <= LIMIT);
    }
    let r = fb.subst_cubics(&ax, &ay);
    r
}

} // verus!
