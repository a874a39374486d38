//! Evaluation, subdivision and differentiation of Bézier curves by De Casteljau's construction.
use crate::curve::{
    bezier_eval, lemma_eval_is_apex, lemma_level_fits, lemma_level_succ, level, step,
    triangle_fits, xs, ys, BezierCurve,
};
use crate::geometry::{fits, Affine, DerivativeSpace, Point2, Vector2};
use vstd::prelude::*;

verus! {

/// The point of the curve at parameter `t`. Any `t` is accepted: values outside `[0, 1]`
/// extrapolate the curve.
pub fn evaluate<T: Affine>(points: &BezierCurve<T>, t: i128) -> (r: T)
    requires
        points@.len() >= 1,
        triangle_fits(xs(points@), t as int),
        triangle_fits(ys(points@), t as int),
    ensures
        r.cx() == bezier_eval(xs(points@), t as int),
        r.cy() == bezier_eval(ys(points@), t as int),
    decreases points@.len(),
{
    if points.count() <= 1 {
        let p = points.get(0);
        assert(xs(points@)[0] == p.cx());
        assert(ys(points@)[0] == p.cy());
        p
    } else {
        let next = points.casteljau_step(t);
        evaluate(&next, t)
    }
}

/// Splits the curve at `t` into two curves of the same length: the first runs from the start
/// to the point at `t`, the second from there to the end. The `k`-th control point of the first
/// is the first value of level `k` of De Casteljau's triangle, and the `k`-th from the end of
/// the second is the last value of that level.
pub fn subdivide<T: Affine>(points: &BezierCurve<T>, t: i128) -> (r: (BezierCurve<T>, BezierCurve<T>))
    requires
        points@.len() >= 1,
        triangle_fits(xs(points@), t as int),
        triangle_fits(ys(points@), t as int),
    ensures
        r.0@.len() == points@.len(),
        r.1@.len() == points@.len(),
        forall|k: int|
            0 <= k < points@.len() ==> (#[trigger] r.0@[k]).cx() == level(xs(points@), t as int, k as nat)[0]
                && r.0@[k].cy() == level(ys(points@), t as int, k as nat)[0],
        forall|j: int|
            0 <= j < points@.len() ==> (#[trigger] r.1@[j]).cx() == level(
                xs(points@),
                t as int,
                (points@.len() - 1 - j) as nat,
            ).last() && r.1@[j].cy() == level(ys(points@), t as int, (points@.len() - 1 - j) as nat).last(),
{
    let n = points.count();
    let ghost sx = xs(points@);
    let ghost sy = ys(points@);
    let mut left = points.duplicate();
    let mut right = points.duplicate();
    let mut cur = points.duplicate();
    let mut d: usize = 0;
    while d < n
        invariant
            n == points@.len(),
            sx == xs(points@),
            sy == ys(points@),
            triangle_fits(sx, t as int),
            triangle_fits(sy, t as int),
            d <= n,
            left@.len() == n,
            right@.len() == n,
            d < n ==> cur@.len() == n - d,
            d < n ==> xs(cur@) == level(sx, t as int, d as nat),
            d < n ==> ys(cur@) == level(sy, t as int, d as nat),
            forall|k: int|
                0 <= k < d ==> (#[trigger] left@[k]).cx() == level(sx, t as int, k as nat)[0]
                    && left@[k].cy() == level(sy, t as int, k as nat)[0],
            forall|j: int|
                n - d <= j < n ==> (#[trigger] right@[j]).cx() == level(sx, t as int, (n - 1 - j) as nat).last()
                    && right@[j].cy() == level(sy, t as int, (n - 1 - j) as nat).last(),
        decreases n - d,
    {
        let first = cur.get(0);
        let last = cur.get(n - d - 1);
        assert(xs(cur@)[0] == first.cx() && ys(cur@)[0] == first.cy());
        assert(xs(cur@)[n - d - 1] == last.cx() && ys(cur@)[n - d - 1] == last.cy());
        let ghost lb = left@;
        let ghost rb = right@;
        left.set(d, first);
        right.set(n - d - 1, last);
        assert forall|k: int| 0 <= k < d + 1 implies (#[trigger] left@[k]).cx() == level(
            sx,
            t as int,
            k as nat,
        )[0] && left@[k].cy() == level(sy, t as int, k as nat)[0] by {
            if k < d {
                assert(left@[k] == lb[k]);
            }
        }
        assert forall|j: int| n - (d + 1) <= j < n implies (#[trigger] right@[j]).cx() == level(
            sx,
            t as int,
            (n - 1 - j) as nat,
        ).last() && right@[j].cy() == level(sy, t as int, (n - 1 - j) as nat).last() by {
            if j > n - d - 1 {
                assert(right@[j] == rb[j]);
            }
        }
        if d + 1 < n {
            proof {
                lemma_level_fits(sx, t as int, d as nat);
                lemma_level_fits(sy, t as int, d as nat);
                lemma_level_succ(sx, t as int, d as nat);
                lemma_level_succ(sy, t as int, d as nat);
            }
            cur = cur.casteljau_step(t);
        }
        d = d + 1;
    }
    (left, right)
}

/// The derivative of the curve: a curve of vectors one shorter, whose `i`-th element is
/// `(p[i + 1] - p[i]) (n - 1)` for a curve of `n` points.
pub fn derive(points: &BezierCurve<Point2>) -> (r: BezierCurve<Vector2>)
    requires
        points@.len() >= 1,
        forall|i: int|
            0 <= i < points@.len() - 1 ==> fits(#[trigger] points@[i + 1].x - points@[i].x) && fits(
                points@[i + 1].y - points@[i].y,
            ) && fits((points@[i + 1].x - points@[i].x) * (points@.len() - 1)) && fits(
                (points@[i + 1].y - points@[i].y) * (points@.len() - 1),
            ),
    ensures
        r@.len() == points@.len() - 1,
        forall|i: int|
            0 <= i < r@.len() ==> (#[trigger] r@[i]).x == (points@[i + 1].x - points@[i].x) * (
            points@.len() - 1) && r@[i].y == (points@[i + 1].y - points@[i].y) * (points@.len()
                - 1),
{
    let n = points.count();
    let degree = (n - 1) as i128;
    let mut derivative = BezierCurve::<Vector2>::from_integral(points.reduced());
    let mut i: usize = 0;
    while i < n - 1
        invariant
            n == points@.len(),
            n >= 1,
            degree == n - 1,
            i <= n - 1,
            derivative@.len() == n - 1,
            forall|i: int|
                0 <= i < points@.len() - 1 ==> fits(#[trigger] points@[i + 1].x - points@[i].x)
                    && fits(points@[i + 1].y - points@[i].y) && fits(
                    (points@[i + 1].x - points@[i].x) * (points@.len() - 1),
                ) && fits((points@[i + 1].y - points@[i].y) * (points@.len() - 1)),
            forall|j: int|
                0 <= j < i ==> (#[trigger] derivative@[j]).x == (points@[j + 1].x - points@[j].x)
                    * (points@.len() - 1) && derivative@[j].y == (points@[j + 1].y
                    - points@[j].y) * (points@.len() - 1),
        decreases n - 1 - i,
    {
        let a = points.get(i);
        let b = points.get(i + 1);
        let dv = b.sub(&a).scale(degree);
        let ghost before = derivative@;
        derivative.set(i, dv);
        assert forall|j: int| 0 <= j < i + 1 implies (#[trigger] derivative@[j]).x == (points@[j
            + 1].x - points@[j].x) * (points@.len() - 1) && derivative@[j].y == (points@[j
            + 1].y - points@[j].y) * (points@.len() - 1) by {
            if j < i {
                assert(derivative@[j] == before[j]);
            }
        }
        i = i + 1;
    }
    derivative
}

/// A curve passes through its first control point at `t = 0` and through its last at `t = 1`.
pub proof fn lemma_evaluate_endpoints(s: Seq<int>)
    requires
        s.len() >= 1,
    ensures
        bezier_eval(s, 0) == s[0],
        bezier_eval(s, 1) == s.last(),
    decreases s.len(),
{
    if s.len() > 1 {
        assert(step(s, 0) =~= s.drop_last());
        assert(step(s, 1) =~= s.drop_first());
        lemma_evaluate_endpoints(step(s, 0));
        lemma_evaluate_endpoints(step(s, 1));
    }
}

/// Splitting a curve at `t` and evaluating the first part at its end, or the second part at
/// its start, both give the curve's own value at `t`. Here `l` and `r` are one coordinate of
/// the two curves that `subdivide` returns for the control values `s`.
pub proof fn lemma_subdivide_round_trip(s: Seq<int>, t: int, l: Seq<int>, r: Seq<int>)
    requires
        s.len() >= 1,
        l.len() == s.len(),
        r.len() == s.len(),
        forall|k: int| 0 <= k < s.len() ==> #[trigger] l[k] == level(s, t, k as nat)[0],
        forall|j: int|
            0 <= j < s.len() ==> #[trigger] r[j] == level(s, t, (s.len() - 1 - j) as nat).last(),
    ensures
        bezier_eval(l, 1) == bezier_eval(s, t),
        bezier_eval(r, 0) == bezier_eval(s, t),
{
    lemma_evaluate_endpoints(l);
    lemma_evaluate_endpoints(r);
    lemma_eval_is_apex(s, t);
    assert(l.last() == l[s.len() - 1]);
    assert(r[0] == level(s, t, (s.len() - 1) as nat).last());
}

} // verus!
