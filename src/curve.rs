//! The control points of a Bézier curve, and the spec-level De Casteljau construction over one
//! coordinate of them.
use crate::geometry::{fits, lerp_fits, Affine, DerivativeSpace, Point2, Vector2};
use vstd::prelude::*;

verus! {

/// An ordered list of control points (or vectors) of a Bézier curve.
#[derive(Clone, Debug)]
pub struct BezierCurve<T> {
    pub points: Vec<T>,
}

impl<T> View for BezierCurve<T> {
    type V = Seq<T>;

    open spec fn view(&self) -> Seq<T> {
        self.points@
    }
}

/// The first coordinates of a list of control points.
pub open spec fn xs<T: Affine>(s: Seq<T>) -> Seq<int> {
    s.map_values(|p: T| p.cx())
}

/// The second coordinates of a list of control points.
pub open spec fn ys<T: Affine>(s: Seq<T>) -> Seq<int> {
    s.map_values(|p: T| p.cy())
}

/// One level of De Casteljau's construction: each pair of neighbours `a, b` becomes
/// `a + t (b - a)`, giving one value fewer.
pub open spec fn step(s: Seq<int>, t: int) -> Seq<int> {
    if s.len() == 0 {
        s
    } else {
        Seq::new((s.len() - 1) as nat, |i: int| s[i] + t * (s[i + 1] - s[i]))
    }
}

/// The value at `t` of the Bézier curve with control values `s` (one coordinate).
pub open spec fn bezier_eval(s: Seq<int>, t: int) -> int
    decreases s.len(),
{
    if s.len() <= 1 {
        s[0]
    } else {
        bezier_eval(step(s, t), t)
    }
}

/// Level `k` of De Casteljau's triangle for the control values `s`.
pub open spec fn level(s: Seq<int>, t: int, k: nat) -> Seq<int>
    decreases k,
{
    if k == 0 {
        s
    } else {
        level(step(s, t), t, (k - 1) as nat)
    }
}

/// Every value of De Casteljau's triangle for `s`, and every difference and product met on the
/// way, is representable.
pub open spec fn triangle_fits(s: Seq<int>, t: int) -> bool
    decreases s.len(),
{
    &&& forall|i: int| 0 <= i < s.len() ==> fits(#[trigger] s[i])
    &&& s.len() > 1 ==> {
        &&& forall|i: int| 0 <= i < s.len() - 1 ==> lerp_fits(#[trigger] s[i], s[i + 1], t)
        &&& triangle_fits(step(s, t), t)
    }
}

/// The next level of the triangle is one step of the current one.
pub proof fn lemma_level_succ(s: Seq<int>, t: int, k: nat)
    ensures
        level(s, t, k + 1) == step(level(s, t, k), t),
    decreases k,
{
    assert(level(s, t, k + 1) == level(step(s, t), t, k));
    if k > 0 {
        lemma_level_succ(step(s, t), t, (k - 1) as nat);
        assert(level(s, t, k) == level(step(s, t), t, (k - 1) as nat));
    } else {
        assert(level(step(s, t), t, 0) == step(s, t));
    }
}

/// The curve's value is the single value at the triangle's apex.
pub proof fn lemma_eval_is_apex(s: Seq<int>, t: int)
    requires
        s.len() >= 1,
    ensures
        level(s, t, (s.len() - 1) as nat).len() == 1,
        bezier_eval(s, t) == level(s, t, (s.len() - 1) as nat)[0],
    decreases s.len(),
{
    if s.len() > 1 {
        lemma_eval_is_apex(step(s, t), t);
    }
}

/// Every level of a triangle that fits fits too.
pub proof fn lemma_level_fits(s: Seq<int>, t: int, k: nat)
    requires
        triangle_fits(s, t),
        k < s.len(),
    ensures
        triangle_fits(level(s, t, k), t),
    decreases k,
{
    if k > 0 {
        lemma_level_fits(step(s, t), t, (k - 1) as nat);
    }
}

impl<T: Copy> BezierCurve<T> {
    pub fn new(points: Vec<T>) -> (r: BezierCurve<T>)
        ensures
            r@ == points@,
    {
        BezierCurve { points }
    }

    /// The number of control points.
    pub fn count(&self) -> (r: usize)
        ensures
            r == self@.len(),
    {
        self.points.len()
    }

    /// The control point at index `i`.
    pub fn get(&self, i: usize) -> (r: T)
        requires
            i < self@.len(),
        ensures
            r == self@[i as int],
    {
        self.points[i]
    }

    /// Overwrites the control point at index `i`.
    pub fn set(&mut self, i: usize, v: T)
        requires
            i < old(self)@.len(),
        ensures
            final(self)@ == old(self)@.update(i as int, v),
    {
        self.points.set(i, v);
    }

    /// A new list one shorter: the same points without the last.
    pub fn reduced(&self) -> (r: BezierCurve<T>)
        requires
            self@.len() >= 1,
        ensures
            r@ == self@.drop_last(),
    {
        let n = self.points.len() - 1;
        let mut v: Vec<T> = Vec::new();
        let mut i: usize = 0;
        while i < n
            invariant
                n == self@.len() - 1,
                i <= n,
                v@ == self@.subrange(0, i as int),
            decreases n - i,
        {
            v.push(self.points[i]);
            i = i + 1;
            assert(v@ =~= self@.subrange(0, i as int));
        }
        assert(self@.subrange(0, n as int) =~= self@.drop_last());
        BezierCurve { points: v }
    }

    /// A full copy of the list.
    pub fn duplicate(&self) -> (r: BezierCurve<T>)
        ensures
            r@ == self@,
    {
        let mut v: Vec<T> = Vec::new();
        let mut i: usize = 0;
        while i < self.points.len()
            invariant
                i <= self@.len(),
                v@ == self@.subrange(0, i as int),
            decreases self@.len() - i,
        {
            v.push(self.points[i]);
            i = i + 1;
            assert(v@ =~= self@.subrange(0, i as int));
        }
        assert(self@.subrange(0, self@.len() as int) =~= self@);
        BezierCurve { points: v }
    }
}

impl DerivativeSpace<BezierCurve<Point2>> for BezierCurve<Vector2> {
    open spec fn converts_from(&self, this: BezierCurve<Point2>) -> bool {
        &&& self@.len() == this@.len()
        &&& forall|i: int| 0 <= i < self@.len() ==> (#[trigger] self@[i]).converts_from(this@[i])
    }

    fn from_integral(this: BezierCurve<Point2>) -> (r: BezierCurve<Vector2>) {
        let mut v: Vec<Vector2> = Vec::new();
        let mut i: usize = 0;
        while i < this.points.len()
            invariant
                i <= this@.len(),
                v@.len() == i,
                forall|j: int| 0 <= j < i ==> (#[trigger] v@[j]).converts_from(this@[j]),
            decreases this@.len() - i,
        {
            v.push(Vector2::from_integral(this.points[i]));
            i = i + 1;
        }
        BezierCurve { points: v }
    }
}

impl<T: Affine> BezierCurve<T> {
    /// One level of De Casteljau's construction, on both coordinates.
    pub fn casteljau_step(&self, t: i128) -> (r: BezierCurve<T>)
        requires
            self@.len() >= 2,
            forall|i: int|
                0 <= i < self@.len() - 1 ==> lerp_fits(#[trigger] xs(self@)[i], xs(self@)[i + 1], t as int),
            forall|i: int|
                0 <= i < self@.len() - 1 ==> lerp_fits(#[trigger] ys(self@)[i], ys(self@)[i + 1], t as int),
        ensures
            r@.len() == self@.len() - 1,
            xs(r@) == step(xs(self@), t as int),
            ys(r@) == step(ys(self@), t as int),
    {
        let mut next = self.reduced();
        let n = next.count();
        let mut i: usize = 0;
        while i < n
            invariant
                n == self@.len() - 1,
                next@.len() == n,
                i <= n,
                forall|i: int|
                    0 <= i < self@.len() - 1 ==> lerp_fits(#[trigger] xs(self@)[i], xs(self@)[i + 1], t as int),
                forall|i: int|
                    0 <= i < self@.len() - 1 ==> lerp_fits(#[trigger] ys(self@)[i], ys(self@)[i + 1], t as int),
                forall|j: int|
                    0 <= j < i ==> (#[trigger] next@[j]).cx() == step(xs(self@), t as int)[j]
                        && next@[j].cy() == step(ys(self@), t as int)[j],
            decreases n - i,
        {
            let a = self.get(i);
            let b = self.get(i + 1);
            assert(xs(self@)[i as int] == a.cx() && xs(self@)[i + 1] == b.cx());
            assert(ys(self@)[i as int] == a.cy() && ys(self@)[i + 1] == b.cy());
            let p = a.lerp(&b, t);
            let ghost before = next@;
            next.set(i, p);
            assert(next@[i as int] == p);
            assert forall|j: int| 0 <= j < i + 1 implies (#[trigger] next@[j]).cx() == step(
                xs(self@),
                t as int,
            )[j] && next@[j].cy() == step(ys(self@), t as int)[j] by {
                if j < i {
                    assert(next@[j] == before[j]);
                }
            }
            i = i + 1;
        }
        assert(xs(next@) =~= step(xs(self@), t as int));
        assert(ys(next@) =~= step(ys(self@), t as int));
        next
    }
}

} // verus!
