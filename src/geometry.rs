//! Points and displacement vectors of the plane, with integer coordinates.
use vstd::prelude::*;

verus! {

/// The values that an `i128` holds.
pub open spec fn fits(v: int) -> bool {
    i128::MIN <= v <= i128::MAX
}

/// Whether the affine step `a + t (b - a)` and its parts are representable.
pub open spec fn lerp_fits(a: int, b: int, t: int) -> bool {
    fits(b - a) && fits(t * (b - a)) && fits(a + t * (b - a))
}

/// A control point (or vector) type: two integer coordinates and the affine step between two
/// values of the type.
pub trait Affine: Copy + Sized {
    spec fn cx(&self) -> int;

    spec fn cy(&self) -> int;

    /// `self + t (other - self)`.
    fn lerp(&self, other: &Self, t: i128) -> (r: Self)
        requires
            lerp_fits(self.cx(), other.cx(), t as int),
            lerp_fits(self.cy(), other.cy(), t as int),
        ensures
            r.cx() == self.cx() + t * (other.cx() - self.cx()),
            r.cy() == self.cy() + t * (other.cy() - self.cy()),
    ;
}

/// A point of the plane.
#[derive(Clone, Copy, Debug, PartialEq, Eq, Structural)]
pub struct Point2 {
    pub x: i128,
    pub y: i128,
}

/// A displacement between two points of the plane.
#[derive(Clone, Copy, Debug, PartialEq, Eq, Structural)]
pub struct Vector2 {
    pub x: i128,
    pub y: i128,
}

impl Point2 {
    pub fn new(x: i128, y: i128) -> (r: Point2)
        ensures
            r.x == x,
            r.y == y,
    {
        Point2 { x, y }
    }

    /// The vector from `o` to `self`.
    pub fn sub(&self, o: &Point2) -> (r: Vector2)
        requires
            fits(self.x - o.x),
            fits(self.y - o.y),
        ensures
            r.x == self.x - o.x,
            r.y == self.y - o.y,
    {
        Vector2 { x: self.x - o.x, y: self.y - o.y }
    }

    /// The point `self` moved by `v`.
    pub fn add_vec(&self, v: &Vector2) -> (r: Point2)
        requires
            fits(self.x + v.x),
            fits(self.y + v.y),
        ensures
            r.x == self.x + v.x,
            r.y == self.y + v.y,
    {
        Point2 { x: self.x + v.x, y: self.y + v.y }
    }

    /// The vector from the origin to `self`.
    pub fn to_vec(&self) -> (r: Vector2)
        ensures
            r.x == self.x,
            r.y == self.y,
    {
        Vector2 { x: self.x, y: self.y }
    }
}

impl Vector2 {
    pub fn new(x: i128, y: i128) -> (r: Vector2)
        ensures
            r.x == x,
            r.y == y,
    {
        Vector2 { x, y }
    }

    /// Coordinate-wise sum.
    pub fn add(&self, o: &Vector2) -> (r: Vector2)
        requires
            fits(self.x + o.x),
            fits(self.y + o.y),
        ensures
            r.x == self.x + o.x,
            r.y == self.y + o.y,
    {
        Vector2 { x: self.x + o.x, y: self.y + o.y }
    }

    /// Coordinate-wise difference.
    pub fn sub(&self, o: &Vector2) -> (r: Vector2)
        requires
            fits(self.x - o.x),
            fits(self.y - o.y),
        ensures
            r.x == self.x - o.x,
            r.y == self.y - o.y,
    {
        Vector2 { x: self.x - o.x, y: self.y - o.y }
    }

    /// The vector multiplied by the scalar `s`.
    pub fn scale(&self, s: i128) -> (r: Vector2)
        requires
            fits(self.x * s),
            fits(self.y * s),
        ensures
            r.x == self.x * s,
            r.y == self.y * s,
    {
        Vector2 { x: self.x * s, y: self.y * s }
    }
}

/// Conversion of a point type into its displacement type, so that the derivative of a curve of
/// points is a curve of vectors.
pub trait DerivativeSpace<I>: Sized {
    /// `self` is the displacement counterpart of `this`.
    spec fn converts_from(&self, this: I) -> bool;

    fn from_integral(this: I) -> (r: Self)
        ensures
            r.converts_from(this),
    ;
}

impl DerivativeSpace<Point2> for Vector2 {
    open spec fn converts_from(&self, this: Point2) -> bool {
        self.x == this.x && self.y == this.y
    }

    fn from_integral(this: Point2) -> (r: Vector2) {
        this.to_vec()
    }
}

impl DerivativeSpace<Vector2> for Vector2 {
    open spec fn converts_from(&self, this: Vector2) -> bool {
        *self == this
    }

    fn from_integral(this: Vector2) -> (r: Vector2) {
        this
    }
}

impl Affine for Point2 {
    open spec fn cx(&self) -> int {
        self.x as int
    }

    open spec fn cy(&self) -> int {
        self.y as int
    }

    fn lerp(&self, other: &Point2, t: i128) -> (r: Point2) {
        assert(t * (other.x - self.x) == (other.x - self.x) * t) by (nonlinear_arith);
        assert(t * (other.y - self.y) == (other.y - self.y) * t) by (nonlinear_arith);
        self.add_vec(&other.sub(self).scale(t))
    }
}

impl Affine for Vector2 {
    open spec fn cx(&self) -> int {
        self.x as int
    }

    open spec fn cy(&self) -> int {
        self.y as int
    }

    fn lerp(&self, other: &Vector2, t: i128) -> (r: Vector2) {
        assert(t * (other.x - self.x) == (other.x - self.x) * t) by (nonlinear_arith);
        assert(t * (other.y - self.y) == (other.y - self.y) * t) by (nonlinear_arith);
        self.add(&other.sub(self).scale(t))
    }
}

} // verus!
