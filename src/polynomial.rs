//! Dense polynomials of fixed degree: univariate cubics and bivariate polynomials of total
//! degree one, two and three. The degree of a product is fixed by the types of its factors.
//!
//! The executable polynomials hold `i128` coefficients; the same types over `int` are their
//! mathematical models, and every operation is stated over those models.
use crate::coeffs::{
    abs, add_scaled, copy_coeffs, l1, lemma_l1_nonneg, lemma_mul_abs_le, lemma_mul_le,
    lemma_peval_update, peval, poly_mul, zeros, LIMIT,
};
use vstd::arithmetic::power::pow;
use vstd::prelude::*;

verus! {

/// Coefficient magnitude up to which sums and differences are computed.
pub const SUM_BOUND: i128 = 42535295865117307932921825928971026432;

/// Coefficient magnitude up to which two linear polynomials are multiplied.
pub const MUL_BOUND: i128 = 4611686018427387904;

/// Coefficient magnitude of the linear factor when multiplying by a quadratic.
pub const LIN_BOUND: i128 = 1099511627776;

/// Coefficient magnitude of the quadratic factor when multiplying by a linear one.
pub const QUAD_BOUND: i128 = 19342813113834066795298816;

/// Coefficient magnitude up to which polynomials are evaluated.
pub const EVAL_COEFF_BOUND: i128 = 1152921504606846976;

/// Argument magnitude up to which polynomials are evaluated.
pub const EVAL_ARG_BOUND: i128 = 1048576;

/// Longest coefficient list accepted for substitution.
pub const SUBST_MAX_LEN: usize = 4096;

/// Third degree polynomial `k + x t + xx t^2 + xxx t^3`.
#[derive(Clone, Copy, Debug, PartialEq, Eq)]
pub struct Poly3<S> {
    pub k: S,
    pub x: S,
    pub xx: S,
    pub xxx: S,
}

/// First degree polynomial in two variables.
#[derive(Clone, Copy, Debug, PartialEq, Eq)]
pub struct Poly1x2d<S> {
    pub k: S,
    pub x: S,
    pub y: S,
}

/// Second degree polynomial in two variables.
#[derive(Clone, Copy, Debug, PartialEq, Eq)]
pub struct Poly2x2d<S> {
    pub k: S,
    pub x: S,
    pub y: S,
    pub xy: S,
    pub xx: S,
    pub yy: S,
}

/// Third degree polynomial in two variables.
#[derive(Clone, Copy, Debug, PartialEq, Eq)]
pub struct Poly3x2d<S> {
    pub k: S,
    pub x: S,
    pub y: S,
    pub xy: S,
    pub xx: S,
    pub yy: S,
    pub xxy: S,
    pub xyy: S,
    pub xxx: S,
    pub yyy: S,
}

impl View for Poly3<i128> {
    type V = Poly3<int>;

    open spec fn view(&self) -> Poly3<int> {
        Poly3 { k: self.k as int, x: self.x as int, xx: self.xx as int, xxx: self.xxx as int }
    }
}

impl View for Poly1x2d<i128> {
    type V = Poly1x2d<int>;

    open spec fn view(&self) -> Poly1x2d<int> {
        Poly1x2d { k: self.k as int, x: self.x as int, y: self.y as int }
    }
}

impl View for Poly2x2d<i128> {
    type V = Poly2x2d<int>;

    open spec fn view(&self) -> Poly2x2d<int> {
        Poly2x2d {
            k: self.k as int,
            x: self.x as int,
            y: self.y as int,
            xy: self.xy as int,
            xx: self.xx as int,
            yy: self.yy as int,
        }
    }
}

impl View for Poly3x2d<i128> {
    type V = Poly3x2d<int>;

    open spec fn view(&self) -> Poly3x2d<int> {
        Poly3x2d {
            k: self.k as int,
            x: self.x as int,
            y: self.y as int,
            xy: self.xy as int,
            xx: self.xx as int,
            yy: self.yy as int,
            xxy: self.xxy as int,
            xyy: self.xyy as int,
            xxx: self.xxx as int,
            yyy: self.yyy as int,
        }
    }
}

impl Poly3<int> {
    /// Sum of the magnitudes of the coefficients.
    pub open spec fn abs_sum(&self) -> int {
        abs(self.k) + abs(self.x) + abs(self.xx) + abs(self.xxx)
    }

    pub open spec fn spec_eval(&self, t: int) -> int {
        self.k + self.x * t + self.xx * t * t + self.xxx * t * t * t
    }

    pub open spec fn bounded(&self, b: int) -> bool {
        abs(self.k) <= b && abs(self.x) <= b && abs(self.xx) <= b && abs(self.xxx) <= b
    }
}

impl Poly1x2d<int> {
    pub open spec fn spec_eval(&self, x: int, y: int) -> int {
        self.k + self.x * x + self.y * y
    }

    pub open spec fn bounded(&self, b: int) -> bool {
        abs(self.k) <= b && abs(self.x) <= b && abs(self.y) <= b
    }

    pub open spec fn spec_add(self, r: Poly1x2d<int>) -> Poly1x2d<int> {
        Poly1x2d { k: self.k + r.k, x: self.x + r.x, y: self.y + r.y }
    }

    pub open spec fn spec_sub(self, r: Poly1x2d<int>) -> Poly1x2d<int> {
        Poly1x2d { k: self.k - r.k, x: self.x - r.x, y: self.y - r.y }
    }

    pub open spec fn spec_scale(self, s: int) -> Poly1x2d<int> {
        Poly1x2d { k: self.k * s, x: self.x * s, y: self.y * s }
    }

    /// Product of two linear polynomials, collected by monomial.
    pub open spec fn spec_mul(self, r: Poly1x2d<int>) -> Poly2x2d<int> {
        Poly2x2d {
            k: self.k * r.k,
            x: self.k * r.x + self.x * r.k,
            y: self.k * r.y + self.y * r.k,
            xx: self.x * r.x,
            xy: self.x * r.y + self.y * r.x,
            yy: self.y * r.y,
        }
    }

    /// Product of a linear and a quadratic polynomial, collected by monomial.
    pub open spec fn spec_mul_quad(self, r: Poly2x2d<int>) -> Poly3x2d<int> {
        Poly3x2d {
            k: r.k * self.k,
            x: r.k * self.x + r.x * self.k,
            y: r.k * self.y + r.y * self.k,
            xx: r.x * self.x + r.xx * self.k,
            xy: r.x * self.y + r.y * self.x + r.xy * self.k,
            yy: r.y * self.y + r.yy * self.k,
            xxy: r.xx * self.y + r.xy * self.x,
            xyy: r.xy * self.y + r.yy * self.x,
            xxx: r.xx * self.x,
            yyy: r.yy * self.y,
        }
    }
}

impl Poly2x2d<int> {
    pub open spec fn spec_eval(&self, x: int, y: int) -> int {
        self.k + self.x * x + self.y * y + self.xy * x * y + self.xx * x * x + self.yy * y * y
    }

    pub open spec fn bounded(&self, b: int) -> bool {
        abs(self.k) <= b && abs(self.x) <= b && abs(self.y) <= b && abs(self.xy) <= b && abs(
            self.xx,
        ) <= b && abs(self.yy) <= b
    }

    pub open spec fn spec_add(self, r: Poly2x2d<int>) -> Poly2x2d<int> {
        Poly2x2d {
            k: self.k + r.k,
            x: self.x + r.x,
            y: self.y + r.y,
            xy: self.xy + r.xy,
            xx: self.xx + r.xx,
            yy: self.yy + r.yy,
        }
    }

    pub open spec fn spec_sub(self, r: Poly2x2d<int>) -> Poly2x2d<int> {
        Poly2x2d {
            k: self.k - r.k,
            x: self.x - r.x,
            y: self.y - r.y,
            xy: self.xy - r.xy,
            xx: self.xx - r.xx,
            yy: self.yy - r.yy,
        }
    }
}

impl Poly3x2d<int> {
    pub open spec fn spec_eval(&self, x: int, y: int) -> int {
        self.k + self.x * x + self.y * y + self.xx * x * x + self.xy * x * y + self.yy * y * y
            + self.xxy * x * x * y + self.xyy * x * y * y + self.xxx * x * x * x + self.yyy * y
            * y * y
    }

    pub open spec fn bounded(&self, b: int) -> bool {
        abs(self.k) <= b && abs(self.x) <= b && abs(self.y) <= b && abs(self.xy) <= b && abs(
            self.xx,
        ) <= b && abs(self.yy) <= b && abs(self.xxy) <= b && abs(self.xyy) <= b && abs(self.xxx)
            <= b && abs(self.yyy) <= b
    }

    /// Sum of the magnitudes of the coefficients.
    pub open spec fn abs_sum(&self) -> int {
        abs(self.k) + abs(self.x) + abs(self.y) + abs(self.xy) + abs(self.xx) + abs(self.yy) + abs(
            self.xxy,
        ) + abs(self.xyy) + abs(self.xxx) + abs(self.yyy)
    }

    pub open spec fn spec_add(self, r: Poly3x2d<int>) -> Poly3x2d<int> {
        Poly3x2d {
            k: self.k + r.k,
            x: self.x + r.x,
            y: self.y + r.y,
            xy: self.xy + r.xy,
            xx: self.xx + r.xx,
            yy: self.yy + r.yy,
            xxy: self.xxy + r.xxy,
            xyy: self.xyy + r.xyy,
            xxx: self.xxx + r.xxx,
            yyy: self.yyy + r.yyy,
        }
    }

    pub open spec fn spec_sub(self, r: Poly3x2d<int>) -> Poly3x2d<int> {
        Poly3x2d {
            k: self.k - r.k,
            x: self.x - r.x,
            y: self.y - r.y,
            xy: self.xy - r.xy,
            xx: self.xx - r.xx,
            yy: self.yy - r.yy,
            xxy: self.xxy - r.xxy,
            xyy: self.xyy - r.xyy,
            xxx: self.xxx - r.xxx,
            yyy: self.yyy - r.yyy,
        }
    }
}

/// Bounds `|c a|`, `|c a b|` and `|c a b d|` by `n m^3` where `|c| <= n`, the others `<= m`.
pub proof fn lemma_term_bound(c: int, a: int, b: int, d: int, n: int, m: int)
    requires
        abs(c) <= n,
        abs(a) <= m,
        abs(b) <= m,
        abs(d) <= m,
        1 <= m,
    ensures
        abs(c) <= n * m * m * m,
        abs(c * a) <= n * m * m * m,
        abs(c * a * b) <= n * m * m * m,
        abs(c * a * b * d) <= n * m * m * m,
{
    lemma_mul_abs_le(c, a, n, m);
    lemma_mul_abs_le(c * a, b, n * m, m);
    lemma_mul_abs_le(c * a * b, d, n * m * m, m);
    lemma_mul_le(n, 1, n, m);
    lemma_mul_le(n * m, 1, n * m, m);
    lemma_mul_le(n * m * m, 1, n * m * m, m);
}


/// Products met when evaluating: a coefficient within `EVAL_COEFF_BOUND` times up to three
/// arguments within `EVAL_ARG_BOUND` stay within `2^120`.
pub proof fn lemma_eval_term(c: int, a: int, b: int, d: int)
    requires
        abs(c) <= EVAL_COEFF_BOUND,
        abs(a) <= EVAL_ARG_BOUND,
        abs(b) <= EVAL_ARG_BOUND,
        abs(d) <= EVAL_ARG_BOUND,
    ensures
        abs(c) <= 1329227995784915872903807060280344576,
        abs(c * a) <= 1329227995784915872903807060280344576,
        abs(c * a * b) <= 1329227995784915872903807060280344576,
        abs(c * a * b * d) <= 1329227995784915872903807060280344576,
{
    lemma_term_bound(c, a, b, d, EVAL_COEFF_BOUND as int, EVAL_ARG_BOUND as int);
    assert(EVAL_COEFF_BOUND as int * EVAL_ARG_BOUND as int * EVAL_ARG_BOUND as int
        * EVAL_ARG_BOUND as int == 1329227995784915872903807060280344576);
}

/// The value of a bivariate cubic as the sum of its ten terms.
proof fn lemma_eval3x2d_terms(p: Poly3x2d<int>, x: int, y: int)
    ensures
        p.spec_eval(x, y) == p.k + p.x * x + p.y * y + p.xx * x * x + p.xy * x * y + p.yy * y
            * y + p.xxy * x * x * y + p.xyy * x * y * y + p.xxx * x * x * x + p.yyy * y * y * y,
{
}

/// `c a`, for a coefficient and an argument within the evaluation bounds.
fn term1(c: i128, a: i128) -> (r: i128)
    requires
        abs(c as int) <= EVAL_COEFF_BOUND,
        abs(a as int) <= EVAL_ARG_BOUND,
    ensures
        r == c * a,
        -1329227995784915872903807060280344576 <= r <= 1329227995784915872903807060280344576,
{
    proof {
        lemma_eval_term(c as int, a as int, a as int, a as int);
    }
    c * a
}

/// `c a b`, for a coefficient and arguments within the evaluation bounds.
fn term2(c: i128, a: i128, b: i128) -> (r: i128)
    requires
        abs(c as int) <= EVAL_COEFF_BOUND,
        abs(a as int) <= EVAL_ARG_BOUND,
        abs(b as int) <= EVAL_ARG_BOUND,
    ensures
        r == c * a * b,
        -1329227995784915872903807060280344576 <= r <= 1329227995784915872903807060280344576,
{
    proof {
        lemma_eval_term(c as int, a as int, b as int, b as int);
    }
    c * a * b
}

/// `c a b d`, for a coefficient and arguments within the evaluation bounds.
fn term3(c: i128, a: i128, b: i128, d: i128) -> (r: i128)
    requires
        abs(c as int) <= EVAL_COEFF_BOUND,
        abs(a as int) <= EVAL_ARG_BOUND,
        abs(b as int) <= EVAL_ARG_BOUND,
        abs(d as int) <= EVAL_ARG_BOUND,
    ensures
        r == c * a * b * d,
        -1329227995784915872903807060280344576 <= r <= 1329227995784915872903807060280344576,
{
    proof {
        lemma_eval_term(c as int, a as int, b as int, d as int);
    }
    c * a * b * d
}

impl Poly1x2d<i128> {
    /// Coefficient-wise sum.
    pub fn add(self, rhs: Poly1x2d<i128>) -> (r: Poly1x2d<i128>)
        requires
            self@.bounded(SUM_BOUND as int),
            rhs@.bounded(SUM_BOUND as int),
        ensures
            r@ == self@.spec_add(rhs@),
    {
        Poly1x2d { k: self.k + rhs.k, x: self.x + rhs.x, y: self.y + rhs.y }
    }

    /// Coefficient-wise difference.
    pub fn sub(self, rhs: Poly1x2d<i128>) -> (r: Poly1x2d<i128>)
        requires
            self@.bounded(SUM_BOUND as int),
            rhs@.bounded(SUM_BOUND as int),
        ensures
            r@ == self@.spec_sub(rhs@),
    {
        Poly1x2d { k: self.k - rhs.k, x: self.x - rhs.x, y: self.y - rhs.y }
    }

    /// Every coefficient multiplied by `s`.
    pub fn scale(self, s: i128) -> (r: Poly1x2d<i128>)
        requires
            self@.bounded(MUL_BOUND as int),
            abs(s as int) <= MUL_BOUND,
        ensures
            r@ == self@.spec_scale(s as int),
    {
        proof {
            let n = MUL_BOUND as int;
            lemma_mul_abs_le(self.k as int, s as int, n, n);
            lemma_mul_abs_le(self.x as int, s as int, n, n);
            lemma_mul_abs_le(self.y as int, s as int, n, n);
        }
        Poly1x2d { k: self.k * s, x: self.x * s, y: self.y * s }
    }

    /// Product of two linear polynomials.
    pub fn mul(self, rhs: Poly1x2d<i128>) -> (r: Poly2x2d<i128>)
        requires
            self@.bounded(MUL_BOUND as int),
            rhs@.bounded(MUL_BOUND as int),
        ensures
            r@ == self@.spec_mul(rhs@),
    {
        proof {
            let n = MUL_BOUND as int;
            lemma_mul_abs_le(self.k as int, rhs.k as int, n, n);
            lemma_mul_abs_le(self.k as int, rhs.x as int, n, n);
            lemma_mul_abs_le(self.k as int, rhs.y as int, n, n);
            lemma_mul_abs_le(self.x as int, rhs.k as int, n, n);
            lemma_mul_abs_le(self.x as int, rhs.x as int, n, n);
            lemma_mul_abs_le(self.x as int, rhs.y as int, n, n);
            lemma_mul_abs_le(self.y as int, rhs.k as int, n, n);
            lemma_mul_abs_le(self.y as int, rhs.x as int, n, n);
            lemma_mul_abs_le(self.y as int, rhs.y as int, n, n);
        }
        Poly2x2d {
            k: self.k * rhs.k,
            x: self.k * rhs.x + self.x * rhs.k,
            y: self.k * rhs.y + self.y * rhs.k,
            xx: self.x * rhs.x,
            xy: self.x * rhs.y + self.y * rhs.x,
            yy: self.y * rhs.y,
        }
    }

    /// Product of a linear and a quadratic polynomial.
    pub fn mul_quad(self, rhs: Poly2x2d<i128>) -> (r: Poly3x2d<i128>)
        requires
            self@.bounded(LIN_BOUND as int),
            rhs@.bounded(QUAD_BOUND as int),
        ensures
            r@ == self@.spec_mul_quad(rhs@),
    {
        proof {
            let a = LIN_BOUND as int;
            let b = QUAD_BOUND as int;
            lemma_mul_abs_le(rhs.k as int, self.k as int, b, a);
            lemma_mul_abs_le(rhs.k as int, self.x as int, b, a);
            lemma_mul_abs_le(rhs.k as int, self.y as int, b, a);
            lemma_mul_abs_le(rhs.x as int, self.k as int, b, a);
            lemma_mul_abs_le(rhs.x as int, self.x as int, b, a);
            lemma_mul_abs_le(rhs.x as int, self.y as int, b, a);
            lemma_mul_abs_le(rhs.y as int, self.k as int, b, a);
            lemma_mul_abs_le(rhs.y as int, self.x as int, b, a);
            lemma_mul_abs_le(rhs.y as int, self.y as int, b, a);
            lemma_mul_abs_le(rhs.xx as int, self.k as int, b, a);
            lemma_mul_abs_le(rhs.xx as int, self.x as int, b, a);
            lemma_mul_abs_le(rhs.xx as int, self.y as int, b, a);
            lemma_mul_abs_le(rhs.xy as int, self.k as int, b, a);
            lemma_mul_abs_le(rhs.xy as int, self.x as int, b, a);
            lemma_mul_abs_le(rhs.xy as int, self.y as int, b, a);
            lemma_mul_abs_le(rhs.yy as int, self.k as int, b, a);
            lemma_mul_abs_le(rhs.yy as int, self.x as int, b, a);
            lemma_mul_abs_le(rhs.yy as int, self.y as int, b, a);
        }
        let Poly1x2d { k, x, y } = self;
        Poly3x2d {
            k: rhs.k * k,
            x: rhs.k * x + rhs.x * k,
            y: rhs.k * y + rhs.y * k,
            xx: rhs.x * x + rhs.xx * k,
            xy: rhs.x * y + rhs.y * x + rhs.xy * k,
            yy: rhs.y * y + rhs.yy * k,
            xxy: rhs.xx * y + rhs.xy * x,
            xyy: rhs.xy * y + rhs.yy * x,
            xxx: rhs.xx * x,
            yyy: rhs.yy * y,
        }
    }
}

impl Poly2x2d<i128> {
    /// Coefficient-wise sum.
    pub fn add(self, rhs: Poly2x2d<i128>) -> (r: Poly2x2d<i128>)
        requires
            self@.bounded(SUM_BOUND as int),
            rhs@.bounded(SUM_BOUND as int),
        ensures
            r@ == self@.spec_add(rhs@),
    {
        Poly2x2d {
            k: self.k + rhs.k,
            x: self.x + rhs.x,
            y: self.y + rhs.y,
            xx: self.xx + rhs.xx,
            xy: self.xy + rhs.xy,
            yy: self.yy + rhs.yy,
        }
    }

    /// Coefficient-wise difference.
    pub fn sub(self, rhs: Poly2x2d<i128>) -> (r: Poly2x2d<i128>)
        requires
            self@.bounded(SUM_BOUND as int),
            rhs@.bounded(SUM_BOUND as int),
        ensures
            r@ == self@.spec_sub(rhs@),
    {
        Poly2x2d {
            k: self.k - rhs.k,
            x: self.x - rhs.x,
            y: self.y - rhs.y,
            xx: self.xx - rhs.xx,
            xy: self.xy - rhs.xy,
            yy: self.yy - rhs.yy,
        }
    }
}

impl Poly3x2d<i128> {
    /// Coefficient-wise sum.
    pub fn add(self, rhs: Poly3x2d<i128>) -> (r: Poly3x2d<i128>)
        requires
            self@.bounded(SUM_BOUND as int),
            rhs@.bounded(SUM_BOUND as int),
        ensures
            r@ == self@.spec_add(rhs@),
    {
        Poly3x2d {
            k: self.k + rhs.k,
            x: self.x + rhs.x,
            y: self.y + rhs.y,
            xx: self.xx + rhs.xx,
            xy: self.xy + rhs.xy,
            yy: self.yy + rhs.yy,
            xxy: self.xxy + rhs.xxy,
            xyy: self.xyy + rhs.xyy,
            xxx: self.xxx + rhs.xxx,
            yyy: self.yyy + rhs.yyy,
        }
    }

    /// Coefficient-wise difference.
    pub fn sub(self, rhs: Poly3x2d<i128>) -> (r: Poly3x2d<i128>)
        requires
            self@.bounded(SUM_BOUND as int),
            rhs@.bounded(SUM_BOUND as int),
        ensures
            r@ == self@.spec_sub(rhs@),
    {
        Poly3x2d {
            k: self.k - rhs.k,
            x: self.x - rhs.x,
            y: self.y - rhs.y,
            xx: self.xx - rhs.xx,
            xy: self.xy - rhs.xy,
            yy: self.yy - rhs.yy,
            xxy: self.xxy - rhs.xxy,
            xyy: self.xyy - rhs.xyy,
            xxx: self.xxx - rhs.xxx,
            yyy: self.yyy - rhs.yyy,
        }
    }

    /// Evaluates the polynomial at `(x, y)`.
    pub fn eval(&self, x: i128, y: i128) -> (r: i128)
        requires
            self@.bounded(EVAL_COEFF_BOUND as int),
            abs(x as int) <= EVAL_ARG_BOUND,
            abs(y as int) <= EVAL_ARG_BOUND,
        ensures
            r == self@.spec_eval(x as int, y as int),
    {
        let t1 = term1(self.x, x);
        let t2 = term1(self.y, y);
        let t3 = term2(self.xx, x, x);
        let t4 = term2(self.xy, x, y);
        let t5 = term2(self.yy, y, y);
        let t6 = term3(self.xxy, x, x, y);
        let t7 = term3(self.xyy, x, y, y);
        let t8 = term3(self.xxx, x, x, x);
        let t9 = term3(self.yyy, y, y, y);
        let r = self.k + t1 + t2 + t3 + t4 + t5 + t6 + t7 + t8 + t9;
        proof {
            lemma_eval3x2d_terms(self@, x as int, y as int);
        }
        r
    }
}

impl Poly3<i128> {
    /// Evaluates the polynomial at `t`.
    pub fn eval(&self, t: i128) -> (r: i128)
        requires
            self@.bounded(EVAL_COEFF_BOUND as int),
            abs(t as int) <= EVAL_ARG_BOUND,
        ensures
            r == self@.spec_eval(t as int),
    {
        let t1 = term1(self.x, t);
        let t2 = term2(self.xx, t, t);
        let t3 = term3(self.xxx, t, t, t);
        self.k + t1 + t2 + t3
    }

    /// The coefficients, lowest degree first.
    pub fn as_slice(&self) -> (r: [i128; 4])
        ensures
            r@ == seq![self.k, self.x, self.xx, self.xxx],
    {
        let r = [self.k, self.x, self.xx, self.xxx];
        assert(r@ =~= seq![self.k, self.x, self.xx, self.xxx]);
        r
    }
}

/// The coefficient list of a cubic, read as a polynomial, is that cubic.
pub proof fn lemma_poly3_coeffs(p: Poly3<i128>, t: int)
    ensures
        peval(seq![p.k, p.x, p.xx, p.xxx], t) == p@.spec_eval(t),
        l1(seq![p.k, p.x, p.xx, p.xxx]) == abs(p.k as int) + abs(p.x as int) + abs(p.xx as int)
            + abs(p.xxx as int),
{
    let s4 = seq![p.k, p.x, p.xx, p.xxx];
    let s3 = seq![p.k, p.x, p.xx];
    let s2 = seq![p.k, p.x];
    let s1 = seq![p.k];
    let s0 = Seq::<i128>::empty();
    assert(s4.drop_last() =~= s3);
    assert(s3.drop_last() =~= s2);
    assert(s2.drop_last() =~= s1);
    assert(s1.drop_last() =~= s0);
    assert(peval(s0, t) == 0);
    assert(peval(s1, t) == peval(s0, t) + p.k * pow(t, 0));
    assert(peval(s2, t) == peval(s1, t) + p.x * pow(t, 1));
    assert(peval(s3, t) == peval(s2, t) + p.xx * pow(t, 2));
    assert(peval(s4, t) == peval(s3, t) + p.xxx * pow(t, 3));
    assert(l1(s0) == 0);
    assert(l1(s1) == l1(s0) + abs(p.k as int));
    assert(l1(s2) == l1(s1) + abs(p.x as int));
    assert(l1(s3) == l1(s2) + abs(p.xx as int));
    assert(l1(s4) == l1(s3) + abs(p.xxx as int));
    reveal(pow);
    assert(pow(t, 0) == 1);
    assert(pow(t, 1) == t * pow(t, 0));
    assert(pow(t, 2) == t * pow(t, 1));
    assert(pow(t, 3) == t * pow(t, 2));
    assert(p.x * (t * 1) == p.x * t) by (nonlinear_arith);
    assert(p.xx * (t * (t * 1)) == p.xx * t * t) by (nonlinear_arith);
    assert(p.xxx * (t * (t * (t * 1))) == p.xxx * t * t * t) by (nonlinear_arith);
}

/// The value of a bivariate cubic, grouped as its coefficients times products of powers.
proof fn lemma_subst_value(p: Poly3x2d<int>, x: int, y: int)
    ensures
        p.spec_eval(x, y) == p.k + p.x * x + p.y * y + p.xx * (x * x) + p.xy * (x * y) + p.yy * (
        y * y) + p.xxy * (x * x * y) + p.xyy * (x * (y * y)) + p.xxx * (x * x * x) + p.yyy * (y
            * y * y),
{
    assert(p.xx * x * x == p.xx * (x * x)) by (nonlinear_arith);
    assert(p.xy * x * y == p.xy * (x * y)) by (nonlinear_arith);
    assert(p.yy * y * y == p.yy * (y * y)) by (nonlinear_arith);
    assert(p.xxy * x * x * y == p.xxy * (x * x * y)) by (nonlinear_arith);
    assert(p.xyy * x * y * y == p.xyy * (x * (y * y))) by (nonlinear_arith);
    assert(p.xxx * x * x * x == p.xxx * (x * x * x)) by (nonlinear_arith);
    assert(p.yyy * y * y * y == p.yyy * (y * y * y)) by (nonlinear_arith);
}

/// Adds `c a` into `out`, keeping the running bound `l1(out) <= used q3`.
fn accumulate(
    out: &mut Vec<i128>,
    c: i128,
    a: &Vec<i128>,
    Ghost(used): Ghost<int>,
    Ghost(total): Ghost<int>,
    Ghost(q3): Ghost<int>,
)
    requires
        a@.len() <= old(out)@.len(),
        0 <= l1(a@) <= q3,
        0 <= used,
        l1(old(out)@) <= used * q3,
        used + abs(c as int) <= total,
        total * q3 <= LIMIT,
    ensures
        final(out)@.len() == old(out)@.len(),
        forall|t: int| #[trigger] peval(final(out)@, t) == peval(old(out)@, t) + c * peval(a@, t),
        l1(final(out)@) <= (used + abs(c as int)) * q3,
{
    proof {
        lemma_mul_le(abs(c as int), l1(a@), abs(c as int), q3);
        lemma_mul_le(used + abs(c as int), q3, total, q3);
        assert(used * q3 + abs(c as int) * q3 == (used + abs(c as int)) * q3) by (nonlinear_arith);
    }
    add_scaled(out, c, a);
}

impl Poly3x2d<i128> {
    /// Substitutes the polynomials with coefficient lists `x` and `y` (lowest degree first)
    /// for the two variables, and returns the coefficient list of the resulting univariate
    /// polynomial, of degree three times the longer list's degree.
    pub fn subst(&self, x: &[i128], y: &[i128]) -> (r: Vec<i128>)
        requires
            1 <= x@.len() <= SUBST_MAX_LEN,
            1 <= y@.len() <= SUBST_MAX_LEN,
            (self@.abs_sum() + 1) * ((1 + l1(x@) + l1(y@)) * (1 + l1(x@) + l1(y@)) * (1 + l1(x@)
                + l1(y@))) <= LIMIT,
        ensures
            r@.len() == 3 * (if x@.len() < y@.len() { y@.len() } else { x@.len() }) - 2,
            forall|t: int| #[trigger]
                peval(r@, t) == self@.spec_eval(peval(x@, t), peval(y@, t)),
    {
        let xs = copy_coeffs(x);
        let ys = copy_coeffs(y);
        let ghost lx = l1(x@);
        let ghost ly = l1(y@);
        let ghost q = 1 + lx + ly;
        let ghost q3 = q * q * q;
        let ghost total = self@.abs_sum();
        proof {
            lemma_l1_nonneg(x@);
            lemma_l1_nonneg(y@);
            lemma_mul_le(1, 1, q, q);
            lemma_mul_le(q, 1, q, q);
            lemma_mul_le(q * q, 1, q * q, q);
            lemma_mul_le(lx, lx, q, q);
            lemma_mul_le(lx, ly, q, q);
            lemma_mul_le(ly, ly, q, q);
            lemma_mul_le(total + 1, 1, total + 1, q3);
            lemma_mul_le(total, q3, total + 1, q3);
            lemma_mul_le(1, q3, total + 1, q3);
        }
        let x2 = poly_mul(&xs, &xs);
        let y2 = poly_mul(&ys, &ys);
        let xy = poly_mul(&xs, &ys);
        proof {
            lemma_l1_nonneg(x2@);
            lemma_l1_nonneg(y2@);
            lemma_l1_nonneg(xy@);
            lemma_mul_le(l1(x2@), lx, q * q, q);
            lemma_mul_le(l1(y2@), ly, q * q, q);
            lemma_mul_le(l1(x2@), ly, q * q, q);
            lemma_mul_le(lx, l1(y2@), q, q * q);
            assert(q * (q * q) == q3) by (nonlinear_arith)
                requires
                    q3 == q * q * q,
            ;
        }
        let x3 = poly_mul(&x2, &xs);
        let y3 = poly_mul(&y2, &ys);
        let x2y = poly_mul(&x2, &ys);
        let xy2 = poly_mul(&xs, &y2);
        proof {
            lemma_l1_nonneg(x3@);
            lemma_l1_nonneg(y3@);
            lemma_l1_nonneg(x2y@);
            lemma_l1_nonneg(xy2@);
        }
        let m = if xs.len() < ys.len() {
            ys.len()
        } else {
            xs.len()
        };
        let mut out = zeros(3 * m - 2);
        let ghost o0 = out@;
        out.set(0, self.k);
        proof {
            assert forall|t: int| #[trigger] peval(out@, t) == self.k by {
                lemma_peval_update(o0, 0, self.k, t);
                reveal(pow);
                assert(pow(t, 0) == 1);
            }
            lemma_peval_update(o0, 0, self.k, 0);
            let a = abs(self.k as int);
            lemma_mul_le(1, a, q3, a);
            assert(a * q3 == q3 * a) by (nonlinear_arith);
        }
        let ghost u0 = abs(self.k as int);
        let ghost s0 = out@;
        accumulate(&mut out, self.x, &xs, Ghost(u0), Ghost(total), Ghost(q3));
        let ghost u1 = u0 + abs(self.x as int);
        let ghost s1 = out@;
        accumulate(&mut out, self.y, &ys, Ghost(u1), Ghost(total), Ghost(q3));
        let ghost u2 = u1 + abs(self.y as int);
        let ghost s2 = out@;
        accumulate(&mut out, self.xx, &x2, Ghost(u2), Ghost(total), Ghost(q3));
        let ghost u3 = u2 + abs(self.xx as int);
        let ghost s3 = out@;
        accumulate(&mut out, self.xy, &xy, Ghost(u3), Ghost(total), Ghost(q3));
        let ghost u4 = u3 + abs(self.xy as int);
        let ghost s4 = out@;
        accumulate(&mut out, self.yy, &y2, Ghost(u4), Ghost(total), Ghost(q3));
        let ghost u5 = u4 + abs(self.yy as int);
        let ghost s5 = out@;
        accumulate(&mut out, self.xxy, &x2y, Ghost(u5), Ghost(total), Ghost(q3));
        let ghost u6 = u5 + abs(self.xxy as int);
        let ghost s6 = out@;
        accumulate(&mut out, self.xyy, &xy2, Ghost(u6), Ghost(total), Ghost(q3));
        let ghost u7 = u6 + abs(self.xyy as int);
        let ghost s7 = out@;
        accumulate(&mut out, self.xxx, &x3, Ghost(u7), Ghost(total), Ghost(q3));
        let ghost u8 = u7 + abs(self.xxx as int);
        let ghost s8 = out@;
        accumulate(&mut out, self.yyy, &y3, Ghost(u8), Ghost(total), Ghost(q3));
        proof {
            assert forall|t: int| #[trigger]
                peval(out@, t) == self@.spec_eval(peval(x@, t), peval(y@, t)) by {
                let vx = peval(x@, t);
                let vy = peval(y@, t);
                assert(peval(s0, t) == self.k);
                assert(peval(s1, t) == peval(s0, t) + self.x * vx);
                assert(peval(s2, t) == peval(s1, t) + self.y * vy);
                assert(peval(s3, t) == peval(s2, t) + self.xx * (vx * vx));
                assert(peval(s4, t) == peval(s3, t) + self.xy * (vx * vy));
                assert(peval(s5, t) == peval(s4, t) + self.yy * (vy * vy));
                assert(peval(s6, t) == peval(s5, t) + self.xxy * (vx * vx * vy));
                assert(peval(s7, t) == peval(s6, t) + self.xyy * (vx * (vy * vy)));
                assert(peval(s8, t) == peval(s7, t) + self.xxx * (vx * vx * vx));
                assert(peval(out@, t) == peval(s8, t) + self.yyy * (vy * vy * vy));
                lemma_subst_value(self@, vx, vy);
            }
        }
        out
    }

    /// Substitutes the cubics `px` and `py` for the two variables: the coefficient list, lowest
    /// degree first, of the polynomial `t -> self(px(t), py(t))`, of degree nine.
    pub fn subst_cubics(&self, px: &Poly3<i128>, py: &Poly3<i128>) -> (r: Vec<i128>)
        requires
            (self@.abs_sum() + 1) * ((1 + px@.abs_sum() + py@.abs_sum()) * (1 + px@.abs_sum()
                + py@.abs_sum()) * (1 + px@.abs_sum() + py@.abs_sum())) <= LIMIT,
        ensures
            r@.len() == 10,
            forall|t: int| #[trigger]
                peval(r@, t) == self@.spec_eval(px@.spec_eval(t), py@.spec_eval(t)),
    {
        let xs = px.as_slice();
        let ys = py.as_slice();
        proof {
            lemma_poly3_coeffs(*px, 0);
            lemma_poly3_coeffs(*py, 0);
        }
        let r = self.subst(&xs, &ys);
        proof {
            assert forall|t: int| #[trigger]
                peval(r@, t) == self@.spec_eval(px@.spec_eval(t), py@.spec_eval(t)) by {
                lemma_poly3_coeffs(*px, t);
                lemma_poly3_coeffs(*py, t);
            }
        }
        r
    }
}

} // verus!
