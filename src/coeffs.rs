//! Dense univariate polynomials held as coefficient lists, lowest degree first.
use vstd::arithmetic::power::{lemma_pow_adds, pow};
use vstd::prelude::*;

verus! {

/// Largest magnitude that every value computed by this crate stays within.
pub const LIMIT: i128 = 170141183460469231731687303715884105727;

pub open spec fn abs(v: int) -> int {
    if v < 0 {
        -v
    } else {
        v
    }
}

/// The polynomial with coefficients `c` (index = degree), evaluated at `t`.
pub open spec fn peval(c: Seq<i128>, t: int) -> int
    decreases c.len(),
{
    if c.len() == 0 {
        0
    } else {
        peval(c.drop_last(), t) + c.last() * pow(t, (c.len() - 1) as nat)
    }
}

/// Sum of the magnitudes of the coefficients.
pub open spec fn l1(c: Seq<i128>) -> int
    decreases c.len(),
{
    if c.len() == 0 {
        0
    } else {
        l1(c.drop_last()) + abs(c.last() as int)
    }
}

pub proof fn lemma_l1_nonneg(c: Seq<i128>)
    ensures
        l1(c) >= 0,
    decreases c.len(),
{
    if c.len() > 0 {
        lemma_l1_nonneg(c.drop_last());
    }
}

pub proof fn lemma_elem_le_l1(c: Seq<i128>, k: int)
    requires
        0 <= k < c.len(),
    ensures
        abs(c[k] as int) <= l1(c),
    decreases c.len(),
{
    lemma_l1_nonneg(c.drop_last());
    if k < c.len() - 1 {
        lemma_elem_le_l1(c.drop_last(), k);
    }
}

pub proof fn lemma_l1_prefix(c: Seq<i128>, i: int)
    requires
        0 <= i < c.len(),
    ensures
        l1(c.subrange(0, i + 1)) == l1(c.subrange(0, i)) + abs(c[i] as int),
        l1(c.subrange(0, i)) <= l1(c),
{
    assert(c.subrange(0, i + 1).drop_last() =~= c.subrange(0, i));
    lemma_l1_prefix_le(c, i);
}

pub proof fn lemma_l1_prefix_le(c: Seq<i128>, i: int)
    requires
        0 <= i <= c.len(),
    ensures
        l1(c.subrange(0, i)) <= l1(c),
    decreases c.len() - i,
{
    if i < c.len() {
        assert(c.subrange(0, i + 1).drop_last() =~= c.subrange(0, i));
        lemma_l1_prefix_le(c, i + 1);
    } else {
        assert(c.subrange(0, i) =~= c);
    }
}

pub proof fn lemma_peval_prefix(c: Seq<i128>, i: int, t: int)
    requires
        0 <= i < c.len(),
    ensures
        peval(c.subrange(0, i + 1), t) == peval(c.subrange(0, i), t) + c[i] * pow(t, i as nat),
{
    assert(c.subrange(0, i + 1).drop_last() =~= c.subrange(0, i));
}

/// Adding `v` to the coefficient of degree `k` adds `v * t^k` to every value.
pub proof fn lemma_peval_update(c: Seq<i128>, k: int, n: i128, t: int)
    requires
        0 <= k < c.len(),
    ensures
        peval(c.update(k, n), t) == peval(c, t) + (n - c[k]) * pow(t, k as nat),
        l1(c.update(k, n)) == l1(c) + abs(n as int) - abs(c[k] as int),
    decreases c.len(),
{
    let u = c.update(k, n);
    if k == c.len() - 1 {
        assert(u.drop_last() =~= c.drop_last());
        assert(peval(u, t) == peval(c, t) + (n - c[k]) * pow(t, k as nat)) by (nonlinear_arith)
            requires
                peval(u, t) == peval(c.drop_last(), t) + n * pow(t, k as nat),
                peval(c, t) == peval(c.drop_last(), t) + c[k] * pow(t, k as nat),
        ;
    } else {
        assert(u.drop_last() =~= c.drop_last().update(k, n));
        lemma_peval_update(c.drop_last(), k, n, t);
    }
}

/// A list of `n` zero coefficients.
pub fn zeros(n: usize) -> (r: Vec<i128>)
    ensures
        r@.len() == n,
        forall|i: int| 0 <= i < n ==> r@[i] == 0,
        forall|t: int| #[trigger] peval(r@, t) == 0,
        l1(r@) == 0,
{
    let mut r: Vec<i128> = Vec::new();
    let mut i: usize = 0;
    while i < n
        invariant
            i <= n,
            r@.len() == i,
            forall|j: int| 0 <= j < i ==> r@[j] == 0,
            forall|t: int| #[trigger] peval(r@, t) == 0,
            l1(r@) == 0,
        decreases n - i,
    {
        let ghost old_r = r@;
        r.push(0);
        assert(r@.drop_last() =~= old_r);
        assert forall|t: int| #[trigger] peval(r@, t) == 0 by {
            assert(peval(r@, t) == peval(old_r, t) + 0 * pow(t, i as nat));
        }
        i = i + 1;
    }
    r
}

pub proof fn lemma_mul_abs_le(a: int, b: int, ma: int, mb: int)
    requires
        abs(a) <= ma,
        abs(b) <= mb,
    ensures
        abs(a * b) <= ma * mb,
        abs(a * b) == abs(a) * abs(b),
{
    assert(abs(a * b) == abs(a) * abs(b)) by (nonlinear_arith);
    assert(abs(a) * abs(b) <= ma * mb) by (nonlinear_arith)
        requires
            0 <= abs(a) <= ma,
            0 <= abs(b) <= mb,
    ;
}

/// A copy of a coefficient slice.
pub fn copy_coeffs(s: &[i128]) -> (r: Vec<i128>)
    ensures
        r@ == s@,
{
    let mut r: Vec<i128> = Vec::new();
    let mut i: usize = 0;
    while i < s.len()
        invariant
            i <= s@.len(),
            r@ == s@.subrange(0, i as int),
        decreases s@.len() - i,
    {
        r.push(s[i]);
        i = i + 1;
        assert(r@ =~= s@.subrange(0, i as int));
    }
    assert(s@.subrange(0, s@.len() as int) =~= s@);
    r
}

/// Monotonicity of products of non-negative values.
pub proof fn lemma_mul_le(a: int, b: int, c: int, d: int)
    requires
        0 <= a <= c,
        0 <= b <= d,
    ensures
        0 <= a * b <= c * d,
{
    assert(0 <= a * b <= c * d) by (nonlinear_arith)
        requires
            0 <= a <= c,
            0 <= b <= d,
    ;
}

/// Product of two polynomials: the convolution of their coefficient lists.
pub fn poly_mul(a: &Vec<i128>, b: &Vec<i128>) -> (r: Vec<i128>)
    requires
        a@.len() >= 1,
        b@.len() >= 1,
        a@.len() + b@.len() <= usize::MAX,
        l1(a@) * l1(b@) <= LIMIT,
    ensures
        r@.len() == a@.len() + b@.len() - 1,
        forall|t: int| #[trigger] peval(r@, t) == peval(a@, t) * peval(b@, t),
        l1(r@) <= l1(a@) * l1(b@),
{
    let n = a.len() + b.len() - 1;
    let mut r = zeros(n);
    let mut i: usize = 0;
    proof {
        lemma_l1_nonneg(a@);
        lemma_l1_nonneg(b@);
    }
    while i < a.len()
        invariant
            0 <= i <= a@.len(),
            n == a@.len() + b@.len() - 1,
            r@.len() == n,
            l1(a@) * l1(b@) <= LIMIT,
            l1(a@) >= 0,
            l1(b@) >= 0,
            forall|t: int| #[trigger]
                peval(r@, t) == peval(a@.subrange(0, i as int), t) * peval(b@, t),
            l1(r@) <= l1(a@.subrange(0, i as int)) * l1(b@),
        decreases a@.len() - i,
    {
        let ai = a[i];
        let mut j: usize = 0;
        proof {
            lemma_l1_prefix(a@, i as int);
            lemma_l1_prefix_le(a@, i as int + 1);
            lemma_l1_nonneg(a@.subrange(0, i as int));
            assert(b@.subrange(0, 0) =~= Seq::<i128>::empty());
        }
        while j < b.len()
            invariant
                0 <= i < a@.len(),
                0 <= j <= b@.len(),
                ai == a@[i as int],
                n == a@.len() + b@.len() - 1,
                r@.len() == n,
                l1(a@) * l1(b@) <= LIMIT,
                l1(a@) >= 0,
                l1(b@) >= 0,
                l1(a@.subrange(0, i as int)) >= 0,
                l1(a@.subrange(0, i as int + 1)) == l1(a@.subrange(0, i as int)) + abs(ai as int),
                l1(a@.subrange(0, i as int + 1)) <= l1(a@),
                forall|t: int| #[trigger]
                    peval(r@, t) == peval(a@.subrange(0, i as int), t) * peval(b@, t) + ai
                        * pow(t, i as nat) * peval(b@.subrange(0, j as int), t),
                l1(r@) <= l1(a@.subrange(0, i as int)) * l1(b@) + abs(ai as int) * l1(
                    b@.subrange(0, j as int),
                ),
            decreases b@.len() - j,
        {
            let bj = b[j];
            let k = i + j;
            let ghost pa = l1(a@.subrange(0, i as int));
            let ghost pb = l1(b@.subrange(0, j as int));
            let ghost la = l1(a@);
            let ghost lb = l1(b@);
            proof {
                lemma_l1_prefix(b@, j as int);
                lemma_l1_prefix_le(b@, j as int + 1);
                lemma_l1_nonneg(b@.subrange(0, j as int));
                lemma_elem_le_l1(r@, k as int);
                lemma_elem_le_l1(a@, i as int);
                lemma_elem_le_l1(b@, j as int);
                lemma_mul_abs_le(ai as int, bj as int, la, lb);
                lemma_mul_abs_le(ai as int, bj as int, abs(ai as int), abs(bj as int));
                assert(abs(ai as int) * pb + abs(ai as int) * abs(bj as int) == abs(ai as int) * (
                pb + abs(bj as int))) by (nonlinear_arith);
                assert(pa * lb + abs(ai as int) * (pb + abs(bj as int)) <= la * lb)
                    by (nonlinear_arith)
                    requires
                        pa >= 0,
                        pb + abs(bj as int) <= lb,
                        abs(ai as int) >= 0,
                        pa + abs(ai as int) <= la,
                        lb >= 0,
                ;
                assert(0 <= pa * lb) by (nonlinear_arith)
                    requires
                        pa >= 0,
                        lb >= 0,
                ;
            }
            let prod = ai * bj;
            let nv = r[k] + prod;
            let ghost old_r = r@;
            r.set(k, nv);
            proof {
                assert forall|t: int| #[trigger]
                    peval(r@, t) == peval(a@.subrange(0, i as int), t) * peval(b@, t) + ai
                        * pow(t, i as nat) * peval(b@.subrange(0, j as int + 1), t) by {
                    lemma_peval_update(old_r, k as int, nv, t);
                    lemma_peval_prefix(b@, j as int, t);
                    lemma_pow_adds(t, i as nat, j as nat);
                    let pi = pow(t, i as nat);
                    let pj = pow(t, j as nat);
                    let sb = peval(b@.subrange(0, j as int), t);
                    assert(ai * bj * (pi * pj) + ai * pi * sb == ai * pi * (sb + bj * pj))
                        by (nonlinear_arith);
                }
                lemma_peval_update(old_r, k as int, nv, 0);
            }
            j = j + 1;
        }
        proof {
            assert(b@.subrange(0, b@.len() as int) =~= b@);
            assert forall|t: int| #[trigger]
                peval(r@, t) == peval(a@.subrange(0, i as int + 1), t) * peval(b@, t) by {
                lemma_peval_prefix(a@, i as int, t);
                let sa = peval(a@.subrange(0, i as int), t);
                let sb = peval(b@, t);
                let pi = pow(t, i as nat);
                assert(sa * sb + ai * pi * sb == (sa + ai * pi) * sb) by (nonlinear_arith);
            }
            let pa = l1(a@.subrange(0, i as int));
            let lb = l1(b@);
            assert(pa * lb + abs(ai as int) * lb == (pa + abs(ai as int)) * lb)
                by (nonlinear_arith);
        }
        i = i + 1;
    }
    proof {
        assert(a@.subrange(0, a@.len() as int) =~= a@);
    }
    r
}

/// Adds `c` times the polynomial `a` into `out`, which is at least as long as `a`.
pub fn add_scaled(out: &mut Vec<i128>, c: i128, a: &Vec<i128>)
    requires
        a@.len() <= old(out)@.len(),
        l1(old(out)@) + abs(c as int) * l1(a@) <= LIMIT,
    ensures
        final(out)@.len() == old(out)@.len(),
        forall|t: int| #[trigger] peval(final(out)@, t) == peval(old(out)@, t) + c * peval(a@, t),
        l1(final(out)@) <= l1(old(out)@) + abs(c as int) * l1(a@),
{
    let ghost o = out@;
    let mut i: usize = 0;
    proof {
        lemma_l1_nonneg(a@);
        assert(a@.subrange(0, 0) =~= Seq::<i128>::empty());
        assert(abs(c as int) * l1(a@) >= 0) by (nonlinear_arith)
            requires
                l1(a@) >= 0,
        ;
    }
    while i < a.len()
        invariant
            0 <= i <= a@.len(),
            a@.len() <= out@.len(),
            out@.len() == o.len(),
            l1(o) + abs(c as int) * l1(a@) <= LIMIT,
            l1(a@) >= 0,
            forall|t: int| #[trigger]
                peval(out@, t) == peval(o, t) + c * peval(a@.subrange(0, i as int), t),
            l1(out@) <= l1(o) + abs(c as int) * l1(a@.subrange(0, i as int)),
        decreases a@.len() - i,
    {
        let ai = a[i];
        let ghost pa = l1(a@.subrange(0, i as int));
        proof {
            lemma_l1_prefix(a@, i as int);
            lemma_l1_prefix_le(a@, i as int + 1);
            lemma_l1_nonneg(a@.subrange(0, i as int));
            lemma_elem_le_l1(out@, i as int);
            lemma_mul_abs_le(c as int, ai as int, abs(c as int), abs(ai as int));
            assert(abs(c as int) * pa + abs(c as int) * abs(ai as int) <= abs(c as int) * l1(a@))
                by (nonlinear_arith)
                requires
                    pa + abs(ai as int) <= l1(a@),
                    abs(c as int) >= 0,
            ;
            assert(abs(c as int) * pa >= 0) by (nonlinear_arith)
                requires
                    pa >= 0,
                    abs(c as int) >= 0,
            ;
        }
        let prod = c * ai;
        let nv = out[i] + prod;
        let ghost old_out = out@;
        out.set(i, nv);
        proof {
            assert forall|t: int| #[trigger]
                peval(out@, t) == peval(o, t) + c * peval(a@.subrange(0, i as int + 1), t) by {
                lemma_peval_update(old_out, i as int, nv, t);
                lemma_peval_prefix(a@, i as int, t);
                let sa = peval(a@.subrange(0, i as int), t);
                let pi = pow(t, i as nat);
                assert(c * sa + c * ai * pi == c * (sa + ai * pi)) by (nonlinear_arith);
            }
            lemma_peval_update(old_out, i as int, nv, 0);
            assert(abs(c as int) * pa + abs(c as int) * abs(ai as int) == abs(c as int) * (pa
                + abs(ai as int))) by (nonlinear_arith);
        }
        i = i + 1;
    }
    proof {
        assert(a@.subrange(0, a@.len() as int) =~= a@);
    }
}

} // verus!
