//! Associativity of matrix multiplication, proved over exact fractions.
//!
//! The proof is the classical double-sum exchange.  Entry (i, j) of
//! `(a * b) * c` is a sum over `k` of sums over `l` of the triple products
//! `(a(i,l) * b(l,k)) * c(k,j)`, and entry (i, j) of `a * (b * c)` is the
//! same family of triple products summed in the other order.  The sums
//! below spell out both orders; the lemmas push multiplication through a
//! running sum, reassociate the triple products, and exchange the two sum
//! orders, all up to fraction equivalence.

use vstd::prelude::*;

use crate::matrix::Matrix;
use crate::matrix::dot;
use crate::scalar::frac_add;
use crate::scalar::frac_eqv;
use crate::scalar::frac_mul;

verus! {

/// Nonlinear integer facts used throughout: sign of a product, a zero or
/// unit factor, commutativity and associativity.
proof fn nl_facts(a: int, b: int, c: int)
    by (nonlinear_arith)
    ensures
        a * b == b * a,
        (a * b) * c == a * (b * c),
        a > 0 && b > 0 ==> a * b > 0,
        a == 0 ==> a * b == 0,
        b == 0 ==> a * b == 0,
        a == 1 ==> a * b == b,
        b == 1 ==> a * b == a,
{
}

/// Three factors shuffle freely.
proof fn nl_shuffle3(a: int, b: int, c: int)
    by (nonlinear_arith)
    ensures
        (a * b) * c == (a * c) * b,
        (a * b) * c == a * (b * c),
{
}

/// A positive common factor cancels.
proof fn nl_cancel(p: int, q: int, k: int)
    by (nonlinear_arith)
    requires
        p * k == q * k,
        k > 0,
    ensures
        p == q,
{
}

/// A sum of two terms multiplies through, on either side.
proof fn nl_distrib2(p: int, q: int, r: int)
    by (nonlinear_arith)
    ensures
        (p + q) * r == p * r + q * r,
        r * (p + q) == r * p + r * q,
{
}

/// Four factors of a product pair up in any order.
proof fn nl_shuffle4(a: int, b: int, c: int, d: int)
    by (nonlinear_arith)
    ensures
        (a * b) * (c * d) == (a * c) * (b * d),
        (a * b) * (c * d) == (a * d) * (b * c),
        (a * b) * (c * d) == (a * c) * (d * b),
        (a * b) * (c * d) == (a * d) * (c * b),
{
}

/// Fraction equivalence is transitive through a fraction with a positive
/// denominator.
proof fn lemma_eqv_trans(x: (int, int), y: (int, int), z: (int, int))
    requires
        frac_eqv(x, y),
        frac_eqv(y, z),
        y.1 > 0,
    ensures
        frac_eqv(x, z),
{
    nl_shuffle3(x.0, z.1, y.1);
    assert((x.0 * y.1) * z.1 == (y.0 * x.1) * z.1);
    nl_shuffle3(y.0, x.1, z.1);
    nl_shuffle3(y.0, z.1, x.1);
    assert((y.0 * z.1) * x.1 == (z.0 * y.1) * x.1);
    nl_shuffle3(z.0, y.1, x.1);
    nl_shuffle3(z.0, x.1, y.1);
    nl_cancel(x.0 * z.1, z.0 * x.1, y.1);
}

/// Sums of equivalent fractions are equivalent.
proof fn lemma_cong_add(x: (int, int), y: (int, int), u: (int, int), v: (int, int))
    requires
        frac_eqv(x, u),
        frac_eqv(y, v),
    ensures
        frac_eqv(frac_add(x, y), frac_add(u, v)),
{
    nl_distrib2(x.0 * y.1, y.0 * x.1, u.1 * v.1);
    nl_shuffle4(x.0, y.1, u.1, v.1);
    nl_shuffle4(y.0, x.1, u.1, v.1);
    nl_distrib2(u.0 * v.1, v.0 * u.1, x.1 * y.1);
    nl_shuffle4(u.0, v.1, x.1, y.1);
    nl_shuffle4(v.0, u.1, x.1, y.1);
    nl_facts(y.1, v.1, 1);
    nl_facts(x.1, u.1, 1);
    assert((x.0 * y.1 + y.0 * x.1) * (u.1 * v.1) == (x.0 * u.1) * (y.1 * v.1) + (y.0 * v.1) * (
    x.1 * u.1));
    assert((u.0 * v.1 + v.0 * u.1) * (x.1 * y.1) == (u.0 * x.1) * (v.1 * y.1) + (v.0 * y.1) * (
    u.1 * x.1));
}

/// Multiplication on the right distributes over a sum of fractions.
proof fn lemma_distrib_right(x: (int, int), y: (int, int), c: (int, int))
    ensures
        frac_eqv(frac_mul(frac_add(x, y), c), frac_add(frac_mul(x, c), frac_mul(y, c))),
{
    let s0 = x.0 * y.1 + y.0 * x.1;
    let s1 = x.1 * y.1;
    nl_shuffle4(x.0, c.0, y.1, c.1);
    nl_shuffle4(y.0, c.0, x.1, c.1);
    nl_distrib2(x.0 * y.1, y.0 * x.1, c.0 * c.1);
    nl_shuffle3(s0, c.0, c.1);
    // the right-hand numerator is the left-hand one scaled by c.1
    assert((x.0 * c.0) * (y.1 * c.1) + (y.0 * c.0) * (x.1 * c.1) == (s0 * c.0) * c.1);
    nl_shuffle4(x.1, c.1, y.1, c.1);
    nl_shuffle3(s1, c.1, c.1);
    assert((x.1 * c.1) * (y.1 * c.1) == (s1 * c.1) * c.1);
    nl_shuffle3(s0 * c.0, s1 * c.1, c.1);
    nl_shuffle3(s0 * c.0, c.1, s1 * c.1);
    nl_shuffle3(s0 * c.0, c.1, s1);
}

/// Multiplication on the left distributes over a sum of fractions.
proof fn lemma_distrib_left(c: (int, int), x: (int, int), y: (int, int))
    ensures
        frac_eqv(frac_mul(c, frac_add(x, y)), frac_add(frac_mul(c, x), frac_mul(c, y))),
{
    let s0 = x.0 * y.1 + y.0 * x.1;
    let s1 = x.1 * y.1;
    nl_shuffle4(c.0, x.0, c.1, y.1);
    nl_shuffle4(c.0, y.0, c.1, x.1);
    nl_distrib2(x.0 * y.1, y.0 * x.1, c.0 * c.1);
    nl_facts(c.0 * c.1, s0, 1);
    nl_shuffle3(c.0, c.1, s0);
    nl_shuffle3(c.0, s0, c.1);
    // the right-hand numerator is the left-hand one scaled by c.1
    assert((c.0 * x.0) * (c.1 * y.1) + (c.0 * y.0) * (c.1 * x.1) == (c.0 * s0) * c.1);
    nl_shuffle4(c.1, x.1, c.1, y.1);
    nl_shuffle3(c.1, c.1, s1);
    nl_shuffle3(c.1, s1, c.1);
    assert((c.1 * x.1) * (c.1 * y.1) == (c.1 * s1) * c.1);
    nl_shuffle3(c.0 * s0, c.1 * s1, c.1);
    nl_shuffle3(c.0 * s0, c.1, c.1 * s1);
    nl_shuffle3(c.0 * s0, c.1, c.1);
}

/// Two two-term sums of fractions regroup exactly.
proof fn lemma_regroup(a: (int, int), b: (int, int), x: (int, int), y: (int, int))
    ensures
        frac_add(frac_add(a, b), frac_add(x, y)) == frac_add(frac_add(a, x), frac_add(b, y)),
{
    nl_distrib2(a.0 * b.1, b.0 * a.1, x.1 * y.1);
    nl_distrib2(x.0 * y.1, y.0 * x.1, a.1 * b.1);
    nl_distrib2(a.0 * x.1, x.0 * a.1, b.1 * y.1);
    nl_distrib2(b.0 * y.1, y.0 * b.1, a.1 * x.1);
    nl_shuffle4(a.0, b.1, x.1, y.1);
    nl_shuffle4(b.0, a.1, x.1, y.1);
    nl_shuffle4(x.0, y.1, a.1, b.1);
    nl_shuffle4(y.0, x.1, a.1, b.1);
    nl_shuffle4(a.0, x.1, b.1, y.1);
    nl_shuffle4(x.0, a.1, b.1, y.1);
    nl_shuffle4(b.0, y.1, a.1, x.1);
    nl_shuffle4(y.0, b.1, a.1, x.1);
    nl_shuffle4(a.1, b.1, x.1, y.1);
    assert((a.0 * b.1 + b.0 * a.1) * (x.1 * y.1) + (x.0 * y.1 + y.0 * x.1) * (a.1 * b.1) == (a.0
        * x.1 + x.0 * a.1) * (b.1 * y.1) + (b.0 * y.1 + y.0 * b.1) * (a.1 * x.1));
    assert((a.1 * b.1) * (x.1 * y.1) == (a.1 * x.1) * (b.1 * y.1));
}

/// The sum over `l < m` of `(a(i,l) * b(l,k)) * c(k,j)`.
spec fn tsum<const R: usize, const B: usize, const C: usize, const K: usize>(
    a: Matrix<R, B>,
    b: Matrix<B, C>,
    c: Matrix<C, K>,
    i: int,
    j: int,
    k: int,
    m: int,
) -> (int, int)
    decreases m,
{
    if m <= 0 {
        (0int, 1int)
    } else {
        frac_add(
            tsum(a, b, c, i, j, k, m - 1),
            frac_mul(frac_mul(a.at(i, m - 1), b.at(m - 1, k)), c.at(k, j)),
        )
    }
}

/// The sum over `l < m` of `a(i,l) * (b(l,k) * c(k,j))`.
spec fn vsum<const R: usize, const B: usize, const C: usize, const K: usize>(
    a: Matrix<R, B>,
    b: Matrix<B, C>,
    c: Matrix<C, K>,
    i: int,
    j: int,
    k: int,
    m: int,
) -> (int, int)
    decreases m,
{
    if m <= 0 {
        (0int, 1int)
    } else {
        frac_add(
            vsum(a, b, c, i, j, k, m - 1),
            frac_mul(a.at(i, m - 1), frac_mul(b.at(m - 1, k), c.at(k, j))),
        )
    }
}

/// The sum over `k < n` of `a(i,l) * (b(l,k) * c(k,j))`.
spec fn usum<const R: usize, const B: usize, const C: usize, const K: usize>(
    a: Matrix<R, B>,
    b: Matrix<B, C>,
    c: Matrix<C, K>,
    i: int,
    j: int,
    l: int,
    n: int,
) -> (int, int)
    decreases n,
{
    if n <= 0 {
        (0int, 1int)
    } else {
        frac_add(
            usum(a, b, c, i, j, l, n - 1),
            frac_mul(a.at(i, l), frac_mul(b.at(l, n - 1), c.at(n - 1, j))),
        )
    }
}

/// The sum over `k < n` of the row sums `tsum(.., k, m)`.
spec fn ksum<const R: usize, const B: usize, const C: usize, const K: usize>(
    a: Matrix<R, B>,
    b: Matrix<B, C>,
    c: Matrix<C, K>,
    i: int,
    j: int,
    n: int,
    m: int,
) -> (int, int)
    decreases n,
{
    if n <= 0 {
        (0int, 1int)
    } else {
        frac_add(ksum(a, b, c, i, j, n - 1, m), tsum(a, b, c, i, j, n - 1, m))
    }
}

/// The sum over `l < m` of the column sums `usum(.., l, n)`.
spec fn lsum<const R: usize, const B: usize, const C: usize, const K: usize>(
    a: Matrix<R, B>,
    b: Matrix<B, C>,
    c: Matrix<C, K>,
    i: int,
    j: int,
    m: int,
    n: int,
) -> (int, int)
    decreases m,
{
    if m <= 0 {
        (0int, 1int)
    } else {
        frac_add(lsum(a, b, c, i, j, m - 1, n), usum(a, b, c, i, j, m - 1, n))
    }
}

/// Well-formed operands for the whole associativity argument.
spec fn assoc_wf<const R: usize, const B: usize, const C: usize, const K: usize>(
    a: Matrix<R, B>,
    b: Matrix<B, C>,
    c: Matrix<C, K>,
    i: int,
    j: int,
) -> bool {
    &&& a.wf()
    &&& b.wf()
    &&& c.wf()
    &&& 0 <= i < R as int
    &&& 0 <= j < K as int
}

/// The running inner product of two well-formed matrices keeps a positive
/// denominator.
proof fn lemma_dot_pos<const R: usize, const C: usize, const K: usize>(
    a: Matrix<R, C>,
    b: Matrix<C, K>,
    i: int,
    j: int,
    n: int,
)
    requires
        a.wf(),
        b.wf(),
        0 <= i < R as int,
        0 <= j < K as int,
        0 <= n <= C as int,
    ensures
        dot(a, b, i, j, n).1 > 0,
    decreases n,
{
    if n > 0 {
        lemma_dot_pos(a, b, i, j, n - 1);
        nl_facts(a.at(i, n - 1).1, b.at(n - 1, j).1, 1);
        nl_facts(dot(a, b, i, j, n - 1).1, a.at(i, n - 1).1 * b.at(n - 1, j).1, 1);
    }
}

/// The triple-product row sums keep positive denominators.
proof fn lemma_tv_pos<const R: usize, const B: usize, const C: usize, const K: usize>(
    a: Matrix<R, B>,
    b: Matrix<B, C>,
    c: Matrix<C, K>,
    i: int,
    j: int,
    k: int,
    m: int,
)
    requires
        assoc_wf(a, b, c, i, j),
        0 <= k < C as int,
        0 <= m <= B as int,
    ensures
        tsum(a, b, c, i, j, k, m).1 > 0,
        vsum(a, b, c, i, j, k, m).1 > 0,
    decreases m,
{
    if m > 0 {
        lemma_tv_pos(a, b, c, i, j, k, m - 1);
        nl_facts(a.at(i, m - 1).1, b.at(m - 1, k).1, 1);
        nl_facts(a.at(i, m - 1).1 * b.at(m - 1, k).1, c.at(k, j).1, 1);
        nl_facts(b.at(m - 1, k).1, c.at(k, j).1, 1);
        nl_facts(a.at(i, m - 1).1, b.at(m - 1, k).1 * c.at(k, j).1, 1);
        nl_facts(
            tsum(a, b, c, i, j, k, m - 1).1,
            (a.at(i, m - 1).1 * b.at(m - 1, k).1) * c.at(k, j).1,
            1,
        );
        nl_facts(
            vsum(a, b, c, i, j, k, m - 1).1,
            a.at(i, m - 1).1 * (b.at(m - 1, k).1 * c.at(k, j).1),
            1,
        );
    }
}

/// The triple-product column sums keep positive denominators.
proof fn lemma_usum_pos<const R: usize, const B: usize, const C: usize, const K: usize>(
    a: Matrix<R, B>,
    b: Matrix<B, C>,
    c: Matrix<C, K>,
    i: int,
    j: int,
    l: int,
    n: int,
)
    requires
        assoc_wf(a, b, c, i, j),
        0 <= l < B as int,
        0 <= n <= C as int,
    ensures
        usum(a, b, c, i, j, l, n).1 > 0,
    decreases n,
{
    if n > 0 {
        lemma_usum_pos(a, b, c, i, j, l, n - 1);
        nl_facts(b.at(l, n - 1).1, c.at(n - 1, j).1, 1);
        nl_facts(a.at(i, l).1, b.at(l, n - 1).1 * c.at(n - 1, j).1, 1);
        nl_facts(
            usum(a, b, c, i, j, l, n - 1).1,
            a.at(i, l).1 * (b.at(l, n - 1).1 * c.at(n - 1, j).1),
            1,
        );
    }
}

/// The outer sums keep positive denominators.
proof fn lemma_outer_pos<const R: usize, const B: usize, const C: usize, const K: usize>(
    a: Matrix<R, B>,
    b: Matrix<B, C>,
    c: Matrix<C, K>,
    i: int,
    j: int,
    n: int,
    m: int,
)
    requires
        assoc_wf(a, b, c, i, j),
        0 <= n <= C as int,
        0 <= m <= B as int,
    ensures
        ksum(a, b, c, i, j, n, m).1 > 0,
        lsum(a, b, c, i, j, m, n).1 > 0,
    decreases n + m,
{
    if n > 0 {
        lemma_outer_pos(a, b, c, i, j, n - 1, m);
        lemma_tv_pos(a, b, c, i, j, n - 1, m);
        nl_facts(ksum(a, b, c, i, j, n - 1, m).1, tsum(a, b, c, i, j, n - 1, m).1, 1);
    }
    if m > 0 {
        lemma_outer_pos(a, b, c, i, j, n, m - 1);
        lemma_usum_pos(a, b, c, i, j, m - 1, n);
        nl_facts(lsum(a, b, c, i, j, m - 1, n).1, usum(a, b, c, i, j, m - 1, n).1, 1);
    }
}

/// Reassociating every triple product leaves the row sums exactly equal.
proof fn lemma_tsum_eq_vsum<const R: usize, const B: usize, const C: usize, const K: usize>(
    a: Matrix<R, B>,
    b: Matrix<B, C>,
    c: Matrix<C, K>,
    i: int,
    j: int,
    k: int,
    m: int,
)
    ensures
        tsum(a, b, c, i, j, k, m) == vsum(a, b, c, i, j, k, m),
    decreases m,
{
    if m > 0 {
        lemma_tsum_eq_vsum(a, b, c, i, j, k, m - 1);
        nl_facts(a.at(i, m - 1).0, b.at(m - 1, k).0, c.at(k, j).0);
        nl_facts(a.at(i, m - 1).1, b.at(m - 1, k).1, c.at(k, j).1);
    }
}

/// Multiplying a running inner product by a fixed fraction on the right is
/// equivalent to summing the triple products.
proof fn lemma_mul_dot_right<const R: usize, const B: usize, const C: usize, const K: usize>(
    a: Matrix<R, B>,
    b: Matrix<B, C>,
    c: Matrix<C, K>,
    i: int,
    j: int,
    k: int,
    m: int,
)
    requires
        assoc_wf(a, b, c, i, j),
        0 <= k < C as int,
        0 <= m <= B as int,
    ensures
        frac_eqv(frac_mul(dot(a, b, i, k, m), c.at(k, j)), tsum(a, b, c, i, j, k, m)),
    decreases m,
{
    let ckj = c.at(k, j);
    if m <= 0 {
        let t = frac_mul((0int, 1int), ckj);
        nl_facts(0, ckj.0, 1);
        nl_facts(t.0, 1, 1);
        nl_facts(0, t.1, 1);
    } else {
        lemma_mul_dot_right(a, b, c, i, j, k, m - 1);
        let x = dot(a, b, i, k, m - 1);
        let t = frac_mul(a.at(i, m - 1), b.at(m - 1, k));
        lemma_distrib_right(x, t, ckj);
        lemma_cong_add(
            frac_mul(x, ckj),
            frac_mul(t, ckj),
            tsum(a, b, c, i, j, k, m - 1),
            frac_mul(t, ckj),
        );
        let mid = frac_add(frac_mul(x, ckj), frac_mul(t, ckj));
        lemma_dot_pos(a, b, i, k, m - 1);
        nl_facts(a.at(i, m - 1).1, b.at(m - 1, k).1, 1);
        nl_facts(x.1, ckj.1, 1);
        nl_facts(t.1, ckj.1, 1);
        nl_facts(x.1 * ckj.1, t.1 * ckj.1, 1);
        lemma_eqv_trans(frac_mul(dot(a, b, i, k, m), ckj), mid, tsum(a, b, c, i, j, k, m));
    }
}

/// Multiplying a fixed fraction by a running inner product on the left is
/// equivalent to summing the triple products.
proof fn lemma_mul_dot_left<const R: usize, const B: usize, const C: usize, const K: usize>(
    a: Matrix<R, B>,
    b: Matrix<B, C>,
    c: Matrix<C, K>,
    i: int,
    j: int,
    l: int,
    n: int,
)
    requires
        assoc_wf(a, b, c, i, j),
        0 <= l < B as int,
        0 <= n <= C as int,
    ensures
        frac_eqv(frac_mul(a.at(i, l), dot(b, c, l, j, n)), usum(a, b, c, i, j, l, n)),
    decreases n,
{
    let ail = a.at(i, l);
    if n <= 0 {
        let t = frac_mul(ail, (0int, 1int));
        nl_facts(ail.0, 0, 1);
        nl_facts(t.0, 1, 1);
        nl_facts(0, t.1, 1);
    } else {
        lemma_mul_dot_left(a, b, c, i, j, l, n - 1);
        let x = dot(b, c, l, j, n - 1);
        let t = frac_mul(b.at(l, n - 1), c.at(n - 1, j));
        lemma_distrib_left(ail, x, t);
        lemma_cong_add(
            frac_mul(ail, x),
            frac_mul(ail, t),
            usum(a, b, c, i, j, l, n - 1),
            frac_mul(ail, t),
        );
        let mid = frac_add(frac_mul(ail, x), frac_mul(ail, t));
        lemma_dot_pos(b, c, l, j, n - 1);
        nl_facts(b.at(l, n - 1).1, c.at(n - 1, j).1, 1);
        nl_facts(ail.1, x.1, 1);
        nl_facts(ail.1, t.1, 1);
        nl_facts(ail.1 * x.1, ail.1 * t.1, 1);
        lemma_eqv_trans(frac_mul(ail, dot(b, c, l, j, n)), mid, usum(a, b, c, i, j, l, n));
    }
}

/// A column sum over no passes is exactly zero.
proof fn lemma_lsum_zero<const R: usize, const B: usize, const C: usize, const K: usize>(
    a: Matrix<R, B>,
    b: Matrix<B, C>,
    c: Matrix<C, K>,
    i: int,
    j: int,
    m: int,
)
    ensures
        lsum(a, b, c, i, j, m, 0) == (0int, 1int),
    decreases m,
{
    if m > 0 {
        lemma_lsum_zero(a, b, c, i, j, m - 1);
    }
}

/// Taking one more inner pass into every column sum is the same as adding
/// that pass's whole row sum at the end.
proof fn lemma_interchange<const R: usize, const B: usize, const C: usize, const K: usize>(
    a: Matrix<R, B>,
    b: Matrix<B, C>,
    c: Matrix<C, K>,
    i: int,
    j: int,
    m: int,
    n: int,
)
    requires
        assoc_wf(a, b, c, i, j),
        1 <= n <= C as int,
        0 <= m <= B as int,
    ensures
        frac_eqv(
            frac_add(lsum(a, b, c, i, j, m, n - 1), vsum(a, b, c, i, j, n - 1, m)),
            lsum(a, b, c, i, j, m, n),
        ),
    decreases m,
{
    if m > 0 {
        lemma_interchange(a, b, c, i, j, m - 1, n);
        let la = lsum(a, b, c, i, j, m - 1, n - 1);
        let ub = usum(a, b, c, i, j, m - 1, n - 1);
        let vx = vsum(a, b, c, i, j, n - 1, m - 1);
        let w = frac_mul(a.at(i, m - 1), frac_mul(b.at(m - 1, n - 1), c.at(n - 1, j)));
        assert(lsum(a, b, c, i, j, m, n - 1) == frac_add(la, ub));
        assert(vsum(a, b, c, i, j, n - 1, m) == frac_add(vx, w));
        assert(usum(a, b, c, i, j, m - 1, n) == frac_add(ub, w));
        assert(lsum(a, b, c, i, j, m, n) == frac_add(
            lsum(a, b, c, i, j, m - 1, n),
            usum(a, b, c, i, j, m - 1, n),
        ));
        lemma_regroup(la, ub, vx, w);
        lemma_cong_add(
            frac_add(la, vx),
            frac_add(ub, w),
            lsum(a, b, c, i, j, m - 1, n),
            frac_add(ub, w),
        );
    } else {
        assert(lsum(a, b, c, i, j, m, n - 1) == (0int, 1int));
        assert(vsum(a, b, c, i, j, n - 1, m) == (0int, 1int));
        assert(lsum(a, b, c, i, j, m, n) == (0int, 1int));
    }
}

/// The two summation orders of the triple products are equivalent.
proof fn lemma_swap<const R: usize, const B: usize, const C: usize, const K: usize>(
    a: Matrix<R, B>,
    b: Matrix<B, C>,
    c: Matrix<C, K>,
    i: int,
    j: int,
    n: int,
    m: int,
)
    requires
        assoc_wf(a, b, c, i, j),
        0 <= n <= C as int,
        0 <= m <= B as int,
    ensures
        frac_eqv(ksum(a, b, c, i, j, n, m), lsum(a, b, c, i, j, m, n)),
    decreases n,
{
    if n <= 0 {
        lemma_lsum_zero(a, b, c, i, j, m);
    } else {
        lemma_swap(a, b, c, i, j, n - 1, m);
        lemma_tsum_eq_vsum(a, b, c, i, j, n - 1, m);
        lemma_cong_add(
            ksum(a, b, c, i, j, n - 1, m),
            tsum(a, b, c, i, j, n - 1, m),
            lsum(a, b, c, i, j, m, n - 1),
            vsum(a, b, c, i, j, n - 1, m),
        );
        lemma_interchange(a, b, c, i, j, m, n);
        let mid = frac_add(lsum(a, b, c, i, j, m, n - 1), vsum(a, b, c, i, j, n - 1, m));
        lemma_outer_pos(a, b, c, i, j, n - 1, m);
        lemma_tv_pos(a, b, c, i, j, n - 1, m);
        nl_facts(lsum(a, b, c, i, j, m, n - 1).1, vsum(a, b, c, i, j, n - 1, m).1, 1);
        lemma_eqv_trans(ksum(a, b, c, i, j, n, m), mid, lsum(a, b, c, i, j, m, n));
    }
}

/// The running entry of `(a * b) * c` is equivalent to the row-major
/// double sum of triple products.
proof fn lemma_left_assoc_sum<const R: usize, const B: usize, const C: usize, const K: usize>(
    a: Matrix<R, B>,
    b: Matrix<B, C>,
    c: Matrix<C, K>,
    ab: Matrix<R, C>,
    i: int,
    j: int,
    n: int,
)
    requires
        assoc_wf(a, b, c, i, j),
        ab.wf(),
        forall|x: int, y: int|
            0 <= x < R as int && 0 <= y < C as int ==> #[trigger] ab.at(x, y) == dot(
                a,
                b,
                x,
                y,
                B as int,
            ),
        0 <= n <= C as int,
    ensures
        frac_eqv(dot(ab, c, i, j, n), ksum(a, b, c, i, j, n, B as int)),
    decreases n,
{
    if n > 0 {
        lemma_left_assoc_sum(a, b, c, ab, i, j, n - 1);
        assert(ab.at(i, n - 1) == dot(a, b, i, n - 1, B as int));
        lemma_mul_dot_right(a, b, c, i, j, n - 1, B as int);
        lemma_cong_add(
            dot(ab, c, i, j, n - 1),
            frac_mul(ab.at(i, n - 1), c.at(n - 1, j)),
            ksum(a, b, c, i, j, n - 1, B as int),
            tsum(a, b, c, i, j, n - 1, B as int),
        );
    }
}

/// The running entry of `a * (b * c)` is equivalent to the column-major
/// double sum of triple products.
proof fn lemma_right_assoc_sum<const R: usize, const B: usize, const C: usize, const K: usize>(
    a: Matrix<R, B>,
    b: Matrix<B, C>,
    c: Matrix<C, K>,
    bc: Matrix<B, K>,
    i: int,
    j: int,
    m: int,
)
    requires
        assoc_wf(a, b, c, i, j),
        bc.wf(),
        forall|x: int, y: int|
            0 <= x < B as int && 0 <= y < K as int ==> #[trigger] bc.at(x, y) == dot(
                b,
                c,
                x,
                y,
                C as int,
            ),
        0 <= m <= B as int,
    ensures
        frac_eqv(dot(a, bc, i, j, m), lsum(a, b, c, i, j, m, C as int)),
    decreases m,
{
    if m > 0 {
        lemma_right_assoc_sum(a, b, c, bc, i, j, m - 1);
        assert(bc.at(m - 1, j) == dot(b, c, m - 1, j, C as int));
        lemma_mul_dot_left(a, b, c, i, j, m - 1, C as int);
        lemma_cong_add(
            dot(a, bc, i, j, m - 1),
            frac_mul(a.at(i, m - 1), bc.at(m - 1, j)),
            lsum(a, b, c, i, j, m - 1, C as int),
            usum(a, b, c, i, j, m - 1, C as int),
        );
    }
}

/// Matrix multiplication is associative: when `ab`, `bc`, `p` and `q` are
/// the products `a * b`, `b * c`, `(a * b) * c` and `a * (b * c)` — each
/// constrained by exactly what `mul` ensures of its result — the two ways
/// of bracketing hold entrywise the same rational numbers.
pub proof fn lemma_mul_assoc<const R: usize, const B: usize, const C: usize, const K: usize>(
    a: Matrix<R, B>,
    b: Matrix<B, C>,
    c: Matrix<C, K>,
    ab: Matrix<R, C>,
    bc: Matrix<B, K>,
    p: Matrix<R, K>,
    q: Matrix<R, K>,
)
    requires
        a.wf(),
        b.wf(),
        c.wf(),
        ab.wf(),
        bc.wf(),
        forall|x: int, y: int|
            0 <= x < R as int && 0 <= y < C as int ==> #[trigger] ab.at(x, y) == dot(
                a,
                b,
                x,
                y,
                B as int,
            ),
        forall|x: int, y: int|
            0 <= x < B as int && 0 <= y < K as int ==> #[trigger] bc.at(x, y) == dot(
                b,
                c,
                x,
                y,
                C as int,
            ),
        forall|x: int, y: int|
            0 <= x < R as int && 0 <= y < K as int ==> #[trigger] p.at(x, y) == dot(
                ab,
                c,
                x,
                y,
                C as int,
            ),
        forall|x: int, y: int|
            0 <= x < R as int && 0 <= y < K as int ==> #[trigger] q.at(x, y) == dot(
                a,
                bc,
                x,
                y,
                B as int,
            ),
    ensures
        p.mat_eqv(q),
{
    assert forall|i: int, j: int|
        0 <= i < R as int && 0 <= j < K as int implies #[trigger] frac_eqv(
        p.at(i, j),
        q.at(i, j),
    ) by {
        lemma_left_assoc_sum(a, b, c, ab, i, j, C as int);
        lemma_swap(a, b, c, i, j, C as int, B as int);
        lemma_right_assoc_sum(a, b, c, bc, i, j, B as int);
        let ks = ksum(a, b, c, i, j, C as int, B as int);
        let ls = lsum(a, b, c, i, j, B as int, C as int);
        lemma_outer_pos(a, b, c, i, j, C as int, B as int);
        lemma_eqv_trans(p.at(i, j), ks, ls);
        lemma_eqv_trans(p.at(i, j), ls, q.at(i, j));
    }
}

} // verus!
