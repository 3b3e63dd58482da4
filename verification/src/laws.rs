//! Algebraic laws of the matrix operations, proved from the operation
//! contracts alone.
//!
//! Each law is stated relationally: its matrix parameters are constrained
//! by exactly what the corresponding operation's `ensures` says of its
//! result, so a caller discharges the premises directly from a call of the
//! operation.

use vstd::prelude::*;

use crate::inverse::gat;
use crate::inverse::gj;
use crate::inverse::grid_of;
use crate::inverse::id_grid;
use crate::matrix::Matrix;
use crate::matrix::dot;
use crate::scalar::frac_add;
use crate::scalar::frac_eqv;
use crate::scalar::frac_mul;

verus! {

/// Multiplying both sides of a cross-multiplication identity by the same
/// factor preserves it.
proof fn lemma_eqv_scale(pn: int, pd: int, tn: int, td: int, k: int)
    by (nonlinear_arith)
    requires
        pn * td == tn * pd,
    ensures
        (pn * k) * td == tn * (pd * k),
{
}

/// Products of positive integers are positive, multiplication commutes
/// and reassociates, and a zero factor annihilates.
proof fn lemma_mul_facts(a: int, b: int, c: int)
    by (nonlinear_arith)
    ensures
        a * b == b * a,
        (a * b) * c == a * (b * c),
        a > 0 && b > 0 ==> a * b > 0,
        a == 0 ==> a * b == 0,
        b == 0 ==> a * b == 0,
        a == 1 ==> a * b == b,
        b == 1 ==> a * b == a,
{
}

/// The identity entry pattern: ones on the diagonal, zeros elsewhere.
pub open spec fn is_identity<const S: usize>(m: Matrix<S, S>) -> bool {
    forall|i: int, j: int|
        0 <= i < S as int && 0 <= j < S as int ==> #[trigger] m.at(i, j) == (
            if i == j {
                (1int, 1int)
            } else {
                (0int, 1int)
            }
        )
}

/// Transposing twice gives back every entry unchanged: if `b` is the
/// transpose of `a` and `c` is the transpose of `b`, then `c` holds
/// exactly the entries of `a`.
pub proof fn lemma_transpose_involution<const R: usize, const C: usize>(
    a: Matrix<R, C>,
    b: Matrix<C, R>,
    c: Matrix<R, C>,
)
    requires
        forall|i: int, j: int|
            0 <= i < R as int && 0 <= j < C as int ==> #[trigger] b.entry(j, i) == a.entry(i, j),
        forall|i: int, j: int|
            0 <= i < C as int && 0 <= j < R as int ==> #[trigger] c.entry(j, i) == b.entry(i, j),
    ensures
        forall|i: int, j: int|
            0 <= i < R as int && 0 <= j < C as int ==> #[trigger] c.entry(i, j) == a.entry(i, j),
{
    assert forall|i: int, j: int|
        0 <= i < R as int && 0 <= j < C as int implies #[trigger] c.entry(i, j) == a.entry(
        i,
        j,
    ) by {
        assert(c.entry(i, j) == b.entry(j, i));
        assert(b.entry(j, i) == a.entry(i, j));
    }
}

/// Entrywise addition is commutative: two sums of the same pair of
/// matrices, taken in either order, hold exactly the same fractions.
pub proof fn lemma_add_comm<const R: usize, const C: usize>(
    a: Matrix<R, C>,
    b: Matrix<R, C>,
    s1: Matrix<R, C>,
    s2: Matrix<R, C>,
)
    requires
        forall|i: int, j: int|
            0 <= i < R as int && 0 <= j < C as int ==> #[trigger] s1.at(i, j) == frac_add(
                a.at(i, j),
                b.at(i, j),
            ),
        forall|i: int, j: int|
            0 <= i < R as int && 0 <= j < C as int ==> #[trigger] s2.at(i, j) == frac_add(
                b.at(i, j),
                a.at(i, j),
            ),
    ensures
        forall|i: int, j: int|
            0 <= i < R as int && 0 <= j < C as int ==> #[trigger] s1.at(i, j) == s2.at(i, j),
{
    assert forall|i: int, j: int|
        0 <= i < R as int && 0 <= j < C as int implies #[trigger] s1.at(i, j) == s2.at(i, j) by {
        lemma_mul_facts(a.at(i, j).1, b.at(i, j).1, 1);
    }
}

/// Adding the zero matrix changes nothing: the sum holds exactly the
/// entries of `a`.
pub proof fn lemma_add_zero<const R: usize, const C: usize>(
    a: Matrix<R, C>,
    z: Matrix<R, C>,
    s: Matrix<R, C>,
)
    requires
        forall|i: int, j: int|
            0 <= i < R as int && 0 <= j < C as int ==> #[trigger] z.at(i, j) == (0int, 1int),
        forall|i: int, j: int|
            0 <= i < R as int && 0 <= j < C as int ==> #[trigger] s.at(i, j) == frac_add(
                a.at(i, j),
                z.at(i, j),
            ),
    ensures
        forall|i: int, j: int|
            0 <= i < R as int && 0 <= j < C as int ==> #[trigger] s.at(i, j) == a.at(i, j),
{
    assert forall|i: int, j: int|
        0 <= i < R as int && 0 <= j < C as int implies #[trigger] s.at(i, j) == a.at(i, j) by {
        lemma_mul_facts(a.at(i, j).0, z.at(i, j).1, 1);
        lemma_mul_facts(z.at(i, j).0, a.at(i, j).1, 1);
        lemma_mul_facts(a.at(i, j).1, z.at(i, j).1, 1);
    }
}

/// The running inner product against an identity row: zero until the
/// diagonal term is taken in, and from then on equivalent to the matching
/// entry of `a`, with a positive denominator throughout.
proof fn lemma_dot_ident_left<const S: usize, const C: usize>(
    im: Matrix<S, S>,
    a: Matrix<S, C>,
    i: int,
    j: int,
    n: int,
)
    requires
        im.wf(),
        a.wf(),
        is_identity(im),
        0 <= i < S as int,
        0 <= j < C as int,
        0 <= n <= S as int,
    ensures
        dot(im, a, i, j, n).1 > 0,
        n <= i ==> dot(im, a, i, j, n).0 == 0,
        n > i ==> frac_eqv(dot(im, a, i, j, n), a.at(i, j)),
    decreases n,
{
    if n > 0 {
        lemma_dot_ident_left(im, a, i, j, n - 1);
        let prev = dot(im, a, i, j, n - 1);
        let ad = a.at(i, j);
        let aa = a.at(n - 1, j);
        let e = im.at(i, n - 1);
        let t = frac_mul(e, aa);
        assert(aa.1 > 0);
        lemma_mul_facts(e.0, aa.0, 1);
        lemma_mul_facts(e.1, aa.1, 1);
        if n - 1 == i {
            // the taken-in term is a.at(i, j) itself
            lemma_mul_facts(prev.0, t.1, 1);
            lemma_mul_facts(prev.1, t.1, 1);
            lemma_mul_facts(ad.0, prev.1, ad.1);
        } else {
            // the taken-in term has a zero numerator
            assert(e == (0int, 1int));
            lemma_mul_facts(t.0, prev.1, 1);
            lemma_mul_facts(prev.1, t.1, 1);
            if n <= i {
                lemma_mul_facts(prev.0, t.1, 1);
            } else {
                lemma_eqv_scale(prev.0, prev.1, ad.0, ad.1, t.1);
            }
        }
    }
}

/// The running inner product of a row of `a` against an identity column.
proof fn lemma_dot_ident_right<const R: usize, const S: usize>(
    a: Matrix<R, S>,
    im: Matrix<S, S>,
    i: int,
    j: int,
    n: int,
)
    requires
        a.wf(),
        im.wf(),
        is_identity(im),
        0 <= i < R as int,
        0 <= j < S as int,
        0 <= n <= S as int,
    ensures
        dot(a, im, i, j, n).1 > 0,
        n <= j ==> dot(a, im, i, j, n).0 == 0,
        n > j ==> frac_eqv(dot(a, im, i, j, n), a.at(i, j)),
    decreases n,
{
    if n > 0 {
        lemma_dot_ident_right(a, im, i, j, n - 1);
        let prev = dot(a, im, i, j, n - 1);
        let ad = a.at(i, j);
        let aa = a.at(i, n - 1);
        let e = im.at(n - 1, j);
        let t = frac_mul(aa, e);
        assert(aa.1 > 0);
        lemma_mul_facts(aa.0, e.0, 1);
        lemma_mul_facts(aa.1, e.1, 1);
        if n - 1 == j {
            // the taken-in term is a.at(i, j) itself
            lemma_mul_facts(prev.0, t.1, 1);
            lemma_mul_facts(prev.1, t.1, 1);
            lemma_mul_facts(ad.0, prev.1, ad.1);
        } else {
            // the taken-in term has a zero numerator
            assert(e == (0int, 1int));
            lemma_mul_facts(t.0, prev.1, 1);
            lemma_mul_facts(prev.1, t.1, 1);
            if n <= j {
                lemma_mul_facts(prev.0, t.1, 1);
            } else {
                lemma_eqv_scale(prev.0, prev.1, ad.0, ad.1, t.1);
            }
        }
    }
}

/// Multiplying by the identity on the left changes nothing: a product
/// `p = identity * a` is entrywise equivalent to `a`.
pub proof fn lemma_mul_identity_left<const S: usize, const C: usize>(
    im: Matrix<S, S>,
    a: Matrix<S, C>,
    p: Matrix<S, C>,
)
    requires
        im.wf(),
        a.wf(),
        is_identity(im),
        forall|i: int, j: int|
            0 <= i < S as int && 0 <= j < C as int ==> #[trigger] p.at(i, j) == dot(
                im,
                a,
                i,
                j,
                S as int,
            ),
    ensures
        p.mat_eqv(a),
{
    assert forall|i: int, j: int|
        0 <= i < S as int && 0 <= j < C as int implies #[trigger] frac_eqv(
        p.at(i, j),
        a.at(i, j),
    ) by {
        lemma_dot_ident_left(im, a, i, j, S as int);
    }
}

/// Multiplying by the identity on the right changes nothing: a product
/// `p = a * identity` is entrywise equivalent to `a`.
pub proof fn lemma_mul_identity_right<const R: usize, const S: usize>(
    a: Matrix<R, S>,
    im: Matrix<S, S>,
    p: Matrix<R, S>,
)
    requires
        a.wf(),
        im.wf(),
        is_identity(im),
        forall|i: int, j: int|
            0 <= i < R as int && 0 <= j < S as int ==> #[trigger] p.at(i, j) == dot(
                a,
                im,
                i,
                j,
                S as int,
            ),
    ensures
        p.mat_eqv(a),
{
    assert forall|i: int, j: int|
        0 <= i < R as int && 0 <= j < S as int implies #[trigger] frac_eqv(
        p.at(i, j),
        a.at(i, j),
    ) by {
        lemma_dot_ident_right(a, im, i, j, S as int);
    }
}

/// A zero in the top-left corner stops the elimination at once: without
/// row exchange the matrix counts as singular, whatever the other entries
/// hold.  (The general statement — elimination answers `None` exactly when
/// some pass meets a zero pivot — is the definition of `gj`, which
/// `inverse`'s contract answers by.)
pub proof fn lemma_zero_first_pivot_singular<const S: usize>(m: Matrix<S, S>)
    requires
        m.wf(),
        S > 0,
        m.at(0, 0).0 == 0,
    ensures
        gj(grid_of(m), id_grid(S as int), 0, S as int) is None,
{
    assert(gat(grid_of(m), 0, 0) == m.at(0, 0));
}

} // verus!
