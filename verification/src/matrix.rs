//! The fixed-shape matrix type and its arithmetic.
//!
//! `Matrix<R, C>` is a dense R-by-C grid of exact rational scalars.  The two
//! dimensions are const generics, so combining matrices of incompatible
//! shapes is a compile-time type error, exactly as the error model asks.
//!
//! Every operation's contract pins each entry of the result down to the
//! exact fraction computed from the operands' entries; `mat_eqv` states
//! when two matrices are entrywise the same rational numbers.

use vstd::prelude::*;

use crate::scalar::Scalar;
use crate::scalar::frac_add;
use crate::scalar::frac_eqv;
use crate::scalar::frac_fits;
use crate::scalar::frac_mul;
use crate::scalar::frac_sub;

verus! {

/// The exact inner product of the first `n` entries of row `i` of `a`
/// with column `j` of `b`: the sum over `k < n` of `a(i, k) * b(k, j)`,
/// folded from the left starting at zero, exactly as `mul` computes it.
pub open spec fn dot<const R: usize, const C: usize, const K: usize>(
    a: Matrix<R, C>,
    b: Matrix<C, K>,
    i: int,
    j: int,
    n: int,
) -> (int, int)
    decreases n,
{
    if n <= 0 {
        (0int, 1int)
    } else {
        frac_add(dot(a, b, i, j, n - 1), frac_mul(a.at(i, n - 1), b.at(n - 1, j)))
    }
}

/// Every intermediate value of the inner-product fold fits in machine words.
pub open spec fn dot_fits<const R: usize, const C: usize, const K: usize>(
    a: Matrix<R, C>,
    b: Matrix<C, K>,
    i: int,
    j: int,
    n: int,
) -> bool
    decreases n,
{
    if n <= 0 {
        true
    } else {
        &&& dot_fits(a, b, i, j, n - 1)
        &&& frac_fits(frac_mul(a.at(i, n - 1), b.at(n - 1, j)))
        &&& frac_fits(frac_add(dot(a, b, i, j, n - 1), frac_mul(a.at(i, n - 1), b.at(n - 1, j))))
    }
}

/// A fold that fits up to `m` fits up to every earlier bound `n`.
proof fn lemma_dot_fits_prefix<const R: usize, const C: usize, const K: usize>(
    a: Matrix<R, C>,
    b: Matrix<C, K>,
    i: int,
    j: int,
    n: int,
    m: int,
)
    requires
        dot_fits(a, b, i, j, m),
        0 <= n <= m,
    ensures
        dot_fits(a, b, i, j, n),
    decreases m,
{
    if n < m {
        lemma_dot_fits_prefix(a, b, i, j, n, m - 1);
    }
}

/// A dense R-by-C matrix of exact rational scalars, stored as rows.
pub struct Matrix<const R: usize, const C: usize> {
    pub entries: Vec<Vec<Scalar>>,
}

impl<const R: usize, const C: usize> Matrix<R, C> {
    /// Shape and entry well-formedness: R rows of C well-formed scalars.
    pub open spec fn wf(self) -> bool {
        &&& self.entries@.len() == R as int
        &&& forall|i: int| 0 <= i < R as int ==> (#[trigger] self.entries@[i])@.len() == C as int
        &&& forall|i: int, j: int|
            0 <= i < R as int && 0 <= j < C as int ==> (#[trigger] self.entry(i, j)).wf()
    }

    /// The scalar stored in row `i`, column `j`.
    pub open spec fn entry(self, i: int, j: int) -> Scalar {
        self.entries@[i]@[j]
    }

    /// The mathematical value of the entry in row `i`, column `j`.
    pub open spec fn at(self, i: int, j: int) -> (int, int) {
        self.entry(i, j).frac()
    }

    /// The two matrices hold entrywise the same rational numbers.
    pub open spec fn mat_eqv(self, rhs: Matrix<R, C>) -> bool {
        forall|i: int, j: int|
            0 <= i < R as int && 0 <= j < C as int ==> #[trigger] frac_eqv(
                self.at(i, j),
                rhs.at(i, j),
            )
    }

    /// Every entrywise sum of the two matrices fits in machine words.
    pub open spec fn add_fits(self, rhs: Matrix<R, C>) -> bool {
        forall|i: int, j: int|
            0 <= i < R as int && 0 <= j < C as int ==> #[trigger] frac_fits(
                frac_add(self.at(i, j), rhs.at(i, j)),
            )
    }

    /// Every entrywise difference of the two matrices fits in machine words.
    pub open spec fn sub_fits(self, rhs: Matrix<R, C>) -> bool {
        forall|i: int, j: int|
            0 <= i < R as int && 0 <= j < C as int ==> #[trigger] frac_fits(
                frac_sub(self.at(i, j), rhs.at(i, j)),
            )
    }

    /// The all-zero matrix.
    pub fn new() -> (r: Matrix<R, C>)
        ensures
            r.wf(),
            forall|i: int, j: int|
                0 <= i < R as int && 0 <= j < C as int ==> #[trigger] r.at(i, j) == (0int, 1int),
    {
        let mut entries: Vec<Vec<Scalar>> = Vec::new();
        for i in 0..R
            invariant
                entries@.len() == i as int,
                forall|x: int| 0 <= x < i as int ==> (#[trigger] entries@[x])@.len() == C as int,
                forall|x: int, y: int|
                    0 <= x < i as int && 0 <= y < C as int ==> (#[trigger] entries@[x]@[y]).wf()
                        && entries@[x]@[y].frac() == (0int, 1int),
        {
            let mut row: Vec<Scalar> = Vec::new();
            for j in 0..C
                invariant
                    row@.len() == j as int,
                    forall|y: int|
                        0 <= y < j as int ==> (#[trigger] row@[y]).wf() && row@[y].frac() == (
                        0int,
                        1int,
                        ),
            {
                row.push(Scalar::zero());
            }
            entries.push(row);
        }
        Matrix { entries }
    }

    /// The identity pattern: ones on the leading diagonal block, zeros
    /// elsewhere (for a non-square shape only the (i, i) entries with
    /// i below both dimensions are ones).
    pub fn ident() -> (r: Matrix<R, C>)
        ensures
            r.wf(),
            forall|i: int, j: int|
                0 <= i < R as int && 0 <= j < C as int ==> #[trigger] r.at(i, j) == (
                    if i == j {
                        (1int, 1int)
                    } else {
                        (0int, 1int)
                    }
                ),
    {
        let mut entries: Vec<Vec<Scalar>> = Vec::new();
        for i in 0..R
            invariant
                entries@.len() == i as int,
                forall|x: int| 0 <= x < i as int ==> (#[trigger] entries@[x])@.len() == C as int,
                forall|x: int, y: int|
                    0 <= x < i as int && 0 <= y < C as int ==> (#[trigger] entries@[x]@[y]).wf()
                        && entries@[x]@[y].frac() == (
                        if x == y {
                            (1int, 1int)
                        } else {
                            (0int, 1int)
                        }
                    ),
        {
            let mut row: Vec<Scalar> = Vec::new();
            for j in 0..C
                invariant
                    row@.len() == j as int,
                    forall|y: int|
                        0 <= y < j as int ==> (#[trigger] row@[y]).wf() && row@[y].frac() == (
                        if i as int == y {
                            (1int, 1int)
                        } else {
                            (0int, 1int)
                        }
                    ),
            {
                if i == j {
                    row.push(Scalar::one());
                } else {
                    row.push(Scalar::zero());
                }
            }
            entries.push(row);
        }
        Matrix { entries }
    }

    /// Builds a matrix from explicit rows; rejects a grid whose shape does
    /// not match R-by-C or that holds a malformed scalar.
    pub fn from_entries(rows: Vec<Vec<Scalar>>) -> (r: Option<Matrix<R, C>>)
        ensures
            r is Some <==> rows@.len() == R as int && (forall|i: int|
                0 <= i < R as int ==> (#[trigger] rows@[i])@.len() == C as int) && (forall|
                i: int,
                j: int,
            |
                0 <= i < R as int && 0 <= j < C as int ==> (#[trigger] rows@[i]@[j]).wf()),
            r is Some ==> r->Some_0.wf() && forall|i: int, j: int|
                0 <= i < R as int && 0 <= j < C as int ==> #[trigger] r->Some_0.entry(i, j)
                    == rows@[i]@[j],
    {
        if rows.len() != R {
            return None;
        }
        for i in 0..R
            invariant
                rows@.len() == R as int,
                forall|x: int| 0 <= x < i as int ==> (#[trigger] rows@[x])@.len() == C as int,
                forall|x: int, y: int|
                    0 <= x < i as int && 0 <= y < C as int ==> (#[trigger] rows@[x]@[y]).wf(),
        {
            let row_len = rows[i].len();
            if row_len != C {
                return None;
            }
            for j in 0..C
                invariant
                    rows@.len() == R as int,
                    i < R,
                    rows@[i as int]@.len() == C as int,
                    forall|x: int| 0 <= x < i as int ==> (#[trigger] rows@[x])@.len() == C as int,
                    forall|x: int, y: int|
                        0 <= x < i as int && 0 <= y < C as int ==> (#[trigger] rows@[x]@[y]).wf(),
                    forall|y: int| 0 <= y < j as int ==> (#[trigger] rows@[i as int]@[y]).wf(),
            {
                if rows[i][j].den <= 0 {
                    return None;
                }
            }
        }
        Some(Matrix { entries: rows })
    }

    /// Reads the entry in row `i`, column `j`.
    pub fn get(&self, i: usize, j: usize) -> (r: Scalar)
        requires
            self.wf(),
            i < R,
            j < C,
        ensures
            r == self.entry(i as int, j as int),
    {
        self.entries[i][j]
    }

    /// An entrywise copy of the matrix.
    pub fn duplicate(&self) -> (r: Matrix<R, C>)
        requires
            self.wf(),
        ensures
            r.wf(),
            forall|i: int, j: int|
                0 <= i < R as int && 0 <= j < C as int ==> #[trigger] r.entry(i, j) == self.entry(
                    i,
                    j,
                ),
    {
        let mut entries: Vec<Vec<Scalar>> = Vec::new();
        for i in 0..R
            invariant
                self.wf(),
                entries@.len() == i as int,
                forall|x: int| 0 <= x < i as int ==> (#[trigger] entries@[x])@.len() == C as int,
                forall|x: int, y: int|
                    0 <= x < i as int && 0 <= y < C as int ==> #[trigger] entries@[x]@[y]
                        == self.entry(x, y),
        {
            let mut row: Vec<Scalar> = Vec::new();
            for j in 0..C
                invariant
                    self.wf(),
                    i < R,
                    row@.len() == j as int,
                    forall|y: int|
                        0 <= y < j as int ==> #[trigger] row@[y] == self.entry(i as int, y),
            {
                row.push(self.get(i, j));
            }
            entries.push(row);
        }
        Matrix { entries }
    }

    /// The transpose: entry (j, i) of the result is entry (i, j) of the
    /// receiver.  Pure; the receiver is left untouched.
    pub fn transpose(&self) -> (r: Matrix<C, R>)
        requires
            self.wf(),
        ensures
            r.wf(),
            forall|i: int, j: int|
                0 <= i < R as int && 0 <= j < C as int ==> #[trigger] r.entry(j, i) == self.entry(
                    i,
                    j,
                ),
    {
        let mut entries: Vec<Vec<Scalar>> = Vec::new();
        for a in 0..C
            invariant
                self.wf(),
                entries@.len() == a as int,
                forall|x: int| 0 <= x < a as int ==> (#[trigger] entries@[x])@.len() == R as int,
                forall|x: int, y: int|
                    0 <= x < a as int && 0 <= y < R as int ==> #[trigger] entries@[x]@[y]
                        == self.entry(y, x),
        {
            let mut row: Vec<Scalar> = Vec::new();
            for b in 0..R
                invariant
                    self.wf(),
                    a < C,
                    row@.len() == b as int,
                    forall|y: int|
                        0 <= y < b as int ==> #[trigger] row@[y] == self.entry(y, a as int),
            {
                row.push(self.get(b, a));
            }
            entries.push(row);
        }
        Matrix { entries }
    }

    /// Entrywise sum; both operands share the shape R-by-C by type.
    pub fn add(&self, rhs: &Matrix<R, C>) -> (r: Matrix<R, C>)
        requires
            self.wf(),
            rhs.wf(),
            self.add_fits(*rhs),
        ensures
            r.wf(),
            forall|i: int, j: int|
                0 <= i < R as int && 0 <= j < C as int ==> #[trigger] r.at(i, j) == frac_add(
                    self.at(i, j),
                    rhs.at(i, j),
                ),
    {
        let mut entries: Vec<Vec<Scalar>> = Vec::new();
        for i in 0..R
            invariant
                self.wf(),
                rhs.wf(),
                self.add_fits(*rhs),
                entries@.len() == i as int,
                forall|x: int| 0 <= x < i as int ==> (#[trigger] entries@[x])@.len() == C as int,
                forall|x: int, y: int|
                    0 <= x < i as int && 0 <= y < C as int ==> (#[trigger] entries@[x]@[y]).wf()
                        && entries@[x]@[y].frac() == frac_add(self.at(x, y), rhs.at(x, y)),
        {
            let mut row: Vec<Scalar> = Vec::new();
            for j in 0..C
                invariant
                    self.wf(),
                    rhs.wf(),
                    self.add_fits(*rhs),
                    i < R,
                    row@.len() == j as int,
                    forall|y: int|
                        0 <= y < j as int ==> (#[trigger] row@[y]).wf() && row@[y].frac()
                            == frac_add(self.at(i as int, y), rhs.at(i as int, y)),
            {
                assert(frac_fits(frac_add(self.at(i as int, j as int), rhs.at(i as int, j as int))));
                row.push(self.get(i, j).add(rhs.get(i, j)));
            }
            entries.push(row);
        }
        Matrix { entries }
    }

    /// Entrywise difference; both operands share the shape R-by-C by type.
    pub fn sub(&self, rhs: &Matrix<R, C>) -> (r: Matrix<R, C>)
        requires
            self.wf(),
            rhs.wf(),
            self.sub_fits(*rhs),
        ensures
            r.wf(),
            forall|i: int, j: int|
                0 <= i < R as int && 0 <= j < C as int ==> #[trigger] r.at(i, j) == frac_sub(
                    self.at(i, j),
                    rhs.at(i, j),
                ),
    {
        let mut entries: Vec<Vec<Scalar>> = Vec::new();
        for i in 0..R
            invariant
                self.wf(),
                rhs.wf(),
                self.sub_fits(*rhs),
                entries@.len() == i as int,
                forall|x: int| 0 <= x < i as int ==> (#[trigger] entries@[x])@.len() == C as int,
                forall|x: int, y: int|
                    0 <= x < i as int && 0 <= y < C as int ==> (#[trigger] entries@[x]@[y]).wf()
                        && entries@[x]@[y].frac() == frac_sub(self.at(x, y), rhs.at(x, y)),
        {
            let mut row: Vec<Scalar> = Vec::new();
            for j in 0..C
                invariant
                    self.wf(),
                    rhs.wf(),
                    self.sub_fits(*rhs),
                    i < R,
                    row@.len() == j as int,
                    forall|y: int|
                        0 <= y < j as int ==> (#[trigger] row@[y]).wf() && row@[y].frac()
                            == frac_sub(self.at(i as int, y), rhs.at(i as int, y)),
            {
                assert(frac_fits(frac_sub(self.at(i as int, j as int), rhs.at(i as int, j as int))));
                row.push(self.get(i, j).sub(rhs.get(i, j)));
            }
            entries.push(row);
        }
        Matrix { entries }
    }

    /// In-place entrywise sum: the receiver becomes `old(self) + rhs`.
    pub fn add_assign(&mut self, rhs: &Matrix<R, C>)
        requires
            old(self).wf(),
            rhs.wf(),
            old(self).add_fits(*rhs),
        ensures
            final(self).wf(),
            forall|i: int, j: int|
                0 <= i < R as int && 0 <= j < C as int ==> #[trigger] final(self).at(i, j)
                    == frac_add(old(self).at(i, j), rhs.at(i, j)),
    {
        let r = self.add(rhs);
        *self = r;
    }

    /// In-place entrywise difference: the receiver becomes `old(self) - rhs`.
    pub fn sub_assign(&mut self, rhs: &Matrix<R, C>)
        requires
            old(self).wf(),
            rhs.wf(),
            old(self).sub_fits(*rhs),
        ensures
            final(self).wf(),
            forall|i: int, j: int|
                0 <= i < R as int && 0 <= j < C as int ==> #[trigger] final(self).at(i, j)
                    == frac_sub(old(self).at(i, j), rhs.at(i, j)),
    {
        let r = self.sub(rhs);
        *self = r;
    }

    /// Every intermediate value of every inner product of `self * rhs`
    /// fits in machine words.
    pub open spec fn mul_fits<const K: usize>(self, rhs: Matrix<C, K>) -> bool {
        forall|i: int, j: int|
            0 <= i < R as int && 0 <= j < K as int ==> #[trigger] dot_fits(
                self,
                rhs,
                i,
                j,
                C as int,
            )
    }

    /// The matrix product: entry (i, j) of the result is the inner product
    /// of row `i` of the receiver with column `j` of `rhs`.  The inner
    /// dimension C must match by type.
    pub fn mul<const K: usize>(&self, rhs: &Matrix<C, K>) -> (r: Matrix<R, K>)
        requires
            self.wf(),
            rhs.wf(),
            self.mul_fits(*rhs),
        ensures
            r.wf(),
            forall|i: int, j: int|
                0 <= i < R as int && 0 <= j < K as int ==> #[trigger] r.at(i, j) == dot(
                    *self,
                    *rhs,
                    i,
                    j,
                    C as int,
                ),
    {
        let mut entries: Vec<Vec<Scalar>> = Vec::new();
        for i in 0..R
            invariant
                self.wf(),
                rhs.wf(),
                self.mul_fits(*rhs),
                entries@.len() == i as int,
                forall|x: int| 0 <= x < i as int ==> (#[trigger] entries@[x])@.len() == K as int,
                forall|x: int, y: int|
                    0 <= x < i as int && 0 <= y < K as int ==> (#[trigger] entries@[x]@[y]).wf()
                        && entries@[x]@[y].frac() == dot(*self, *rhs, x, y, C as int),
        {
            let mut row: Vec<Scalar> = Vec::new();
            for j in 0..K
                invariant
                    self.wf(),
                    rhs.wf(),
                    self.mul_fits(*rhs),
                    i < R,
                    row@.len() == j as int,
                    forall|y: int|
                        0 <= y < j as int ==> (#[trigger] row@[y]).wf() && row@[y].frac() == dot(
                            *self,
                            *rhs,
                            i as int,
                            y,
                            C as int,
                        ),
            {
                let mut acc = Scalar::zero();
                for k in 0..C
                    invariant
                        self.wf(),
                        rhs.wf(),
                        self.mul_fits(*rhs),
                        i < R,
                        j < K,
                        acc.wf(),
                        acc.frac() == dot(*self, *rhs, i as int, j as int, k as int),
                {
                    proof {
                        lemma_dot_fits_prefix(
                            *self,
                            *rhs,
                            i as int,
                            j as int,
                            k as int + 1,
                            C as int,
                        );
                    }
                    let p = self.get(i, k).mul(rhs.get(k, j));
                    acc = acc.add(p);
                }
                row.push(acc);
            }
            entries.push(row);
        }
        Matrix { entries }
    }

    /// Decides whether the two matrices hold entrywise the same rational
    /// numbers.
    pub fn eqv(&self, rhs: &Matrix<R, C>) -> (r: bool)
        requires
            self.wf(),
            rhs.wf(),
        ensures
            r == self.mat_eqv(*rhs),
    {
        for i in 0..R
            invariant
                self.wf(),
                rhs.wf(),
                forall|x: int, y: int|
                    0 <= x < i as int && 0 <= y < C as int ==> #[trigger] frac_eqv(
                        self.at(x, y),
                        rhs.at(x, y),
                    ),
        {
            for j in 0..C
                invariant
                    self.wf(),
                    rhs.wf(),
                    i < R,
                    forall|x: int, y: int|
                        0 <= x < i as int && 0 <= y < C as int ==> #[trigger] frac_eqv(
                            self.at(x, y),
                            rhs.at(x, y),
                        ),
                    forall|y: int|
                        0 <= y < j as int ==> #[trigger] frac_eqv(
                            self.at(i as int, y),
                            rhs.at(i as int, y),
                        ),
            {
                if !self.get(i, j).eqv(rhs.get(i, j)) {
                    assert(!frac_eqv(self.at(i as int, j as int), rhs.at(i as int, j as int)));
                    return false;
                }
            }
        }
        true
    }
}

} // verus!
