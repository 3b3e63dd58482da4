//! Square-matrix inversion by Gauss-Jordan elimination without pivoting.
//!
//! The algorithm keeps a working copy of the input next to an accumulator
//! that starts as the identity.  Pass `i` reads the pivot at (i, i); a zero
//! pivot means "singular" and the whole operation answers `None` — no row
//! exchange is attempted, so some invertible matrices with a zero on the
//! reduced diagonal are declared singular on purpose.  Otherwise the pass
//! divides row `i` of both matrices by the pivot and then clears column `i`
//! of every other row, in both matrices, using the factors read from the
//! scaled working copy.
//!
//! The mathematical model is the recursion `gj` below, over grids of
//! unbounded fractions; `inverse` is proved to answer exactly what `gj`
//! answers.

use vstd::prelude::*;

use crate::matrix::Matrix;
use crate::scalar::Scalar;
use crate::scalar::frac_div;
use crate::scalar::frac_fits;
use crate::scalar::frac_mul;
use crate::scalar::frac_sub;

verus! {

/// A grid of unbounded fractions: the mathematical state of elimination.
pub type Grid = Seq<Seq<(int, int)>>;

/// The fraction in row `i`, column `j` of the grid.
pub open spec fn gat(g: Grid, i: int, j: int) -> (int, int) {
    g[i][j]
}

/// The grid of values held by a matrix.
pub open spec fn grid_of<const R: usize, const C: usize>(m: Matrix<R, C>) -> Grid {
    Seq::new(R as nat, |i: int| Seq::new(C as nat, |j: int| m.at(i, j)))
}

/// The s-by-s identity grid.
pub open spec fn id_grid(s: int) -> Grid {
    Seq::new(
        s as nat,
        |i: int|
            Seq::new(
                s as nat,
                |j: int|
                    if i == j {
                        (1int, 1int)
                    } else {
                        (0int, 1int)
                    },
            ),
    )
}

/// Row `i` divided by the pivot `p`; every other row unchanged.
pub open spec fn scale_row(g: Grid, i: int, p: (int, int), s: int) -> Grid {
    Seq::new(
        s as nat,
        |r: int|
            Seq::new(
                s as nat,
                |c: int|
                    if r == i {
                        frac_div(gat(g, r, c), p)
                    } else {
                        gat(g, r, c)
                    },
            ),
    )
}

/// Column `i` cleared from every row but row `i`: row `r` of `g` minus
/// `f(r, i)` times row `i` of `g`, with the factors read from `f`.
pub open spec fn elim_rows(g: Grid, f: Grid, i: int, s: int) -> Grid {
    Seq::new(
        s as nat,
        |r: int|
            Seq::new(
                s as nat,
                |c: int|
                    if r == i {
                        gat(g, r, c)
                    } else {
                        frac_sub(gat(g, r, c), frac_mul(gat(f, r, i), gat(g, i, c)))
                    },
            ),
    )
}

/// The working grid after pass `i` of elimination.
pub open spec fn gj_step_w(w: Grid, i: int, s: int) -> Grid {
    let p = gat(w, i, i);
    elim_rows(scale_row(w, i, p, s), scale_row(w, i, p, s), i, s)
}

/// The accumulator grid after pass `i` of elimination.
pub open spec fn gj_step_a(w: Grid, a: Grid, i: int, s: int) -> Grid {
    let p = gat(w, i, i);
    elim_rows(scale_row(a, i, p, s), scale_row(w, i, p, s), i, s)
}

/// Gauss-Jordan elimination from pass `i` on: `None` exactly when some
/// remaining pass meets a zero pivot, else the final pair of grids.
pub open spec fn gj(w: Grid, a: Grid, i: int, s: int) -> Option<(Grid, Grid)>
    decreases s - i,
{
    if i >= s {
        Some((w, a))
    } else if gat(w, i, i).0 == 0 {
        None
    } else {
        gj(gj_step_w(w, i, s), gj_step_a(w, a, i, s), i + 1, s)
    }
}

/// Every division of pass `i`'s row scaling fits in machine words.
pub open spec fn scale_fits(g: Grid, i: int, p: (int, int), s: int) -> bool {
    forall|c: int| 0 <= c < s ==> frac_fits(frac_div(#[trigger] gat(g, i, c), p))
}

/// Every product and difference of pass `i`'s column clearing fits in
/// machine words.
pub open spec fn elim_fits(g: Grid, f: Grid, i: int, s: int) -> bool {
    forall|r: int, c: int|
        0 <= r < s && 0 <= c < s && r != i ==> frac_fits(
            #[trigger] frac_mul(gat(f, r, i), gat(g, i, c)),
        ) && frac_fits(frac_sub(gat(g, r, c), frac_mul(gat(f, r, i), gat(g, i, c))))
}

/// Every scalar computed during pass `i` fits in machine words.
pub open spec fn step_fits(w: Grid, a: Grid, i: int, s: int) -> bool {
    let p = gat(w, i, i);
    let ws = scale_row(w, i, p, s);
    let ag = scale_row(a, i, p, s);
    &&& scale_fits(w, i, p, s)
    &&& scale_fits(a, i, p, s)
    &&& elim_fits(ws, ws, i, s)
    &&& elim_fits(ag, ws, i, s)
}

/// Every scalar computed during elimination from pass `i` on fits in
/// machine words.
pub open spec fn gj_fits(w: Grid, a: Grid, i: int, s: int) -> bool
    decreases s - i,
{
    if i >= s {
        true
    } else if gat(w, i, i).0 == 0 {
        true
    } else {
        step_fits(w, a, i, s) && gj_fits(gj_step_w(w, i, s), gj_step_a(w, a, i, s), i + 1, s)
    }
}

/// A matrix whose values agree with a grid pointwise holds that grid.
proof fn lemma_grid_pointwise<const R: usize, const C: usize>(m: Matrix<R, C>, g: Grid)
    requires
        g.len() == R as int,
        forall|r: int| 0 <= r < R as int ==> (#[trigger] g[r]).len() == C as int,
        forall|r: int, c: int|
            0 <= r < R as int && 0 <= c < C as int ==> #[trigger] gat(g, r, c) == m.at(r, c),
    ensures
        grid_of(m) == g,
{
    assert forall|r: int| 0 <= r < R as int implies grid_of(m)[r] =~= g[r] by {
        assert(g[r].len() == C as int);
        assert forall|c: int| 0 <= c < C as int implies grid_of(m)[r][c] == g[r][c] by {
            assert(gat(g, r, c) == m.at(r, c));
        }
    }
    assert(grid_of(m) =~~= g);
}

impl<const S: usize> Matrix<S, S> {
    /// Every scalar the elimination of this matrix would compute fits in
    /// machine words; a machine limit, not part of the algorithm.
    pub open spec fn inv_fits(self) -> bool {
        gj_fits(grid_of(self), id_grid(S as int), 0, S as int)
    }

    /// Row `i` of `m` divided by the pivot `p`; other rows copied.
    fn scale_pass(m: &Matrix<S, S>, i: usize, p: Scalar) -> (r: Matrix<S, S>)
        requires
            m.wf(),
            p.wf(),
            p.num != 0,
            i < S,
            scale_fits(grid_of(*m), i as int, p.frac(), S as int),
        ensures
            r.wf(),
            forall|x: int, y: int|
                0 <= x < S as int && 0 <= y < S as int ==> #[trigger] r.at(x, y) == (
                    if x == i as int {
                        frac_div(m.at(x, y), p.frac())
                    } else {
                        m.at(x, y)
                    }
                ),
    {
        let mut entries: Vec<Vec<Scalar>> = Vec::new();
        for x in 0..S
            invariant
                m.wf(),
                p.wf(),
                p.num != 0,
                i < S,
                scale_fits(grid_of(*m), i as int, p.frac(), S as int),
                entries@.len() == x as int,
                forall|u: int| 0 <= u < x as int ==> (#[trigger] entries@[u])@.len() == S as int,
                forall|u: int, v: int|
                    0 <= u < x as int && 0 <= v < S as int ==> (#[trigger] entries@[u]@[v]).wf()
                        && entries@[u]@[v].frac() == (
                        if u == i as int {
                            frac_div(m.at(u, v), p.frac())
                        } else {
                            m.at(u, v)
                        }
                    ),
        {
            let mut row: Vec<Scalar> = Vec::new();
            for y in 0..S
                invariant
                    m.wf(),
                    p.wf(),
                    p.num != 0,
                    i < S,
                    x < S,
                    scale_fits(grid_of(*m), i as int, p.frac(), S as int),
                    row@.len() == y as int,
                    forall|v: int|
                        0 <= v < y as int ==> (#[trigger] row@[v]).wf() && row@[v].frac() == (
                        if x as int == i as int {
                            frac_div(m.at(x as int, v), p.frac())
                        } else {
                            m.at(x as int, v)
                        }
                    ),
            {
                if x == i {
                    proof {
                        assert(frac_fits(
                            frac_div(gat(grid_of(*m), i as int, y as int), p.frac()),
                        ));
                    }
                    row.push(m.get(x, y).div(p));
                } else {
                    row.push(m.get(x, y));
                }
            }
            entries.push(row);
        }
        Matrix { entries }
    }

    /// Column `i` cleared from every row of `m` but row `i`, with the
    /// factors read from `f`.
    fn elim_pass(m: &Matrix<S, S>, f: &Matrix<S, S>, i: usize) -> (r: Matrix<S, S>)
        requires
            m.wf(),
            f.wf(),
            i < S,
            elim_fits(grid_of(*m), grid_of(*f), i as int, S as int),
        ensures
            r.wf(),
            forall|x: int, y: int|
                0 <= x < S as int && 0 <= y < S as int ==> #[trigger] r.at(x, y) == (
                    if x == i as int {
                        m.at(x, y)
                    } else {
                        frac_sub(m.at(x, y), frac_mul(f.at(x, i as int), m.at(i as int, y)))
                    }
                ),
    {
        let mut entries: Vec<Vec<Scalar>> = Vec::new();
        for x in 0..S
            invariant
                m.wf(),
                f.wf(),
                i < S,
                elim_fits(grid_of(*m), grid_of(*f), i as int, S as int),
                entries@.len() == x as int,
                forall|u: int| 0 <= u < x as int ==> (#[trigger] entries@[u])@.len() == S as int,
                forall|u: int, v: int|
                    0 <= u < x as int && 0 <= v < S as int ==> (#[trigger] entries@[u]@[v]).wf()
                        && entries@[u]@[v].frac() == (
                        if u == i as int {
                            m.at(u, v)
                        } else {
                            frac_sub(m.at(u, v), frac_mul(f.at(u, i as int), m.at(i as int, v)))
                        }
                    ),
        {
            let mut row: Vec<Scalar> = Vec::new();
            let fac = f.get(x, i);
            for y in 0..S
                invariant
                    m.wf(),
                    f.wf(),
                    i < S,
                    x < S,
                    fac == f.entry(x as int, i as int),
                    elim_fits(grid_of(*m), grid_of(*f), i as int, S as int),
                    row@.len() == y as int,
                    forall|v: int|
                        0 <= v < y as int ==> (#[trigger] row@[v]).wf() && row@[v].frac() == (
                        if x as int == i as int {
                            m.at(x as int, v)
                        } else {
                            frac_sub(
                                m.at(x as int, v),
                                frac_mul(f.at(x as int, i as int), m.at(i as int, v)),
                            )
                        }
                    ),
            {
                if x == i {
                    row.push(m.get(x, y));
                } else {
                    proof {
                        assert(frac_fits(
                            frac_mul(
                                gat(grid_of(*f), x as int, i as int),
                                gat(grid_of(*m), i as int, y as int),
                            ),
                        ));
                        assert(frac_fits(
                            frac_sub(
                                gat(grid_of(*m), x as int, y as int),
                                frac_mul(
                                    gat(grid_of(*f), x as int, i as int),
                                    gat(grid_of(*m), i as int, y as int),
                                ),
                            ),
                        ));
                    }
                    row.push(m.get(x, y).sub(fac.mul(m.get(i, y))));
                }
            }
            entries.push(row);
        }
        Matrix { entries }
    }

    /// The inverse under Gauss-Jordan elimination without pivoting:
    /// `None` exactly when the elimination meets a zero pivot (the matrix
    /// is singular for this algorithm), else the accumulator grid that the
    /// elimination leaves behind — which is why a genuinely invertible
    /// matrix with a zero on the reduced diagonal still answers `None`.
    pub fn inverse(&self) -> (r: Option<Matrix<S, S>>)
        requires
            self.wf(),
            self.inv_fits(),
        ensures
            r is Some <==> gj(grid_of(*self), id_grid(S as int), 0, S as int) is Some,
            r is Some ==> r->Some_0.wf() && grid_of(r->Some_0) == gj(
                grid_of(*self),
                id_grid(S as int),
                0,
                S as int,
            )->Some_0.1,
    {
        let mut w = self.duplicate();
        let mut acc = Matrix::<S, S>::ident();
        proof {
            lemma_grid_pointwise(w, grid_of(*self));
            lemma_grid_pointwise(acc, id_grid(S as int));
        }
        for i in 0..S
            invariant
                self.wf(),
                self.inv_fits(),
                w.wf(),
                acc.wf(),
                gj(grid_of(*self), id_grid(S as int), 0, S as int) == gj(
                    grid_of(w),
                    grid_of(acc),
                    i as int,
                    S as int,
                ),
                gj_fits(grid_of(w), grid_of(acc), i as int, S as int),
        {
            let p = w.get(i, i);
            if p.is_zero() {
                proof {
                    assert(gat(grid_of(w), i as int, i as int).0 == 0);
                    assert(gj(grid_of(w), grid_of(acc), i as int, S as int) is None);
                }
                return None;
            }
            proof {
                assert(gat(grid_of(w), i as int, i as int) == p.frac());
                assert(step_fits(grid_of(w), grid_of(acc), i as int, S as int));
            }
            let ws = Self::scale_pass(&w, i, p);
            let ag = Self::scale_pass(&acc, i, p);
            proof {
                lemma_grid_pointwise(ws, scale_row(grid_of(w), i as int, p.frac(), S as int));
                lemma_grid_pointwise(ag, scale_row(grid_of(acc), i as int, p.frac(), S as int));
            }
            let w2 = Self::elim_pass(&ws, &ws, i);
            let a2 = Self::elim_pass(&ag, &ws, i);
            proof {
                lemma_grid_pointwise(
                    w2,
                    elim_rows(grid_of(ws), grid_of(ws), i as int, S as int),
                );
                lemma_grid_pointwise(
                    a2,
                    elim_rows(grid_of(ag), grid_of(ws), i as int, S as int),
                );
                assert(grid_of(w2) == gj_step_w(grid_of(w), i as int, S as int));
                assert(grid_of(a2) == gj_step_a(grid_of(w), grid_of(acc), i as int, S as int));
                assert(gj(grid_of(w), grid_of(acc), i as int, S as int) == gj(
                    grid_of(w2),
                    grid_of(a2),
                    i as int + 1,
                    S as int,
                ));
                assert(gj_fits(grid_of(w2), grid_of(a2), i as int + 1, S as int));
            }
            w = w2;
            acc = a2;
        }
        proof {
            assert(gj(grid_of(w), grid_of(acc), S as int, S as int) == Some(
                (grid_of(w), grid_of(acc)),
            ));
        }
        Some(acc)
    }
}

} // verus!
