//! Fixed-dimension linear algebra over exact rational scalars.
//!
//! A `Matrix<R, C>` has its row and column counts fixed in its type, so a
//! shape mismatch in `add`, `sub` or `mul` is a compile error.  Entries are
//! exact fractions of machine integers (`Scalar`), which makes every
//! arithmetic contract exact: no rounding enters the verified core.

use vstd::prelude::*;

pub mod assoc;
pub mod inverse;
pub mod laws;
pub mod matrix;
pub mod scalar;
pub mod transform;

verus! {

} // verus!
