//! Homogeneous 3D transform constructors for the 4-by-4 shape.
//!
//! The multiplication convention is fixed once: a point is a 1-by-4 row
//! vector and a transform is applied as `point.mul(&transform)`, so
//! successive transforms compose left to right in the order they are
//! applied.  Translation components therefore live in the last row, and
//! `rotation` builds the row-vector form of the axis-angle (Rodrigues)
//! matrix.
//!
//! Sines and cosines are not computable over exact rationals, so
//! `rotation` takes the sine and cosine of the angle as ready-made scalars;
//! the caller is responsible for passing a normalized axis and a matching
//! sine/cosine pair — an unnormalized axis silently yields a scaled, skewed
//! matrix, exactly as documented for the algorithm.

use vstd::prelude::*;

use crate::matrix::Matrix;
use crate::scalar::Scalar;
use crate::scalar::frac_add;
use crate::scalar::frac_fits;
use crate::scalar::frac_mul;
use crate::scalar::frac_sub;

verus! {

/// A 3D coordinate triple of exact rational scalars.
#[derive(Clone, Copy, PartialEq, Eq, Structural, Debug)]
pub struct Vec3 {
    pub x: Scalar,
    pub y: Scalar,
    pub z: Scalar,
}

/// A 4-component tuple.  Throughout this crate a `Vec4` is an (axis, angle)
/// bundle: `x`, `y`, `z` are a rotation axis and `w` is the rotation angle
/// — `w` is *not* a homogeneous weight.  This overloaded reading is part of
/// the API and is preserved deliberately.
#[derive(Clone, Copy, PartialEq, Eq, Structural, Debug)]
pub struct Vec4 {
    pub x: Scalar,
    pub y: Scalar,
    pub z: Scalar,
    pub w: Scalar,
}

impl Vec3 {
    /// All three components are well-formed scalars.
    pub open spec fn wf(self) -> bool {
        self.x.wf() && self.y.wf() && self.z.wf()
    }

    /// Bundles three scalars into a coordinate triple.
    pub fn new(x: Scalar, y: Scalar, z: Scalar) -> (r: Vec3)
        ensures
            r == (Vec3 { x, y, z }),
    {
        Vec3 { x, y, z }
    }

    /// Extracts the Cartesian coordinates of a homogeneous point row.
    pub fn from_point(m: &Matrix<1, 4>) -> (r: Vec3)
        requires
            m.wf(),
        ensures
            r.x == m.entry(0, 0),
            r.y == m.entry(0, 1),
            r.z == m.entry(0, 2),
    {
        Vec3 { x: m.get(0, 0), y: m.get(0, 1), z: m.get(0, 2) }
    }
}

impl Vec4 {
    /// All four components are well-formed scalars.
    pub open spec fn wf(self) -> bool {
        self.x.wf() && self.y.wf() && self.z.wf() && self.w.wf()
    }

    /// Bundles an axis and an angle into an (axis, angle) tuple.
    pub fn new(x: Scalar, y: Scalar, z: Scalar, w: Scalar) -> (r: Vec4)
        ensures
            r == (Vec4 { x, y, z, w }),
    {
        Vec4 { x, y, z, w }
    }
}

/// The entry pattern of a translation matrix: the identity with the offset
/// in the last row.
pub open spec fn translation_at(t: Vec3, i: int, j: int) -> (int, int) {
    if i == 3 && j == 0 {
        t.x.frac()
    } else if i == 3 && j == 1 {
        t.y.frac()
    } else if i == 3 && j == 2 {
        t.z.frac()
    } else if i == j {
        (1int, 1int)
    } else {
        (0int, 1int)
    }
}

/// The entry pattern of a scaling matrix: the factors on the diagonal.
pub open spec fn scale_at(s: Vec3, i: int, j: int) -> (int, int) {
    if i == 0 && j == 0 {
        s.x.frac()
    } else if i == 1 && j == 1 {
        s.y.frac()
    } else if i == 2 && j == 2 {
        s.z.frac()
    } else if i == 3 && j == 3 {
        (1int, 1int)
    } else {
        (0int, 1int)
    }
}

/// The entry pattern of the row-vector axis-angle rotation matrix, written
/// with exactly the products the constructor computes.
pub open spec fn rotation_at(axis: Vec3, sin_a: Scalar, cos_a: Scalar, i: int, j: int) -> (
    int,
    int,
) {
    let x = axis.x.frac();
    let y = axis.y.frac();
    let z = axis.z.frac();
    let s = sin_a.frac();
    let cc = cos_a.frac();
    let cm = frac_sub((1int, 1int), cc);
    let xc = frac_mul(x, cm);
    let yc = frac_mul(y, cm);
    let zc = frac_mul(z, cm);
    let xyc = frac_mul(y, xc);
    let yzc = frac_mul(z, yc);
    let zxc = frac_mul(x, zc);
    let xxc = frac_mul(x, xc);
    let yyc = frac_mul(y, yc);
    let zzc = frac_mul(z, zc);
    let xs = frac_mul(x, s);
    let ys = frac_mul(y, s);
    let zs = frac_mul(z, s);
    if i == 0 && j == 0 {
        frac_add(xxc, cc)
    } else if i == 0 && j == 1 {
        frac_add(xyc, zs)
    } else if i == 0 && j == 2 {
        frac_sub(zxc, ys)
    } else if i == 1 && j == 0 {
        frac_sub(xyc, zs)
    } else if i == 1 && j == 1 {
        frac_add(yyc, cc)
    } else if i == 1 && j == 2 {
        frac_add(yzc, xs)
    } else if i == 2 && j == 0 {
        frac_add(zxc, ys)
    } else if i == 2 && j == 1 {
        frac_sub(yzc, xs)
    } else if i == 2 && j == 2 {
        frac_add(zzc, cc)
    } else if i == 3 && j == 3 {
        (1int, 1int)
    } else {
        (0int, 1int)
    }
}

/// Every scalar the rotation constructor computes fits in machine words.
pub open spec fn rotation_fits(axis: Vec3, sin_a: Scalar, cos_a: Scalar) -> bool {
    let x = axis.x.frac();
    let y = axis.y.frac();
    let z = axis.z.frac();
    let s = sin_a.frac();
    let cc = cos_a.frac();
    let cm = frac_sub((1int, 1int), cc);
    let xc = frac_mul(x, cm);
    let yc = frac_mul(y, cm);
    let zc = frac_mul(z, cm);
    let xyc = frac_mul(y, xc);
    let yzc = frac_mul(z, yc);
    let zxc = frac_mul(x, zc);
    let xxc = frac_mul(x, xc);
    let yyc = frac_mul(y, yc);
    let zzc = frac_mul(z, zc);
    let xs = frac_mul(x, s);
    let ys = frac_mul(y, s);
    let zs = frac_mul(z, s);
    &&& frac_fits(cm)
    &&& frac_fits(xc)
    &&& frac_fits(yc)
    &&& frac_fits(zc)
    &&& frac_fits(xyc)
    &&& frac_fits(yzc)
    &&& frac_fits(zxc)
    &&& frac_fits(xxc)
    &&& frac_fits(yyc)
    &&& frac_fits(zzc)
    &&& frac_fits(xs)
    &&& frac_fits(ys)
    &&& frac_fits(zs)
    &&& frac_fits(frac_add(xxc, cc))
    &&& frac_fits(frac_add(xyc, zs))
    &&& frac_fits(frac_sub(zxc, ys))
    &&& frac_fits(frac_sub(xyc, zs))
    &&& frac_fits(frac_add(yyc, cc))
    &&& frac_fits(frac_add(yzc, xs))
    &&& frac_fits(frac_add(zxc, ys))
    &&& frac_fits(frac_sub(yzc, xs))
    &&& frac_fits(frac_add(zzc, cc))
}

/// A row of four scalars.
fn row4(a: Scalar, b: Scalar, c: Scalar, d: Scalar) -> (r: Vec<Scalar>)
    ensures
        r@.len() == 4,
        r@[0] == a,
        r@[1] == b,
        r@[2] == c,
        r@[3] == d,
{
    let mut row: Vec<Scalar> = Vec::new();
    row.push(a);
    row.push(b);
    row.push(c);
    row.push(d);
    row
}

impl Matrix<4, 4> {
    /// The homogeneous translation by `t`: the identity with (t.x, t.y,
    /// t.z) in the last row, so that `point.mul(&translation(t))` moves the
    /// point by `t`.
    pub fn translation(t: Vec3) -> (r: Matrix<4, 4>)
        requires
            t.wf(),
        ensures
            r.wf(),
            forall|i: int, j: int|
                0 <= i < 4 && 0 <= j < 4 ==> #[trigger] r.at(i, j) == translation_at(t, i, j),
    {
        let o = Scalar::one();
        let z = Scalar::zero();
        let mut entries: Vec<Vec<Scalar>> = Vec::new();
        entries.push(row4(o, z, z, z));
        entries.push(row4(z, o, z, z));
        entries.push(row4(z, z, o, z));
        entries.push(row4(t.x, t.y, t.z, o));
        Matrix { entries }
    }

    /// The diagonal scaling matrix with (s.x, s.y, s.z, 1) on the diagonal.
    pub fn scale(s: Vec3) -> (r: Matrix<4, 4>)
        requires
            s.wf(),
        ensures
            r.wf(),
            forall|i: int, j: int|
                0 <= i < 4 && 0 <= j < 4 ==> #[trigger] r.at(i, j) == scale_at(s, i, j),
    {
        let o = Scalar::one();
        let z = Scalar::zero();
        let mut entries: Vec<Vec<Scalar>> = Vec::new();
        entries.push(row4(s.x, z, z, z));
        entries.push(row4(z, s.y, z, z));
        entries.push(row4(z, z, s.z, z));
        entries.push(row4(z, z, z, o));
        Matrix { entries }
    }

    /// The axis-angle (Rodrigues) rotation about `axis`, in row-vector
    /// form, built from the sine and cosine of the angle.  The axis is
    /// used as given: a caller who wants a pure rotation must pass a
    /// normalized axis.
    pub fn rotation(axis: Vec3, sin_a: Scalar, cos_a: Scalar) -> (r: Matrix<4, 4>)
        requires
            axis.wf(),
            sin_a.wf(),
            cos_a.wf(),
            rotation_fits(axis, sin_a, cos_a),
        ensures
            r.wf(),
            forall|i: int, j: int|
                0 <= i < 4 && 0 <= j < 4 ==> #[trigger] r.at(i, j) == rotation_at(
                    axis,
                    sin_a,
                    cos_a,
                    i,
                    j,
                ),
    {
        let o = Scalar::one();
        let zo = Scalar::zero();
        let cm = o.sub(cos_a);
        let xc = axis.x.mul(cm);
        let yc = axis.y.mul(cm);
        let zc = axis.z.mul(cm);
        let xyc = axis.y.mul(xc);
        let yzc = axis.z.mul(yc);
        let zxc = axis.x.mul(zc);
        let xxc = axis.x.mul(xc);
        let yyc = axis.y.mul(yc);
        let zzc = axis.z.mul(zc);
        let xs = axis.x.mul(sin_a);
        let ys = axis.y.mul(sin_a);
        let zs = axis.z.mul(sin_a);
        let mut entries: Vec<Vec<Scalar>> = Vec::new();
        entries.push(row4(xxc.add(cos_a), xyc.add(zs), zxc.sub(ys), zo));
        entries.push(row4(xyc.sub(zs), yyc.add(cos_a), yzc.add(xs), zo));
        entries.push(row4(zxc.add(ys), yzc.sub(xs), zzc.add(cos_a), zo));
        entries.push(row4(zo, zo, zo, o));
        Matrix { entries }
    }

    /// The rotation described by an (axis, angle) tuple: the first three
    /// components are the axis and `w` is the angle whose sine and cosine
    /// the caller passes in.  `w` is not a homogeneous weight.
    pub fn axis_angle(v: Vec4, sin_w: Scalar, cos_w: Scalar) -> (r: Matrix<4, 4>)
        requires
            v.wf(),
            sin_w.wf(),
            cos_w.wf(),
            rotation_fits((Vec3 { x: v.x, y: v.y, z: v.z }), sin_w, cos_w),
        ensures
            r.wf(),
            forall|i: int, j: int|
                0 <= i < 4 && 0 <= j < 4 ==> #[trigger] r.at(i, j) == rotation_at(
                    (Vec3 { x: v.x, y: v.y, z: v.z }),
                    sin_w,
                    cos_w,
                    i,
                    j,
                ),
    {
        Matrix::rotation(Vec3 { x: v.x, y: v.y, z: v.z }, sin_w, cos_w)
    }
}

impl Matrix<1, 4> {
    /// Embeds a Cartesian point as a homogeneous row vector with the
    /// homogeneous coordinate set to one.
    pub fn point(p: Vec3) -> (r: Matrix<1, 4>)
        requires
            p.wf(),
        ensures
            r.wf(),
            r.at(0, 0) == p.x.frac(),
            r.at(0, 1) == p.y.frac(),
            r.at(0, 2) == p.z.frac(),
            r.at(0, 3) == (1int, 1int),
    {
        let mut entries: Vec<Vec<Scalar>> = Vec::new();
        entries.push(row4(p.x, p.y, p.z, Scalar::one()));
        Matrix { entries }
    }
}

} // verus!
