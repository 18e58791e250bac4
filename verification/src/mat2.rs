//! Fixed-point 2D vectors and 2-by-2 matrices: the camera basis and the
//! little linear algebra the renderer needs.

use crate::fx::{iabs, lemma_div_abs_shrink, lemma_mul_abs_bound, Fx};
use vstd::prelude::*;

verus! {

/// Largest admissible magnitude for a camera-matrix entry (raw units).
pub const MAT_LIMIT: i64 = 0x80000;

/// Magnitude bound on the entries of an inverted camera matrix (raw units).
pub const INV_MAT_LIMIT: i64 = 0x1000_0000;

/// Largest admissible magnitude for a vector a matrix is applied to (raw
/// units).
pub const VEC_LIMIT: i64 = 0x40_0000_0000;

/// Magnitude bound on the components of a matrix-vector product (raw
/// units).
pub const MAT_VEC_LIMIT: i64 = 0x10_0000_0000_0000;

/// A 2D fixed-point vector.
#[derive(Clone, Copy, PartialEq, Eq, Structural, Debug)]
pub struct Vec2x {
    pub x: Fx,
    pub y: Fx,
}

impl Vec2x {
    pub fn new(x: Fx, y: Fx) -> (r: Vec2x)
        ensures
            r == (Vec2x { x, y }),
    {
        Vec2x { x, y }
    }

    pub fn add(self, o: Vec2x) -> (r: Vec2x)
        requires
            i64::MIN <= self.x.raw + o.x.raw <= i64::MAX,
            i64::MIN <= self.y.raw + o.y.raw <= i64::MAX,
        ensures
            r.x.raw == self.x.raw + o.x.raw,
            r.y.raw == self.y.raw + o.y.raw,
    {
        Vec2x { x: self.x.add(o.x), y: self.y.add(o.y) }
    }

    pub fn sub(self, o: Vec2x) -> (r: Vec2x)
        requires
            i64::MIN <= self.x.raw - o.x.raw <= i64::MAX,
            i64::MIN <= self.y.raw - o.y.raw <= i64::MAX,
        ensures
            r.x.raw == self.x.raw - o.x.raw,
            r.y.raw == self.y.raw - o.y.raw,
    {
        Vec2x { x: self.x.sub(o.x), y: self.y.sub(o.y) }
    }
}

/// A 2-by-2 fixed-point matrix, row-major: row 0 is `(m00, m01)`.
///
/// As the camera basis, its columns are the screen-right and view-forward
/// directions in world space.
#[derive(Clone, Copy, PartialEq, Eq, Structural, Debug)]
pub struct Mat2x {
    pub m00: Fx,
    pub m01: Fx,
    pub m10: Fx,
    pub m11: Fx,
}

impl Mat2x {
    /// Entries bounded as a camera basis: small enough that inverting and
    /// applying the matrix stays far from overflow.
    pub open spec fn wf(self) -> bool {
        &&& iabs(self.m00.raw as int) <= MAT_LIMIT
        &&& iabs(self.m01.raw as int) <= MAT_LIMIT
        &&& iabs(self.m10.raw as int) <= MAT_LIMIT
        &&& iabs(self.m11.raw as int) <= MAT_LIMIT
    }

    /// Entries bounded as an inverted camera basis.
    pub open spec fn wf_inv(self) -> bool {
        &&& iabs(self.m00.raw as int) <= INV_MAT_LIMIT
        &&& iabs(self.m01.raw as int) <= INV_MAT_LIMIT
        &&& iabs(self.m10.raw as int) <= INV_MAT_LIMIT
        &&& iabs(self.m11.raw as int) <= INV_MAT_LIMIT
    }

    pub fn new(m00: Fx, m01: Fx, m10: Fx, m11: Fx) -> (r: Mat2x)
        ensures
            r == (Mat2x { m00, m01, m10, m11 }),
    {
        Mat2x { m00, m01, m10, m11 }
    }

    /// One component of a matrix-vector product: `a * vx + b * vy`.
    pub open spec fn spec_row_apply(a: Fx, b: Fx, vx: Fx, vy: Fx) -> int {
        (a.raw * vx.raw) / 65536int + (b.raw * vy.raw) / 65536int
    }

    /// Matrix-vector product.
    pub fn mul_vec(self, v: Vec2x) -> (r: Vec2x)
        requires
            self.wf_inv(),
            iabs(v.x.raw as int) <= VEC_LIMIT,
            iabs(v.y.raw as int) <= VEC_LIMIT,
        ensures
            r.x.raw == Self::spec_row_apply(self.m00, self.m01, v.x, v.y),
            r.y.raw == Self::spec_row_apply(self.m10, self.m11, v.x, v.y),
            iabs(r.x.raw as int) <= MAT_VEC_LIMIT,
            iabs(r.y.raw as int) <= MAT_VEC_LIMIT,
    {
        proof {
            lemma_entry_product_bound(self.m00, v.x);
            lemma_entry_product_bound(self.m01, v.y);
            lemma_entry_product_bound(self.m10, v.x);
            lemma_entry_product_bound(self.m11, v.y);
        }
        let x: Fx = self.m00.mul(v.x).add(self.m01.mul(v.y));
        let y: Fx = self.m10.mul(v.x).add(self.m11.mul(v.y));
        Vec2x { x, y }
    }

    /// The determinant.
    pub open spec fn spec_det(self) -> int {
        (self.m00.raw * self.m11.raw) / 65536int - (self.m01.raw * self.m10.raw) / 65536int
    }

    /// The determinant.
    pub fn determinant(self) -> (r: Fx)
        requires
            self.wf(),
        ensures
            r.raw == self.spec_det(),
            iabs(r.raw as int) <= 0x100_0000,
    {
        proof {
            lemma_entry_entry_bound(self.m00, self.m11);
            lemma_entry_entry_bound(self.m01, self.m10);
        }
        self.m00.mul(self.m11).sub(self.m01.mul(self.m10))
    }
}

/// The product of an inverse-matrix entry and a bounded vector component
/// stays within range.
proof fn lemma_entry_product_bound(a: Fx, v: Fx)
    requires
        iabs(a.raw as int) <= INV_MAT_LIMIT,
        iabs(v.raw as int) <= VEC_LIMIT,
    ensures
        iabs((a.raw * v.raw) / 65536int) <= 0x8_0000_0000_0000,
{
    lemma_mul_abs_bound(a.raw as int, v.raw as int, INV_MAT_LIMIT as int, VEC_LIMIT as int);
    lemma_div_abs_shrink(a.raw * v.raw, (INV_MAT_LIMIT as int) * (VEC_LIMIT as int), 65536int);
    assert((INV_MAT_LIMIT as int) * (VEC_LIMIT as int) / 65536int + 1 <= 0x8_0000_0000_0000)
        by (nonlinear_arith);
}

/// The product of two camera-matrix entries stays within range.
proof fn lemma_entry_entry_bound(a: Fx, b: Fx)
    requires
        iabs(a.raw as int) <= MAT_LIMIT,
        iabs(b.raw as int) <= MAT_LIMIT,
    ensures
        iabs((a.raw * b.raw) / 65536int) <= 0x80_0000,
{
    lemma_mul_abs_bound(a.raw as int, b.raw as int, MAT_LIMIT as int, MAT_LIMIT as int);
    lemma_div_abs_shrink(a.raw * b.raw, (MAT_LIMIT as int) * (MAT_LIMIT as int), 65536int);
    assert((MAT_LIMIT as int) * (MAT_LIMIT as int) / 65536int + 1 <= 0x80_0000)
        by (nonlinear_arith);
}

/// The adjugate scaled by the determinant, as a value.
pub open spec fn spec_inverse_mat2(mat: Mat2x) -> Mat2x {
    Mat2x {
        m00: Fx { raw: ((mat.m11.raw * mat.spec_det()) / 65536int) as i64 },
        m01: Fx { raw: (((-mat.m01.raw) * mat.spec_det()) / 65536int) as i64 },
        m10: Fx { raw: (((-mat.m10.raw) * mat.spec_det()) / 65536int) as i64 },
        m11: Fx { raw: ((mat.m00.raw * mat.spec_det()) / 65536int) as i64 },
    }
}

/// The adjugate scaled by the determinant: for an orthonormal camera basis
/// (determinant of magnitude one) this is the inverse.
pub fn inverse_mat2(mat: Mat2x) -> (r: Mat2x)
    requires
        mat.wf(),
    ensures
        r == spec_inverse_mat2(mat),
        r.m00.raw == (mat.m11.raw * mat.spec_det()) / 65536int,
        r.m01.raw == ((-mat.m01.raw) * mat.spec_det()) / 65536int,
        r.m10.raw == ((-mat.m10.raw) * mat.spec_det()) / 65536int,
        r.m11.raw == (mat.m00.raw * mat.spec_det()) / 65536int,
        r.wf_inv(),
{
    let det: Fx = mat.determinant();
    proof {
        lemma_scale_by_det(mat.m11, det);
        lemma_scale_by_det(mat.m01, det);
        lemma_scale_by_det(mat.m10, det);
        lemma_scale_by_det(mat.m00, det);
    }
    Mat2x {
        m00: mat.m11.mul(det),
        m01: mat.m01.neg().mul(det),
        m10: mat.m10.neg().mul(det),
        m11: mat.m00.mul(det),
    }
}

/// Scaling a camera-matrix entry by the determinant gives an entry within
/// the inverse-matrix bound.
proof fn lemma_scale_by_det(a: Fx, det: Fx)
    requires
        iabs(a.raw as int) <= MAT_LIMIT,
        iabs(det.raw as int) <= 0x100_0000,
    ensures
        iabs((a.raw * det.raw) / 65536int) <= INV_MAT_LIMIT,
        iabs(((-a.raw) * det.raw) / 65536int) <= INV_MAT_LIMIT,
{
    lemma_mul_abs_bound(a.raw as int, det.raw as int, MAT_LIMIT as int, 0x100_0000);
    lemma_mul_abs_bound(-(a.raw as int), det.raw as int, MAT_LIMIT as int, 0x100_0000);
    lemma_div_abs_shrink(a.raw * det.raw, (MAT_LIMIT as int) * 0x100_0000, 65536int);
    lemma_div_abs_shrink((-a.raw) * det.raw, (MAT_LIMIT as int) * 0x100_0000, 65536int);
    assert((MAT_LIMIT as int) * 0x100_0000 / 65536int + 1 <= INV_MAT_LIMIT)
        by (nonlinear_arith);
    assert(iabs(-(a.raw as int)) <= MAT_LIMIT);
}

} // verus!
