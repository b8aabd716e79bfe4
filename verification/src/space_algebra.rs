//! Composable rotation operators for placing the camera frame.
//!
//! A rotation wraps a matrix built from the cosine and sine of an angle
//! about a coordinate axis; the zero angle (cosine one, sine zero) gives
//! exactly the identity matrix, with no trigonometric noise.

use vstd::prelude::*;
use crate::fixed::{Fix, SCALE};
use crate::vector3d::{Vec3, Matrix3, in1, in3, m_in, s_mat_vec, MATRIX_LIMIT};

verus! {

/// The identity entries, column by column.
pub open spec fn s_identity() -> ((int, int, int), (int, int, int), (int, int, int)) {
    ((SCALE as int, 0int, 0int), (0int, SCALE as int, 0int), (0int, 0int, SCALE as int))
}

/// A rotation operator on vectors and frames.
#[derive(Clone, Copy, PartialEq, Eq, Structural, Debug)]
pub struct SO3(pub Matrix3);

impl SO3 {
    /// The identity rotation.
    pub fn identity() -> (r: SO3)
        ensures
            r.0@ == s_identity(),
    {
        SO3(Matrix3::identity())
    }

    /// Rotation about the first axis, from the cosine and sine of the
    /// angle. Cosine one with sine zero yields exactly the identity.
    pub fn rotation_x(cos_t: Fix, sin_t: Fix) -> (r: SO3)
        requires
            in1(cos_t@, SCALE as int),
            in1(sin_t@, SCALE as int),
        ensures
            r.0@ == ((SCALE as int, 0int, 0int), (0int, cos_t@, -sin_t@), (0int, sin_t@, cos_t@)),
    {
        SO3(
            Matrix3::with_columns(
                Vec3(Fix(SCALE), Fix(0), Fix(0)),
                Vec3(Fix(0), cos_t, sin_t.neg()),
                Vec3(Fix(0), sin_t, cos_t),
            ),
        )
    }

    /// Rotation about the second axis, from the cosine and sine of the
    /// angle. Cosine one with sine zero yields exactly the identity.
    pub fn rotation_y(cos_t: Fix, sin_t: Fix) -> (r: SO3)
        requires
            in1(cos_t@, SCALE as int),
            in1(sin_t@, SCALE as int),
        ensures
            r.0@ == ((cos_t@, 0int, sin_t@), (0int, SCALE as int, 0int), (-sin_t@, 0int, cos_t@)),
    {
        SO3(
            Matrix3::with_columns(
                Vec3(cos_t, Fix(0), sin_t),
                Vec3(Fix(0), Fix(SCALE), Fix(0)),
                Vec3(sin_t.neg(), Fix(0), cos_t),
            ),
        )
    }

    /// Rotation about the third axis, from the cosine and sine of the
    /// angle. Cosine one with sine zero yields exactly the identity.
    pub fn rotation_z(cos_t: Fix, sin_t: Fix) -> (r: SO3)
        requires
            in1(cos_t@, SCALE as int),
            in1(sin_t@, SCALE as int),
        ensures
            r.0@ == ((cos_t@, sin_t@, 0int), (-sin_t@, cos_t@, 0int), (0int, 0int, SCALE as int)),
    {
        SO3(
            Matrix3::with_columns(
                Vec3(cos_t, sin_t, Fix(0)),
                Vec3(sin_t.neg(), cos_t, Fix(0)),
                Vec3(Fix(0), Fix(0), Fix(SCALE)),
            ),
        )
    }

    /// Composition of rotations: the matrix product.
    pub fn mul(self, rhs: SO3) -> (r: SO3)
        requires
            m_in(self.0@, MATRIX_LIMIT as int),
            m_in(rhs.0@, MATRIX_LIMIT as int),
        ensures
            r.0@ == (
                s_mat_vec(self.0@, rhs.0@.0),
                s_mat_vec(self.0@, rhs.0@.1),
                s_mat_vec(self.0@, rhs.0@.2),
            ),
    {
        let SO3(m) = self;
        let SO3(n) = rhs;
        SO3(m.mul_mat(n))
    }

    /// Action on a vector: the matrix-vector product.
    pub fn mul_vec(self, rhs: Vec3) -> (r: Vec3)
        requires
            m_in(self.0@, MATRIX_LIMIT as int),
            in3(rhs@, MATRIX_LIMIT as int),
        ensures
            r@ == s_mat_vec(self.0@, rhs@),
    {
        let SO3(m) = self;
        m.mul_vec(rhs)
    }
}

} // verus!
