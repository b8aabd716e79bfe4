//! A small recursive ray tracer over exact fixed-point arithmetic.
//!
//! Geometry is carried in a scaled-integer scalar type, so every operation
//! of the pipeline — intersection, closest-hit selection, shadowing, Phong
//! shading and the depth-bounded reflection recursion — has an exact,
//! machine-checked contract.

pub mod fixed;
pub mod vector3d;
pub mod space_algebra;
pub mod materials;
pub mod shapes;
pub mod ray;
pub mod scene;
pub mod shade;
pub mod raytrace;
