//! Surface materials: Phong reflectivities and shininess.

use vstd::prelude::*;
use crate::fixed::{Fix, SCALE};

verus! {

/// A triple of fixed-point reflectivity channels as plain integers.
pub open spec fn arr3(a: [Fix; 3]) -> (int, int, int) {
    (a[0]@, a[1]@, a[2]@)
}

/// Every channel of a reflectivity triple lies within `[0, 1]`.
pub open spec fn unit3(t: (int, int, int)) -> bool {
    0 <= t.0 <= SCALE as int && 0 <= t.1 <= SCALE as int && 0 <= t.2 <= SCALE as int
}

/// A material whose reflectivity channels all lie within `[0, 1]`.
pub open spec fn mat_wf(m: Material) -> bool {
    unit3(arr3(m.specular)) && unit3(arr3(m.diffuse)) && unit3(arr3(m.ambient)) && unit3(
        arr3(m.reflectivity),
    )
}

/// The value of the fixed unremarkable material, at spec level.
pub open spec fn plain_material() -> Material {
    Material {
        specular: [Fix(100_000), Fix(300_000), Fix(200_000)],
        diffuse: [Fix(100_000), Fix(800_000), Fix(400_000)],
        ambient: [Fix(200_000), Fix(600_000), Fix(600_000)],
        reflectivity: [Fix(30_000), Fix(30_000), Fix(30_000)],
        shine: 3,
    }
}

/// Reflectivity triples and the Phong specular exponent of a surface.
#[derive(Clone, Copy, PartialEq, Debug)]
pub struct Material {
    pub specular: [Fix; 3],
    pub diffuse: [Fix; 3],
    pub ambient: [Fix; 3],
    pub reflectivity: [Fix; 3],
    pub shine: u32,
}

impl Material {
    /// A fixed unremarkable material, for shapes whose looks do not matter.
    pub fn plain() -> (r: Material)
        ensures
            r == plain_material(),
            mat_wf(r),
    {
        Material::new(
            [Fix(100_000), Fix(300_000), Fix(200_000)],
            [Fix(100_000), Fix(800_000), Fix(400_000)],
            [Fix(200_000), Fix(600_000), Fix(600_000)],
            [Fix(30_000), Fix(30_000), Fix(30_000)],
            3,
        )
    }

    /// A material from its reflectivity triples and shininess.
    pub fn new(
        specularity: [Fix; 3],
        diffusivity: [Fix; 3],
        ambience: [Fix; 3],
        reflect: [Fix; 3],
        shininess: u32,
    ) -> (r: Material)
        ensures
            r.specular == specularity,
            r.diffuse == diffusivity,
            r.ambient == ambience,
            r.reflectivity == reflect,
            r.shine == shininess,
    {
        Material {
            specular: specularity,
            diffuse: diffusivity,
            ambient: ambience,
            reflectivity: reflect,
            shine: shininess,
        }
    }

    /// The Phong specular exponent.
    pub fn shine(&self) -> (r: u32)
        ensures
            r == self.shine,
    {
        self.shine
    }

    /// The ambient reflectivity triple.
    pub fn ambient_refletivity(&self) -> (r: [Fix; 3])
        ensures
            r == self.ambient,
    {
        self.ambient
    }

    /// The diffuse reflectivity triple.
    pub fn diffusive_reflectivity(&self) -> (r: [Fix; 3])
        ensures
            r == self.diffuse,
    {
        self.diffuse
    }

    /// The specular reflectivity triple.
    pub fn specular_reflectiviy(&self) -> (r: [Fix; 3])
        ensures
            r == self.specular,
    {
        self.specular
    }

    /// The mirror reflectivity triple used for reflected rays.
    pub fn reflectivity(&self) -> (r: [Fix; 3])
        ensures
            r == self.reflectivity,
    {
        self.reflectivity
    }
}

} // verus!
