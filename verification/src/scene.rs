//! Scenes: an ambient light, an object collection, point lights, and
//! the shadow test that decides whether a light reaches a point.

use vstd::prelude::*;
use crate::vector3d::{Vec3, in3, s_sub, s_norm, lemma_v3_roundtrip};
use crate::shade::Color;
use crate::shapes::Shape;
use crate::ray::{
    Ray, Shadable, ray_of, objs_wf, best_hit, valid_hit, strike_dist,
    COORD_LIMIT, POINT_LIMIT, TOLERANCE,
};

verus! {

/// A point light: position and colour.
#[derive(Clone, Copy, PartialEq, Eq, Structural, Debug)]
pub struct Light {
    pub position: Vec3,
    pub colour: Color,
}

/// The positionless base light of a scene.
#[derive(Clone, Copy, PartialEq, Eq, Structural, Debug)]
pub struct AmbientLight {
    pub colour: Color,
}

/// A renderable world: ambient light, objects, point lights.
pub struct Scene {
    pub ambient_light: AmbientLight,
    pub objects: Vec<Shape>,
    pub lights: Vec<Light>,
}

/// A light whose position the engine accepts.
pub open spec fn light_wf(l: Light) -> bool {
    in3(l.position@, COORD_LIMIT as int)
}

/// A scene whose objects and lights the engine accepts.
pub open spec fn scene_wf(s: Scene) -> bool {
    objs_wf(s.objects@) && (forall|i: int|
        0 <= i < s.lights@.len() ==> light_wf(#[trigger] s.lights@[i]))
}

/// The secondary ray fired from a point toward a light.
pub open spec fn shadow_ray(l: Light, p: (int, int, int)) -> Ray {
    ray_of(p, s_sub(l.position@, p))
}

/// Whether the light reaches the point: no valid hit on the shadow ray,
/// or only hits lying farther from the point than the light itself.
pub open spec fn illuminated(l: Light, p: (int, int, int), objs: Seq<Shape>) -> bool {
    match best_hit(shadow_ray(l, p), objs) {
        Option::None => true,
        Option::Some(b) => !(s_norm(s_sub(b.1, p)) < s_norm(s_sub(p, l.position@))),
    }
}

impl Light {
    /// The shadow test: fire a ray from `p` toward this light; the point
    /// is lit unless some object blocks the segment between them.
    pub fn illuminates(&self, p: Vec3, objects: &Vec<Shape>) -> (r: bool)
        requires
            light_wf(*self),
            in3(p@, POINT_LIMIT as int),
            objs_wf(objects@),
        ensures
            r == illuminated(*self, p@, objects@),
    {
        let dir = self.position.sub(p);
        let ray = Ray::new(p, dir);
        proof {
            lemma_v3_roundtrip(p);
            lemma_v3_roundtrip(dir);
            assert(ray == shadow_ray(*self, p@));
        }
        let strike = ray.trace(objects);
        match strike {
            Some(cell) => {
                let x = cell.0;
                let occluder = x.sub(p).norm();
                let reach = p.sub(self.position).norm();
                if occluder.raw() < reach.raw() {
                    false
                } else {
                    true
                }
            },
            None => true,
        }
    }
}

/// Self-shadow suppression: when every object that the shadow ray from a
/// point strikes is struck within the self-intersection tolerance of the
/// point itself — as a surface struck exactly at its own point is — no
/// occlusion is reported and the light illuminates the point.
pub proof fn lemma_self_shadow_suppressed(l: Light, p: (int, int, int), objs: Seq<Shape>)
    requires
        forall|i: int|
            0 <= i < objs.len() ==> match (#[trigger] objs[i]).hit_spec(shadow_ray(l, p)) {
                Option::None => true,
                Option::Some(q) => strike_dist(shadow_ray(l, p).origin, q) < TOLERANCE as int,
            },
    ensures
        illuminated(l, p, objs),
{
    assert forall|i: int| 0 <= i < objs.len() implies #[trigger] valid_hit(
        shadow_ray(l, p),
        objs[i],
    ) is None by {}
    crate::ray::lemma_best_none(shadow_ray(l, p), objs, objs.len() as int);
}

} // verus!
