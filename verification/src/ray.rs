//! Rays, the capability trait for shapes, and the closest-hit engine.

use vstd::prelude::*;
use crate::fixed::Fix;
use crate::vector3d::{
    Vec3, in3, opt_v3, s_sub, s_norm, s_normalize, UNIT_LIMIT, NORMAL_LIMIT,
};
use crate::materials::{Material, mat_wf};
use crate::shapes::Shape;

verus! {

/// Magnitude bound on scene data: shape centres, radii, light positions.
pub const COORD_LIMIT: i128 = 1_000_000_000;

/// Magnitude bound on any accepted intersection point.
pub const POINT_LIMIT: i128 = 100_000_000_000;

/// Magnitude bound on the origin and direction of a traceable ray.
pub const RAY_LIMIT: i128 = 200_000_000_000;

/// Hits closer than this to the ray origin are discarded, so a ray never
/// re-strikes the surface it just left.
pub const TOLERANCE: i128 = 10;

/// A half-line: origin plus a direction that need not be unit length.
#[derive(Clone, Copy, PartialEq, Eq, Structural, Debug)]
pub struct Ray {
    pub origin: Vec3,
    pub direction: Vec3,
}

/// A ray whose coordinates the engine accepts.
pub open spec fn ray_wf(r: Ray) -> bool {
    in3(r.origin@, RAY_LIMIT as int) && in3(r.direction@, RAY_LIMIT as int)
}

/// The ray whose origin and direction have the given raw components.
pub open spec fn ray_of(o: (int, int, int), d: (int, int, int)) -> Ray {
    Ray { origin: crate::vector3d::v3_of(o), direction: crate::vector3d::v3_of(d) }
}

/// Everything shading needs at a hit: the point, the surface normal
/// there, the normalized view direction, and the surface material.
#[derive(Clone, Copy, PartialEq, Debug)]
pub struct ShadeCell(pub Vec3, pub Vec3, pub Vec3, pub Material);

/// A shade cell the shading stage accepts.
pub open spec fn cell_wf(c: ShadeCell) -> bool {
    in3(c.0@, POINT_LIMIT as int) && in3(c.1@, NORMAL_LIMIT as int) && in3(
        c.2@,
        UNIT_LIMIT as int,
    ) && mat_wf(c.3)
}

/// The capability set of a scene object: ray intersection, surface
/// normal, and an attached material, each pinned to a spec-level mirror.
pub trait Shadable: Sized {
    /// The object's structural well-formedness: bounded data, unit
    /// reflectivities.
    spec fn inv(&self) -> bool;

    /// What `intersect` returns, as a function over plain integers.
    spec fn hit_spec(&self, ray: Ray) -> Option<(int, int, int)>;

    /// What `normal` returns at a point, as a function over plain integers.
    spec fn normal_spec(&self, p: (int, int, int)) -> (int, int, int);

    /// The material `material` hands out.
    spec fn material_spec(&self) -> Material;

    /// The nearest forward intersection of `ray` with the object, if any.
    fn intersect(&self, ray: &Ray) -> (r: Option<Vec3>)
        requires
            self.inv(),
            ray_wf(*ray),
        ensures
            opt_v3(r) == self.hit_spec(*ray),
            r matches Some(p) ==> in3(p@, POINT_LIMIT as int),
    ;

    /// The surface normal at `v`.
    fn normal(&self, v: Vec3) -> (r: Vec3)
        requires
            self.inv(),
            in3(v@, POINT_LIMIT as int),
        ensures
            r@ == self.normal_spec(v@),
            in3(r@, NORMAL_LIMIT as int),
    ;

    /// The attached material.
    fn material(&self) -> (r: &Material)
        requires
            self.inv(),
        ensures
            *r == self.material_spec(),
            mat_wf(*r),
    ;
}

/// Every object of a collection is well formed.
pub open spec fn objs_wf(objs: Seq<Shape>) -> bool {
    forall|i: int| 0 <= i < objs.len() ==> (#[trigger] objs[i]).inv()
}

/// Distance from a ray origin to a candidate point.
pub open spec fn strike_dist(origin: Vec3, p: (int, int, int)) -> int {
    s_norm(s_sub(origin@, p))
}

/// A hit that survives the self-intersection tolerance.
pub open spec fn valid_hit(ray: Ray, sh: Shape) -> Option<(int, int, int)> {
    match sh.hit_spec(ray) {
        Option::None => Option::None,
        Option::Some(p) => if strike_dist(ray.origin, p) < TOLERANCE as int {
            Option::None
        } else {
            Option::Some(p)
        },
    }
}

/// The nearest valid hit among the first `n` objects, scanning left to
/// right and keeping the earlier object on equal distances: the winning
/// index, the hit point, and its distance from the ray origin.
pub open spec fn best_hit_upto(ray: Ray, objs: Seq<Shape>, n: int) -> Option<
    (int, (int, int, int), int),
>
    decreases n,
{
    if n <= 0 {
        Option::None
    } else {
        let prev = best_hit_upto(ray, objs, n - 1);
        match valid_hit(ray, objs[n - 1]) {
            Option::None => prev,
            Option::Some(p) => {
                let d = strike_dist(ray.origin, p);
                match prev {
                    Option::None => Option::Some((n - 1, p, d)),
                    Option::Some(b) => if d < b.2 {
                        Option::Some((n - 1, p, d))
                    } else {
                        prev
                    },
                }
            },
        }
    }
}

/// The nearest valid hit over the whole collection.
pub open spec fn best_hit(ray: Ray, objs: Seq<Shape>) -> Option<(int, (int, int, int), int)> {
    best_hit_upto(ray, objs, objs.len() as int)
}

/// When no object yields a valid hit, the scan yields nothing.
pub proof fn lemma_best_none(ray: Ray, objs: Seq<Shape>, n: int)
    requires
        forall|i: int| 0 <= i < n ==> #[trigger] valid_hit(ray, objs[i]) is None,
    ensures
        best_hit_upto(ray, objs, n) is None,
    decreases n,
{
    if n > 0 {
        lemma_best_none(ray, objs, n - 1);
    }
}

/// A winning candidate always names an object of the scanned prefix.
pub proof fn lemma_best_hit_index(ray: Ray, objs: Seq<Shape>, n: int)
    ensures
        best_hit_upto(ray, objs, n) matches Some(b) ==> 0 <= b.0 < n,
    decreases n,
{
    if n > 0 {
        lemma_best_hit_index(ray, objs, n - 1);
    }
}

/// Closest-hit selection between two objects struck by the same ray:
/// the engine reports the hit that lies nearer the ray origin, and the
/// earlier object when the distances tie.
pub proof fn lemma_closest_of_two(
    ray: Ray,
    objs: Seq<Shape>,
    p0: (int, int, int),
    p1: (int, int, int),
)
    requires
        objs.len() == 2,
        valid_hit(ray, objs[0]) == Option::Some(p0),
        valid_hit(ray, objs[1]) == Option::Some(p1),
    ensures
        strike_dist(ray.origin, p1) < strike_dist(ray.origin, p0) ==> best_hit(ray, objs)
            == Option::Some((1int, p1, strike_dist(ray.origin, p1))),
        strike_dist(ray.origin, p0) <= strike_dist(ray.origin, p1) ==> best_hit(ray, objs)
            == Option::Some((0int, p0, strike_dist(ray.origin, p0))),
{
    assert(best_hit_upto(ray, objs, 0) is None);
    assert(best_hit_upto(ray, objs, 1) == Option::Some(
        (0int, p0, strike_dist(ray.origin, p0)),
    ));
    assert(best_hit(ray, objs) == best_hit_upto(ray, objs, 2));
}

/// The integer view of the running best candidate.
pub open spec fn cand_view(o: Option<(usize, Vec3, Fix)>) -> Option<(int, (int, int, int), int)> {
    match o {
        Option::None => Option::None,
        Option::Some(t) => Option::Some((t.0 as int, t.1@, t.2@)),
    }
}

impl Ray {
    /// A ray from an origin along a direction.
    pub fn new(o: Vec3, d: Vec3) -> (r: Ray)
        ensures
            r.origin == o,
            r.direction == d,
    {
        Ray { origin: o, direction: d }
    }

    /// The intersection of this ray with one object.
    pub fn intersection(&self, object: &Shape) -> (r: Option<Vec3>)
        requires
            object.inv(),
            ray_wf(*self),
        ensures
            opt_v3(r) == object.hit_spec(*self),
    {
        object.intersect(self)
    }

    /// Whether this ray strikes the object at all.
    pub fn hits(&self, object: &Shape) -> (r: bool)
        requires
            object.inv(),
            ray_wf(*self),
        ensures
            r == (object.hit_spec(*self) is Some),
    {
        self.intersection(object).is_some()
    }

    /// The closest-hit query: the nearest valid forward intersection over
    /// the collection, packaged with normal, view direction and material.
    pub fn trace(&self, objects: &Vec<Shape>) -> (r: Option<ShadeCell>)
        requires
            ray_wf(*self),
            objs_wf(objects@),
        ensures
            match best_hit(*self, objects@) {
                Option::None => r is None,
                Option::Some(b) => r matches Some(cell) && cell.0@ == b.1 && cell.1
                    @ == objects@[b.0].normal_spec(b.1) && cell.2@ == s_normalize(
                    self.direction@,
                ) && cell.3 == objects@[b.0].material_spec() && cell_wf(cell),
            },
    {
        let mut best: Option<(usize, Vec3, Fix)> = None;
        let mut i: usize = 0;
        while i < objects.len()
            invariant
                ray_wf(*self),
                objs_wf(objects@),
                i <= objects.len(),
                cand_view(best) == best_hit_upto(*self, objects@, i as int),
                best matches Some(t) ==> in3(t.1@, POINT_LIMIT as int) && (t.0 as int) < i
                    as int,
            decreases objects.len() - i,
        {
            let hit = objects[i].intersect(self);
            match hit {
                None => {},
                Some(p) => {
                    let diff = self.origin.sub(p);
                    let d = diff.norm();
                    if d.raw() < TOLERANCE {
                        proof {
                            assert(valid_hit(*self, objects@[i as int]) is None);
                        }
                    } else {
                        match best {
                            None => {
                                best = Some((i, p, d));
                            },
                            Some(t) => {
                                if d.raw() < t.2.raw() {
                                    best = Some((i, p, d));
                                }
                            },
                        }
                    }
                },
            }
            i = i + 1;
        }
        match best {
            None => None,
            Some(t) => {
                let (idx, p, _d) = t;
                let n = objects[idx].normal(p);
                let view = self.direction.normalize();
                let m = *objects[idx].material();
                Some(ShadeCell(p, n, view, m))
            },
        }
    }
}

} // verus!
