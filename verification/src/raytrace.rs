//! The recursive ray tracer: local Phong shading plus one mirror-scaled
//! reflected ray per hit, to a strict depth bound.

use vstd::prelude::*;
use crate::fixed::SCALE;
use crate::vector3d::{in3, s_normalize, s_reflect, lemma_v3_roundtrip};
use crate::materials::{Material, arr3};
use crate::ray::{
    Ray, Shadable, ShadeCell, ray_of, ray_wf, best_hit, lemma_best_hit_index, RAY_LIMIT,
};
use crate::scene::{Scene, scene_wf};
use crate::shade::{
    Color, PhongShader, shade_spec, local_shade_spec, colors_view, s_adjust, s_addsat,
    s_fold_adjust, s_fold_add,
};
use vstd::arithmetic::div_mod::lemma_div_of0;

verus! {

/// The channelwise view of an optional colour.
pub open spec fn opt_color(o: Option<Color>) -> Option<(int, int, int)> {
    match o {
        Option::None => Option::None,
        Option::Some(c) => Option::Some(c@),
    }
}

/// The colour seen along a ray with `depth` reflection steps left: no
/// contribution when the budget is spent or the ray escapes; otherwise
/// the local Phong shade, plus the reflected ray's colour scaled by the
/// mirror reflectivity when the reflected direction is representable.
pub open spec fn trace_depth_spec(depth: nat, ray: Ray, scene: Scene) -> Option<(int, int, int)>
    decreases depth,
{
    if depth < 1 {
        Option::None
    } else {
        match best_hit(ray, scene.objects@) {
            Option::None => Option::None,
            Option::Some(b) => {
                let n = scene.objects@[b.0].normal_spec(b.1);
                let view = s_normalize(ray.direction@);
                let m = scene.objects@[b.0].material_spec();
                let rdir = s_reflect(n, view);
                let influence = if in3(rdir, RAY_LIMIT as int) {
                    match trace_depth_spec((depth - 1) as nat, ray_of(b.1, rdir), scene) {
                        Option::None => Seq::<(int, int, int)>::empty(),
                        Option::Some(col) => Seq::<(int, int, int)>::empty().push(
                            s_adjust(col, arr3(m.reflectivity)),
                        ),
                    }
                } else {
                    Seq::<(int, int, int)>::empty()
                };
                Option::Some(shade_spec(b.1, n, view, m, scene, influence))
            },
        }
    }
}

/// The recursive ray tracer, parameterized by its shading strategy.
pub struct Raytracer<S> {
    pub shader: S,
}

impl<S> Raytracer<S> {
    /// A tracer from a shading strategy.
    pub fn from_shader(s: S) -> (r: Raytracer<S>)
        ensures
            r == (Raytracer { shader: s }),
    {
        Raytracer { shader: s }
    }
}

impl Raytracer<PhongShader> {
    /// The colour seen along `ray`, following at most `depth` reflection
    /// steps. Re-running with identical inputs yields the identical
    /// result: the return value is a function of the arguments alone.
    pub fn trace_to_depth(&self, depth: u8, ray: &Ray, scene: &Scene) -> (r: Option<Color>)
        requires
            ray_wf(*ray),
            scene_wf(*scene),
        ensures
            opt_color(r) == trace_depth_spec(depth as nat, *ray, *scene),
        decreases depth,
    {
        if depth < 1 {
            return None;
        }
        let strike = ray.trace(&scene.objects);
        match strike {
            None => None,
            Some(cell) => {
                proof {
                    lemma_best_hit_index(*ray, scene.objects@, scene.objects@.len() as int);
                }
                let reflected = cell.1.reflect(cell.2);
                let mut influence: Vec<Color> = Vec::new();
                if reflected.within(RAY_LIMIT) {
                    let next_ray = Ray::new(cell.0, reflected);
                    proof {
                        lemma_v3_roundtrip(cell.0);
                        lemma_v3_roundtrip(reflected);
                        assert(next_ray == ray_of(cell.0@, reflected@));
                    }
                    match self.trace_to_depth(depth - 1, &next_ray, scene) {
                        None => {},
                        Some(col) => {
                            let scaled = PhongShader::adjust_intensity_piecewise(
                                col,
                                cell.3.reflectivity(),
                            );
                            influence.push(scaled);
                        },
                    }
                }
                proof {
                    let b = best_hit(*ray, scene.objects@)->Some_0;
                    let m = scene.objects@[b.0].material_spec();
                    let rdir = s_reflect(
                        scene.objects@[b.0].normal_spec(b.1),
                        s_normalize(ray.direction@),
                    );
                    if in3(rdir, RAY_LIMIT as int) {
                        match trace_depth_spec((depth - 1) as nat, ray_of(b.1, rdir), *scene) {
                            Option::None => {
                                assert(colors_view(influence@) =~= Seq::<(int, int, int)>::empty());
                            },
                            Option::Some(col) => {
                                assert(colors_view(influence@) =~= Seq::<(
                                    int,
                                    int,
                                    int,
                                )>::empty().push(s_adjust(col, arr3(m.reflectivity))));
                            },
                        }
                    } else {
                        assert(colors_view(influence@) =~= Seq::<(int, int, int)>::empty());
                    }
                }
                Some(PhongShader::shade(&cell, scene, influence))
            },
        }
    }
}

/// Recursion floor: with no depth budget the tracer contributes nothing,
/// whatever the ray and the scene hold.
pub proof fn lemma_depth_zero(ray: Ray, scene: Scene)
    ensures
        trace_depth_spec(0, ray, scene) is None,
{
}

/// All three channels of a colour triple lie in the eight-bit range.
pub open spec fn chan_ok(t: (int, int, int)) -> bool {
    0 <= t.0 <= 255 && 0 <= t.1 <= 255 && 0 <= t.2 <= 255
}

/// Attenuation always lands in the eight-bit range.
proof fn lemma_adjust_ok(c: (int, int, int), f: (int, int, int))
    ensures
        chan_ok(s_adjust(c, f)),
{
}

/// Saturating addition keeps the eight-bit range.
proof fn lemma_addsat_ok(a: (int, int, int), b: (int, int, int))
    requires
        chan_ok(a),
        chan_ok(b),
    ensures
        chan_ok(s_addsat(a, b)),
{
}

/// The attenuated fold keeps the eight-bit range.
proof fn lemma_fold_adjust_ok(start: (int, int, int), list: Seq<(int, int, int)>, f: (int, int, int))
    requires
        chan_ok(start),
    ensures
        chan_ok(s_fold_adjust(start, list, f)),
    decreases list.len(),
{
    if list.len() > 0 {
        lemma_fold_adjust_ok(start, list.drop_last(), f);
        lemma_adjust_ok(list.last(), f);
        lemma_addsat_ok(s_fold_adjust(start, list.drop_last(), f), s_adjust(list.last(), f));
    }
}

/// The local Phong shade lands in the eight-bit range.
proof fn lemma_local_shade_ok(
    p: (int, int, int),
    n: (int, int, int),
    view: (int, int, int),
    m: Material,
    scene: Scene,
)
    ensures
        chan_ok(local_shade_spec(p, n, view, m, scene)),
{
    let k = scene.lights@.len() as int;
    let a = s_adjust(scene.ambient_light.colour@, arr3(m.ambient));
    lemma_adjust_ok(scene.ambient_light.colour@, arr3(m.ambient));
    lemma_fold_adjust_ok(a, crate::shade::s_diffuse_list(p, n, scene, k), arr3(m.diffuse));
    lemma_fold_adjust_ok(
        s_fold_adjust(a, crate::shade::s_diffuse_list(p, n, scene, k), arr3(m.diffuse)),
        crate::shade::s_specular_list(p, n, view, m.shine as nat, scene, k),
        arr3(m.specular),
    );
}

/// Scaling a colour by a zero reflectivity yields black.
proof fn lemma_adjust_zero(c: (int, int, int))
    ensures
        s_adjust(c, (0int, 0int, 0int)) == (0int, 0int, 0int),
{
    lemma_div_of0(SCALE as int);
    assert(0 * c.0 == 0) by (nonlinear_arith);
    assert(0 * c.1 == 0) by (nonlinear_arith);
    assert(0 * c.2 == 0) by (nonlinear_arith);
}

/// Adding black changes nothing within the eight-bit range.
proof fn lemma_addsat_zero(a: (int, int, int))
    requires
        chan_ok(a),
    ensures
        s_addsat(a, (0int, 0int, 0int)) == a,
{
}

/// A scene none of whose materials mirror anything.
pub open spec fn no_mirror(scene: Scene) -> bool {
    forall|i: int|
        0 <= i < scene.objects@.len() ==> arr3(
            (#[trigger] scene.objects@[i]).material_spec().reflectivity,
        ) == (0int, 0int, 0int)
}

/// With every mirror reflectivity zero, the depth budget is irrelevant:
/// any two positive depths give the same colour, because the reflected
/// contribution is always scaled to black before it is added.
pub proof fn lemma_mirrorless_depth_irrelevant(d1: nat, d2: nat, ray: Ray, scene: Scene)
    requires
        no_mirror(scene),
        d1 >= 1,
        d2 >= 1,
    ensures
        trace_depth_spec(d1, ray, scene) == trace_depth_spec(d2, ray, scene),
{
    lemma_mirrorless_eq_one(d1, ray, scene);
    lemma_mirrorless_eq_one(d2, ray, scene);
}

/// With every mirror reflectivity zero, any positive depth behaves as
/// depth one.
proof fn lemma_mirrorless_eq_one(d: nat, ray: Ray, scene: Scene)
    requires
        no_mirror(scene),
        d >= 1,
    ensures
        trace_depth_spec(d, ray, scene) == trace_depth_spec(1, ray, scene),
    decreases d,
{
    match best_hit(ray, scene.objects@) {
        Option::None => {
            assert(trace_depth_spec(d, ray, scene) is None);
            assert(trace_depth_spec(1, ray, scene) is None);
        },
        Option::Some(b) => {
            lemma_best_hit_index(ray, scene.objects@, scene.objects@.len() as int);
            let n = scene.objects@[b.0].normal_spec(b.1);
            let view = s_normalize(ray.direction@);
            let m = scene.objects@[b.0].material_spec();
            let rdir = s_reflect(n, view);
            let local = local_shade_spec(b.1, n, view, m, scene);
            lemma_local_shade_ok(b.1, n, view, m, scene);
            let empty = Seq::<(int, int, int)>::empty();
            assert(s_fold_add(local, empty) == local);
            assert(shade_spec(b.1, n, view, m, scene, empty) == local);
            assert(arr3(m.reflectivity) == (0int, 0int, 0int));
            let zeroed = empty.push((0int, 0int, 0int));
            assert(zeroed.drop_last() =~= empty);
            assert(zeroed.last() == (0int, 0int, 0int));
            lemma_addsat_zero(local);
            assert(s_fold_add(local, zeroed) == local);
            assert(shade_spec(b.1, n, view, m, scene, zeroed) == local);
            if in3(rdir, RAY_LIMIT as int) {
                assert(trace_depth_spec(0, ray_of(b.1, rdir), scene) is None);
                assert(trace_depth_spec(1, ray, scene) == Option::Some(local));
                match trace_depth_spec((d - 1) as nat, ray_of(b.1, rdir), scene) {
                    Option::None => {
                        assert(trace_depth_spec(d, ray, scene) == Option::Some(local));
                    },
                    Option::Some(col) => {
                        lemma_adjust_zero(col);
                        assert(s_adjust(col, arr3(m.reflectivity)) == (0int, 0int, 0int));
                        assert(trace_depth_spec(d, ray, scene) == Option::Some(
                            shade_spec(b.1, n, view, m, scene, zeroed),
                        ));
                    },
                }
            } else {
                assert(trace_depth_spec(1, ray, scene) == Option::Some(local));
                assert(trace_depth_spec(d, ray, scene) == Option::Some(local));
            }
        },
    }
}

} // verus!
