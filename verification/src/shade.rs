//! Phong shading: ambient, diffuse and specular contributions at a
//! shade cell, each attenuated by material reflectivity and shadowing,
//! composed with saturating channel addition.

use vstd::prelude::*;
use crate::fixed::{
    Fix, SCALE, POW_CAP, sabs, tdiv, pow_frac, pow_sat, lemma_mul_bound, lemma_tdiv_bound,
    lemma_tdiv_le, lemma_tdiv_exact, lemma_pow_sat_rel, lemma_pow_sat_range,
};
use crate::vector3d::{
    Vec3, s_sub, s_neg, s_dot, s_normalize, s_reflect, lemma_dot_bound, DOT_CAP,
};
use crate::materials::{Material, arr3, mat_wf};
use crate::ray::{ShadeCell, cell_wf};
use crate::scene::{Scene, AmbientLight, Light, scene_wf, illuminated};

verus! {

/// An output colour: three channels of eight bits each.
#[derive(Clone, Copy, PartialEq, Eq, Structural, Debug)]
pub struct Color(pub u8, pub u8, pub u8);

impl View for Color {
    type V = (int, int, int);

    open spec fn view(&self) -> (int, int, int) {
        (self.0 as int, self.1 as int, self.2 as int)
    }
}

/// The red channel.
pub fn red(c: Color) -> (r: u8)
    ensures
        r as int == c@.0,
{
    c.0
}

/// The green channel.
pub fn green(c: Color) -> (r: u8)
    ensures
        r as int == c@.1,
{
    c.1
}

/// The blue channel.
pub fn blue(c: Color) -> (r: u8)
    ensures
        r as int == c@.2,
{
    c.2
}

/// A channel value scaled and clamped into the eight-bit range.
pub open spec fn clamp255(x: int) -> int {
    if x < 0 {
        0
    } else if x > 255 {
        255
    } else {
        x
    }
}

/// A channel sum saturated at the brightest value.
pub open spec fn cap255(x: int) -> int {
    if x > 255 {
        255
    } else {
        x
    }
}

/// The same factor on every channel.
pub open spec fn dup3(x: int) -> (int, int, int) {
    (x, x, x)
}

/// A colour attenuated channelwise by fixed-point factors, each product
/// rounded down and clamped into the eight-bit range.
pub open spec fn s_adjust(c: (int, int, int), f: (int, int, int)) -> (int, int, int) {
    (
        clamp255(tdiv(f.0 * c.0, SCALE as int)),
        clamp255(tdiv(f.1 * c.1, SCALE as int)),
        clamp255(tdiv(f.2 * c.2, SCALE as int)),
    )
}

/// Channelwise saturating colour addition.
pub open spec fn s_addsat(a: (int, int, int), b: (int, int, int)) -> (int, int, int) {
    (cap255(a.0 + b.0), cap255(a.1 + b.1), cap255(a.2 + b.2))
}

/// The shading cosine: a dot product clamped below at zero.
pub open spec fn s_dot0(x: (int, int, int), y: (int, int, int)) -> int {
    let d = s_dot(x, y);
    if d < 0 {
        0
    } else {
        d
    }
}

/// The diffuse cosine of one light at a point with surface normal `n`.
pub open spec fn s_diffuse_term(l: Light, p: (int, int, int), n: (int, int, int)) -> int {
    s_dot0(s_normalize(s_sub(l.position@, p)), n)
}

/// The specular factor of one light: the light-to-point direction
/// reflected about the normal, dotted against the viewer, raised to the
/// material's shininess.
pub open spec fn s_specular_term(
    l: Light,
    p: (int, int, int),
    n: (int, int, int),
    view: (int, int, int),
    shine: nat,
) -> int {
    pow_frac(s_dot0(s_reflect(n, s_normalize(s_sub(p, l.position@))), s_neg(view)), shine)
}

/// Per-light diffuse contributions over the first `k` lights, visible
/// lights only, in light order.
pub open spec fn s_diffuse_list(
    p: (int, int, int),
    n: (int, int, int),
    scene: Scene,
    k: int,
) -> Seq<(int, int, int)>
    decreases k,
{
    if k <= 0 {
        Seq::empty()
    } else {
        let prev = s_diffuse_list(p, n, scene, k - 1);
        let l = scene.lights@[k - 1];
        if illuminated(l, p, scene.objects@) {
            prev.push(s_adjust(l.colour@, dup3(s_diffuse_term(l, p, n))))
        } else {
            prev
        }
    }
}

/// Per-light specular contributions over the first `k` lights, visible
/// lights only, in light order.
pub open spec fn s_specular_list(
    p: (int, int, int),
    n: (int, int, int),
    view: (int, int, int),
    shine: nat,
    scene: Scene,
    k: int,
) -> Seq<(int, int, int)>
    decreases k,
{
    if k <= 0 {
        Seq::empty()
    } else {
        let prev = s_specular_list(p, n, view, shine, scene, k - 1);
        let l = scene.lights@[k - 1];
        if illuminated(l, p, scene.objects@) {
            prev.push(s_adjust(l.colour@, dup3(s_specular_term(l, p, n, view, shine))))
        } else {
            prev
        }
    }
}

/// Saturating fold of attenuated contributions onto a base colour.
pub open spec fn s_fold_adjust(
    start: (int, int, int),
    list: Seq<(int, int, int)>,
    f: (int, int, int),
) -> (int, int, int)
    decreases list.len(),
{
    if list.len() == 0 {
        start
    } else {
        s_addsat(s_fold_adjust(start, list.drop_last(), f), s_adjust(list.last(), f))
    }
}

/// Saturating fold of plain contributions onto a base colour.
pub open spec fn s_fold_add(start: (int, int, int), list: Seq<(int, int, int)>) -> (int, int, int)
    decreases list.len(),
{
    if list.len() == 0 {
        start
    } else {
        s_addsat(s_fold_add(start, list.drop_last()), list.last())
    }
}

/// The local Phong colour at a cell: ambient plus attenuated diffuse
/// and specular sums.
pub open spec fn local_shade_spec(
    p: (int, int, int),
    n: (int, int, int),
    view: (int, int, int),
    m: Material,
    scene: Scene,
) -> (int, int, int) {
    let k = scene.lights@.len() as int;
    let a = s_adjust(scene.ambient_light.colour@, arr3(m.ambient));
    let b = s_fold_adjust(a, s_diffuse_list(p, n, scene, k), arr3(m.diffuse));
    s_fold_adjust(b, s_specular_list(p, n, view, m.shine as nat, scene, k), arr3(m.specular))
}

/// The full shade of a cell: the local colour with the caller's
/// additional influences saturating-added on top.
pub open spec fn shade_spec(
    p: (int, int, int),
    n: (int, int, int),
    view: (int, int, int),
    m: Material,
    scene: Scene,
    influence: Seq<(int, int, int)>,
) -> (int, int, int) {
    s_fold_add(local_shade_spec(p, n, view, m, scene), influence)
}

/// The channelwise views of a colour list.
pub open spec fn colors_view(s: Seq<Color>) -> Seq<(int, int, int)> {
    s.map_values(|c: Color| c@)
}

/// Largest factor magnitude the channel scaler accepts; every factor of
/// the pipeline — reflectivities, cosines, powers — stays far below it.
pub const FACTOR_LIMIT: i128 = 100_000_000_000_000_000_000;

/// One channel scaled by a fixed-point factor and clamped.
fn scale_channel(col: u8, f: Fix) -> (r: u8)
    requires
        f@ <= FACTOR_LIMIT as int,
    ensures
        r as int == clamp255(tdiv(f@ * col as int, SCALE as int)),
{
    if f.raw() <= 0 {
        proof {
            assert(f@ * (col as int) <= 0) by (nonlinear_arith)
                requires
                    f@ <= 0,
                    col as int >= 0,
            ;
            lemma_tdiv_bound(f@ * (col as int), SCALE as int);
        }
        0u8
    } else {
        proof {
            assert(f@ * (col as int) <= 100_000_000_000_000_000_000 * 255) by (nonlinear_arith)
                requires
                    0 <= f@ <= 100_000_000_000_000_000_000,
                    0 <= col as int <= 255,
            ;
            lemma_tdiv_bound(f@ * (col as int), SCALE as int);
        }
        let q: u128 = ((f.raw() as u128) * (col as u128)) / (SCALE as u128);
        if q > 255 {
            255u8
        } else {
            q as u8
        }
    }
}

/// Through an eight-bit channel scale, the saturated power is
/// indistinguishable from the true one: whenever the cap binds, both
/// sides of the scale already clamp at the brightest value.
pub proof fn lemma_pow_channel(x: int, n: nat, c: int)
    requires
        0 <= x,
        0 <= c <= 255,
    ensures
        clamp255(tdiv(pow_sat(x, n) * c, SCALE as int)) == clamp255(
            tdiv(pow_frac(x, n) * c, SCALE as int),
        ),
{
    lemma_pow_sat_rel(x, n);
    lemma_pow_sat_range(x, n);
    let s = SCALE as int;
    let ps = pow_sat(x, n);
    let pf = pow_frac(x, n);
    if ps != pf {
        assert(ps == POW_CAP as int && pf >= POW_CAP as int);
        if c == 0 {
            assert(ps * c == s * 0 && pf * c == s * 0) by (nonlinear_arith)
                requires
                    c == 0,
            ;
            lemma_tdiv_exact(0, s);
        } else {
            assert(ps * c == s * (256 * c)) by (nonlinear_arith)
                requires
                    ps == 256_000_000,
                    s == 1_000_000,
            ;
            lemma_tdiv_exact(256 * c, s);
            assert(0 <= ps * c && ps * c <= pf * c) by (nonlinear_arith)
                requires
                    0 <= ps <= pf,
                    c >= 0,
            ;
            lemma_tdiv_le(ps * c, pf * c, s);
            assert(tdiv(ps * c, s) >= 256);
            assert(tdiv(pf * c, s) >= 256);
        }
    }
}

/// The Phong shader: a stateless strategy whose shading function is
/// pinned to `shade_spec`.
pub struct PhongShader {}

impl PhongShader {
    /// The shader instance.
    pub fn instance() -> (r: PhongShader)
        ensures
            r == (PhongShader {  }),
    {
        PhongShader {  }
    }

    /// The shading cosine: a dot product clamped below at zero.
    pub fn dot(x: Vec3, y: Vec3) -> (r: Fix)
        requires
            sabs(x@.0 * y@.0) <= DOT_CAP as int,
            sabs(x@.1 * y@.1) <= DOT_CAP as int,
            sabs(x@.2 * y@.2) <= DOT_CAP as int,
        ensures
            r@ == s_dot0(x@, y@),
            0 <= r@,
    {
        let d = x.dot(y);
        if d.raw() < 0 {
            Fix::zero()
        } else {
            d
        }
    }

    /// The scene's base light.
    pub fn ambient_light<'a>(s: &'a Scene) -> (r: &'a AmbientLight)
        ensures
            *r == s.ambient_light,
    {
        &s.ambient_light
    }

    /// A colour attenuated channelwise by three fixed-point factors.
    pub fn adjust_intensity_piecewise(c: Color, adjust_components: [Fix; 3]) -> (r: Color)
        requires
            arr3(adjust_components).0 <= FACTOR_LIMIT as int,
            arr3(adjust_components).1 <= FACTOR_LIMIT as int,
            arr3(adjust_components).2 <= FACTOR_LIMIT as int,
        ensures
            r@ == s_adjust(c@, arr3(adjust_components)),
    {
        Color(
            scale_channel(red(c), adjust_components[0]),
            scale_channel(green(c), adjust_components[1]),
            scale_channel(blue(c), adjust_components[2]),
        )
    }

    /// A colour attenuated by one factor on every channel.
    pub fn adjust_intensity(c: Color, i: Fix) -> (r: Color)
        requires
            i@ <= FACTOR_LIMIT as int,
        ensures
            r@ == s_adjust(c@, dup3(i@)),
    {
        let adjust_components = [i, i, i];
        PhongShader::adjust_intensity_piecewise(c, adjust_components)
    }

    /// Channelwise saturating colour addition.
    pub fn add_illumination(a: Color, b: Color) -> (r: Color)
        ensures
            r@ == s_addsat(a@, b@),
    {
        let x: u16 = a.0 as u16 + b.0 as u16;
        let y: u16 = a.1 as u16 + b.1 as u16;
        let z: u16 = a.2 as u16 + b.2 as u16;
        Color(
            if x > 255 {
                255u8
            } else {
                x as u8
            },
            if y > 255 {
                255u8
            } else {
                y as u8
            },
            if z > 255 {
                255u8
            } else {
                z as u8
            },
        )
    }

    /// The visible lights' diffuse contributions at a cell, in light
    /// order.
    pub fn diffuse_at_shade_cell(shade_cell: &ShadeCell, scene: &Scene) -> (r: Vec<Color>)
        requires
            cell_wf(*shade_cell),
            scene_wf(*scene),
        ensures
            colors_view(r@) == s_diffuse_list(
                shade_cell.0@,
                shade_cell.1@,
                *scene,
                scene.lights@.len() as int,
            ),
    {
        let p = shade_cell.0;
        let n = shade_cell.1;
        let mut out: Vec<Color> = Vec::new();
        let mut i: usize = 0;
        proof {
            assert(colors_view(out@) =~= s_diffuse_list(p@, n@, *scene, 0));
        }
        while i < scene.lights.len()
            invariant
                cell_wf(*shade_cell),
                scene_wf(*scene),
                p == shade_cell.0,
                n == shade_cell.1,
                i <= scene.lights.len(),
                colors_view(out@) == s_diffuse_list(p@, n@, *scene, i as int),
            decreases scene.lights.len() - i,
        {
            let l = &scene.lights[i];
            if l.illuminates(p, &scene.objects) {
                let lp = l.position.sub(p);
                let nv = lp.normalize();
                proof {
                    lemma_dot_bound(nv@, n@, 2_000_000_000, 10_000_000_000_000);
                }
                let d = PhongShader::dot(nv, n);
                let col = PhongShader::adjust_intensity(l.colour, d);
                out.push(col);
                proof {
                    assert(colors_view(out@) =~= s_diffuse_list(p@, n@, *scene, i + 1));
                }
            }
            i = i + 1;
        }
        out
    }

    /// The visible lights' specular contributions at a cell, in light
    /// order.
    pub fn specular_at_shade_cell(shade_cell: &ShadeCell, scene: &Scene) -> (r: Vec<Color>)
        requires
            cell_wf(*shade_cell),
            scene_wf(*scene),
        ensures
            colors_view(r@) == s_specular_list(
                shade_cell.0@,
                shade_cell.1@,
                shade_cell.2@,
                shade_cell.3.shine as nat,
                *scene,
                scene.lights@.len() as int,
            ),
    {
        let p = shade_cell.0;
        let n = shade_cell.1;
        let v = shade_cell.2;
        let shininess = shade_cell.3.shine();
        let mut out: Vec<Color> = Vec::new();
        let mut i: usize = 0;
        proof {
            assert(colors_view(out@) =~= s_specular_list(
                p@,
                n@,
                v@,
                shininess as nat,
                *scene,
                0,
            ));
        }
        while i < scene.lights.len()
            invariant
                cell_wf(*shade_cell),
                scene_wf(*scene),
                p == shade_cell.0,
                n == shade_cell.1,
                v == shade_cell.2,
                shininess == shade_cell.3.shine,
                i <= scene.lights.len(),
                colors_view(out@) == s_specular_list(
                    p@,
                    n@,
                    v@,
                    shininess as nat,
                    *scene,
                    i as int,
                ),
            decreases scene.lights.len() - i,
        {
            let l = &scene.lights[i];
            if l.illuminates(p, &scene.objects) {
                let from = p.sub(l.position).normalize();
                let reflection = n.reflect(from);
                let toward_viewer = v.neg();
                proof {
                    lemma_mul_bound(
                        reflection@.0,
                        2_000_000_000_000_000_000_000_000,
                        toward_viewer@.0,
                        2_000_000_000,
                    );
                    lemma_mul_bound(
                        reflection@.1,
                        2_000_000_000_000_000_000_000_000,
                        toward_viewer@.1,
                        2_000_000_000,
                    );
                    lemma_mul_bound(
                        reflection@.2,
                        2_000_000_000_000_000_000_000_000,
                        toward_viewer@.2,
                        2_000_000_000,
                    );
                }
                let base = PhongShader::dot(reflection, toward_viewer);
                let powed = base.powi(shininess);
                let col = PhongShader::adjust_intensity(l.colour, powed);
                proof {
                    lemma_pow_channel(base@, shininess as nat, l.colour@.0);
                    lemma_pow_channel(base@, shininess as nat, l.colour@.1);
                    lemma_pow_channel(base@, shininess as nat, l.colour@.2);
                    assert(col@ == s_adjust(
                        l.colour@,
                        dup3(s_specular_term(*l, p@, n@, v@, shininess as nat)),
                    ));
                }
                out.push(col);
                proof {
                    assert(colors_view(out@) =~= s_specular_list(
                        p@,
                        n@,
                        v@,
                        shininess as nat,
                        *scene,
                        i + 1,
                    ));
                }
            }
            i = i + 1;
        }
        out
    }

    /// The local Phong colour at a cell: ambient plus attenuated diffuse
    /// and specular sums.
    pub fn local_shade(shade_cell: &ShadeCell, scene: &Scene) -> (r: Color)
        requires
            cell_wf(*shade_cell),
            scene_wf(*scene),
        ensures
            r@ == local_shade_spec(shade_cell.0@, shade_cell.1@, shade_cell.2@, shade_cell.3, *scene),
    {
        let m = shade_cell.3;
        let ambience = m.ambient_refletivity();
        let diffusivity = m.diffusive_reflectivity();
        let specularity = m.specular_reflectiviy();
        let a = PhongShader::adjust_intensity_piecewise(
            PhongShader::ambient_light(scene).colour,
            ambience,
        );
        let diffuse = PhongShader::diffuse_at_shade_cell(shade_cell, scene);
        let ghost dlist = colors_view(diffuse@);
        let mut acc = a;
        let mut i: usize = 0;
        proof {
            assert(dlist.take(0int) =~= Seq::<(int, int, int)>::empty());
        }
        while i < diffuse.len()
            invariant
                i <= diffuse.len(),
                dlist == colors_view(diffuse@),
                mat_wf(m),
                acc@ == s_fold_adjust(a@, dlist.take(i as int), arr3(m.diffuse)),
                arr3(m.diffuse) == arr3(diffusivity),
            decreases diffuse.len() - i,
        {
            let c = diffuse[i];
            let adjusted = PhongShader::adjust_intensity_piecewise(c, diffusivity);
            proof {
                assert(dlist.take(i + 1).drop_last() =~= dlist.take(i as int));
                assert(dlist.take(i + 1).last() == c@);
            }
            acc = PhongShader::add_illumination(acc, adjusted);
            i = i + 1;
        }
        proof {
            assert(dlist.take(diffuse.len() as int) =~= dlist);
        }
        let specular = PhongShader::specular_at_shade_cell(shade_cell, scene);
        let ghost slist = colors_view(specular@);
        let b = acc;
        let mut j: usize = 0;
        proof {
            assert(slist.take(0int) =~= Seq::<(int, int, int)>::empty());
        }
        while j < specular.len()
            invariant
                j <= specular.len(),
                slist == colors_view(specular@),
                mat_wf(m),
                acc@ == s_fold_adjust(b@, slist.take(j as int), arr3(m.specular)),
                arr3(m.specular) == arr3(specularity),
            decreases specular.len() - j,
        {
            let c = specular[j];
            let adjusted = PhongShader::adjust_intensity_piecewise(c, specularity);
            proof {
                assert(slist.take(j + 1).drop_last() =~= slist.take(j as int));
                assert(slist.take(j + 1).last() == c@);
            }
            acc = PhongShader::add_illumination(acc, adjusted);
            j = j + 1;
        }
        proof {
            assert(slist.take(specular.len() as int) =~= slist);
        }
        acc
    }

    /// The full shade of a cell: the local colour with the caller's
    /// additional influences saturating-added on top.
    pub fn shade(shade_cell: &ShadeCell, scene: &Scene, influence: Vec<Color>) -> (r: Color)
        requires
            cell_wf(*shade_cell),
            scene_wf(*scene),
        ensures
            r@ == shade_spec(
                shade_cell.0@,
                shade_cell.1@,
                shade_cell.2@,
                shade_cell.3,
                *scene,
                colors_view(influence@),
            ),
    {
        let base = PhongShader::local_shade(shade_cell, scene);
        let ghost ilist = colors_view(influence@);
        let mut acc = base;
        let mut i: usize = 0;
        proof {
            assert(ilist.take(0int) =~= Seq::<(int, int, int)>::empty());
        }
        while i < influence.len()
            invariant
                i <= influence.len(),
                ilist == colors_view(influence@),
                acc@ == s_fold_add(base@, ilist.take(i as int)),
            decreases influence.len() - i,
        {
            let c = influence[i];
            proof {
                assert(ilist.take(i + 1).drop_last() =~= ilist.take(i as int));
                assert(ilist.take(i + 1).last() == c@);
            }
            acc = PhongShader::add_illumination(acc, c);
            i = i + 1;
        }
        proof {
            assert(ilist.take(influence.len() as int) =~= ilist);
        }
        acc
    }
}

} // verus!
