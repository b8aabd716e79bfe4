//! Geometric primitives: spheres and planes, with their intersection
//! arithmetic and surface normals.
//!
//! The sphere quadratic uses `c = |origin - centre|^2 - radius` with the
//! radius unsquared, and selects its root by comparing `-b` against the
//! discriminant's square root; both choices are part of this library's
//! documented behaviour and are carried into the contracts as they stand.

use vstd::prelude::*;
use crate::fixed::{
    Fix, SCALE, sabs, tdiv, fmul, fdiv, fsqrt,
    lemma_mul_bound, lemma_tdiv_bound, lemma_sqrt_cap,
};
use crate::vector3d::{
    Vec3, in1, in3, s_add, s_sub, s_scale, s_dot, s_normalize, s_cross,
    lemma_dot_bound, lemma_fmul_bound, lemma_dot_self_nonneg, lemma_fmul_sq, lemma_fmul_lower,
    UNIT_LIMIT,
};
use crate::materials::{Material, mat_wf};
use crate::ray::{Ray, Shadable, COORD_LIMIT, POINT_LIMIT};
use vstd::arithmetic::div_mod::{
    lemma_div_pos_is_pos, lemma_div_is_ordered, lemma_div_multiples_vanish,
    lemma_fundamental_div_mod, lemma_mod_division_less_than_divisor,
};

verus! {

/// A sphere: centre, radius, material.
pub struct Sphere {
    pub centre: Vec3,
    pub radius: Fix,
    pub material: Material,
}

/// A sphere whose data the engine accepts.
pub open spec fn sphere_inv(s: Sphere) -> bool {
    in3(s.centre@, COORD_LIMIT as int) && in1(s.radius@, COORD_LIMIT as int) && mat_wf(s.material)
}

/// The sphere intersection function over plain integers: the quadratic
/// `a t^2 + 2 b t + c = 0` with `c = |origin - centre|^2 - radius`, the
/// root picked by comparing `-b` with the discriminant root, accepted
/// only forward of the origin and within the representable region.
/// A direction whose self dot product truncates to zero yields no hit.
pub open spec fn sphere_hit(s: Sphere, ray: Ray) -> Option<(int, int, int)> {
    let d = ray.direction@;
    let oc = s_sub(ray.origin@, s.centre@);
    let a = s_dot(d, d);
    let b = s_dot(d, oc);
    let c = s_dot(oc, oc) - s.radius@;
    if a == 0 {
        Option::None
    } else {
        let disc = fmul(b, b) - fmul(a, c);
        if disc < 0 {
            Option::None
        } else {
            let sq = fsqrt(disc);
            let t = if -b > sq {
                fdiv(-b - sq, a)
            } else {
                fdiv(-b + sq, a)
            };
            if t <= 0 {
                Option::None
            } else {
                let p = s_add(ray.origin@, s_scale(t, d));
                if in3(p, POINT_LIMIT as int) {
                    Option::Some(p)
                } else {
                    Option::None
                }
            }
        }
    }
}

impl Sphere {
    /// A sphere with the plain material, for scenes where looks do not
    /// matter.
    pub fn simple(c: Vec3, r: Fix) -> (s: Sphere)
        ensures
            s.centre == c,
            s.radius == r,
            s.material == crate::materials::plain_material(),
    {
        Sphere::new(c, r, Material::plain())
    }

    /// A sphere from centre, radius and material.
    pub fn new(c: Vec3, r: Fix, m: Material) -> (s: Sphere)
        ensures
            s.centre == c,
            s.radius == r,
            s.material == m,
    {
        Sphere { centre: c, radius: r, material: m }
    }
}

impl Shadable for Sphere {
    open spec fn inv(&self) -> bool {
        sphere_inv(*self)
    }

    open spec fn hit_spec(&self, ray: Ray) -> Option<(int, int, int)> {
        sphere_hit(*self, ray)
    }

    open spec fn normal_spec(&self, p: (int, int, int)) -> (int, int, int) {
        s_normalize(s_sub(p, self.centre@))
    }

    open spec fn material_spec(&self) -> Material {
        self.material
    }

    fn intersect(&self, ray: &Ray) -> (r: Option<Vec3>) {
        let dir = ray.direction;
        let dist_origin = ray.origin.sub(self.centre);
        proof {
            lemma_dot_bound(dir@, dir@, 200_000_000_000, 200_000_000_000);
            lemma_dot_bound(dir@, dist_origin@, 200_000_000_000, 300_000_000_000);
            lemma_dot_bound(dist_origin@, dist_origin@, 300_000_000_000, 300_000_000_000);
        }
        let a = dir.dot(dir);
        let b = dir.dot(dist_origin);
        let c = dist_origin.dot(dist_origin).sub(self.radius);
        if a.raw() == 0 {
            return None;
        }
        proof {
            lemma_mul_bound(b@, 180_000_000_000_000_000, b@, 180_000_000_000_000_000);
            lemma_mul_bound(a@, 120_000_000_000_000_000, c@, 300_000_000_000_000_000);
            lemma_fmul_bound(b@, b@, 32_400_000_000_000_000_000_000_000_000_000_000);
            lemma_fmul_bound(a@, c@, 36_000_000_000_000_000_000_000_000_000_000_000);
        }
        let discriminant = b.mul(b).sub(a.mul(c));
        if discriminant.raw() >= 0 {
            proof {
                assert((discriminant@ * (SCALE as int)) < 300_000_000_000_000_001
                    * 300_000_000_000_000_001) by (nonlinear_arith)
                    requires
                        0 <= discriminant@ <= 70_000_000_000_000_000_000_000_000_000,
                        SCALE as int == 1_000_000,
                ;
                lemma_sqrt_cap(
                    (discriminant@ * (SCALE as int)) as nat,
                    300_000_000_000_000_000nat,
                );
            }
            let sq = discriminant.sqrt();
            let nb = b.neg();
            let t = if nb.raw() > sq.raw() {
                nb.sub(sq).div(a)
            } else {
                nb.add(sq).div(a)
            };
            if t.raw() > 0 {
                proof {
                    lemma_mul_bound(t@, 480_000_000_000_000_000_000_000, dir@.0, 200_000_000_000);
                    lemma_mul_bound(t@, 480_000_000_000_000_000_000_000, dir@.1, 200_000_000_000);
                    lemma_mul_bound(t@, 480_000_000_000_000_000_000_000, dir@.2, 200_000_000_000);
                    lemma_fmul_bound(t@, dir@.0, 96_000_000_000_000_000_000_000_000_000_000_000);
                    lemma_fmul_bound(t@, dir@.1, 96_000_000_000_000_000_000_000_000_000_000_000);
                    lemma_fmul_bound(t@, dir@.2, 96_000_000_000_000_000_000_000_000_000_000_000);
                }
                let p = ray.origin.add(dir.scale(t));
                if p.within(POINT_LIMIT) {
                    Some(p)
                } else {
                    None
                }
            } else {
                None
            }
        } else {
            None
        }
    }

    fn normal(&self, v: Vec3) -> (r: Vec3) {
        let w = v.sub(self.centre);
        w.normalize()
    }

    fn material(&self) -> (r: &Material) {
        &self.material
    }
}

/// A plane through the origin of its frame, spanned by two stored unit
/// directions whose cross product is its normal.
pub struct Plane {
    pub d1: Vec3,
    pub d2: Vec3,
    pub material: Material,
}

/// A plane whose data the engine accepts.
pub open spec fn plane_inv(p: Plane) -> bool {
    in3(p.d1@, UNIT_LIMIT as int) && in3(p.d2@, UNIT_LIMIT as int) && mat_wf(p.material)
}

/// The plane's constant normal: the cross product of its spanning
/// directions.
pub open spec fn plane_normal(p: Plane) -> (int, int, int) {
    s_cross(p.d1@, p.d2@)
}

/// The plane intersection function over plain integers: solve
/// `t = -(origin . n) / (direction . n)`, accept only `t > 0` and a
/// representable point. A direction orthogonal to the normal (a zero
/// denominator) yields no hit.
pub open spec fn plane_hit(p: Plane, ray: Ray) -> Option<(int, int, int)> {
    let n = plane_normal(p);
    let dn = s_dot(ray.direction@, n);
    if dn == 0 {
        Option::None
    } else {
        let t = fdiv(-s_dot(ray.origin@, n), dn);
        if t <= 0 {
            Option::None
        } else {
            let pt = s_add(ray.origin@, s_scale(t, ray.direction@));
            if in3(pt, POINT_LIMIT as int) {
                Option::Some(pt)
            } else {
                Option::None
            }
        }
    }
}

impl Plane {
    /// A plane from two spanning directions, which are normalized and
    /// stored. Degenerate spans — a direction of no length, or two
    /// parallel directions — are construction errors the caller must
    /// rule out.
    pub fn new(direction1: Vec3, direction2: Vec3, mat: Material) -> (p: Plane)
        requires
            in3(direction1@, COORD_LIMIT as int),
            in3(direction2@, COORD_LIMIT as int),
            s_dot(direction1@, direction1@) != 0,
            s_dot(direction2@, direction2@) != 0,
            s_cross(s_normalize(direction1@), s_normalize(direction2@)) != (0int, 0int, 0int),
            mat_wf(mat),
        ensures
            p.d1@ == s_normalize(direction1@),
            p.d2@ == s_normalize(direction2@),
            p.material == mat,
            p.inv(),
            plane_normal(p) != (0int, 0int, 0int),
    {
        Plane { d1: direction1.normalize(), d2: direction2.normalize(), material: mat }
    }
}

impl Shadable for Plane {
    open spec fn inv(&self) -> bool {
        plane_inv(*self)
    }

    open spec fn hit_spec(&self, ray: Ray) -> Option<(int, int, int)> {
        plane_hit(*self, ray)
    }

    open spec fn normal_spec(&self, p: (int, int, int)) -> (int, int, int) {
        plane_normal(*self)
    }

    open spec fn material_spec(&self) -> Material {
        self.material
    }

    fn intersect(&self, ray: &Ray) -> (r: Option<Vec3>) {
        let n = self.d1.cross(self.d2);
        proof {
            lemma_dot_bound(ray.direction@, n@, 200_000_000_000, 10_000_000_000_000);
            lemma_dot_bound(ray.origin@, n@, 200_000_000_000, 10_000_000_000_000);
        }
        let dn = ray.direction.dot(n);
        if dn.raw() == 0 {
            return None;
        }
        let on = ray.origin.dot(n);
        let t = on.neg().div(dn);
        if t.raw() > 0 {
            proof {
                lemma_mul_bound(
                    t@,
                    6_000_000_000_000_000_000_000_000,
                    ray.direction@.0,
                    200_000_000_000,
                );
                lemma_mul_bound(
                    t@,
                    6_000_000_000_000_000_000_000_000,
                    ray.direction@.1,
                    200_000_000_000,
                );
                lemma_mul_bound(
                    t@,
                    6_000_000_000_000_000_000_000_000,
                    ray.direction@.2,
                    200_000_000_000,
                );
                lemma_fmul_bound(
                    t@,
                    ray.direction@.0,
                    1_200_000_000_000_000_000_000_000_000_000_000_000,
                );
                lemma_fmul_bound(
                    t@,
                    ray.direction@.1,
                    1_200_000_000_000_000_000_000_000_000_000_000_000,
                );
                lemma_fmul_bound(
                    t@,
                    ray.direction@.2,
                    1_200_000_000_000_000_000_000_000_000_000_000_000,
                );
            }
            let p = ray.origin.add(ray.direction.scale(t));
            if p.within(POINT_LIMIT) {
                Some(p)
            } else {
                None
            }
        } else {
            None
        }
    }

    fn normal(&self, v: Vec3) -> (r: Vec3) {
        self.d1.cross(self.d2)
    }

    fn material(&self) -> (r: &Material) {
        &self.material
    }
}

/// The closed set of scene objects, dispatched by match.
pub enum Shape {
    Sphere(Sphere),
    Plane(Plane),
}

impl Shadable for Shape {
    open spec fn inv(&self) -> bool {
        match self {
            Shape::Sphere(s) => s.inv(),
            Shape::Plane(p) => p.inv(),
        }
    }

    open spec fn hit_spec(&self, ray: Ray) -> Option<(int, int, int)> {
        match self {
            Shape::Sphere(s) => s.hit_spec(ray),
            Shape::Plane(p) => p.hit_spec(ray),
        }
    }

    open spec fn normal_spec(&self, p: (int, int, int)) -> (int, int, int) {
        match self {
            Shape::Sphere(s) => s.normal_spec(p),
            Shape::Plane(pl) => pl.normal_spec(p),
        }
    }

    open spec fn material_spec(&self) -> Material {
        match self {
            Shape::Sphere(s) => s.material_spec(),
            Shape::Plane(p) => p.material_spec(),
        }
    }

    fn intersect(&self, ray: &Ray) -> (r: Option<Vec3>) {
        match self {
            Shape::Sphere(s) => s.intersect(ray),
            Shape::Plane(p) => p.intersect(ray),
        }
    }

    fn normal(&self, v: Vec3) -> (r: Vec3) {
        match self {
            Shape::Sphere(s) => s.normal(v),
            Shape::Plane(p) => p.normal(v),
        }
    }

    fn material(&self) -> (r: &Material) {
        match self {
            Shape::Sphere(s) => s.material(),
            Shape::Plane(p) => p.material(),
        }
    }
}

/// One piece of the aimed-at-centre property that holds exactly: a ray
/// whose direction points exactly at the sphere's centre never fails
/// the discriminant test, for any nonnegative radius. Such a ray can
/// miss only through a degenerate direction, a non-forward root, or a
/// hit outside the representable region — never through a negative
/// discriminant.
pub proof fn lemma_aimed_at_centre_discriminant(s: Sphere, ray: Ray)
    requires
        ray.direction@ == s_sub(s.centre@, ray.origin@),
        s.radius@ >= 0,
    ensures
        ({
            let d = ray.direction@;
            let oc = s_sub(ray.origin@, s.centre@);
            fmul(s_dot(d, oc), s_dot(d, oc)) - fmul(s_dot(d, d), s_dot(oc, oc) - s.radius@) >= 0
        }),
{
    let d = ray.direction@;
    let oc = s_sub(ray.origin@, s.centre@);
    let a = s_dot(d, d);
    let b = s_dot(d, oc);
    let c = s_dot(oc, oc) - s.radius@;
    lemma_dot_self_nonneg(d);
    lemma_fmul_negated(d.0);
    lemma_fmul_negated(d.1);
    lemma_fmul_negated(d.2);
    assert(oc.0 == -d.0 && oc.1 == -d.1 && oc.2 == -d.2);
    assert(b == -a);
    assert(s_dot(oc, oc) == a);
    assert(fmul(b, b) == fmul(a, a)) by {
        assert(b * b == a * a) by (nonlinear_arith)
            requires
                b == -a,
        ;
    }
    if a - s.radius@ >= 0 {
        assert(a * (a - s.radius@) <= a * a) by (nonlinear_arith)
            requires
                a >= 0,
                s.radius@ >= 0,
        ;
        lemma_tdiv_bound(a * c, SCALE as int);
        lemma_tdiv_bound(a * a, SCALE as int);
        crate::fixed::lemma_tdiv_le(a * c, a * a, SCALE as int);
    } else {
        assert(a * (a - s.radius@) <= 0) by (nonlinear_arith)
            requires
                a >= 0,
                a - s.radius@ < 0,
        ;
        lemma_tdiv_bound(a * c, SCALE as int);
        lemma_tdiv_bound(a * a, SCALE as int);
        assert(fmul(a, c) <= 0);
        assert(fmul(a, a) >= 0);
    }
}

/// The other piece of the aimed-at-centre property: a ray whose
/// direction points exactly at the sphere's centre, has at least unit
/// length, and starts far enough outside the surface is guaranteed to
/// strike. The slack demanded of `q * (q - radius)` — with `q` the
/// quantized squared direction length — absorbs the rounding of the
/// discriminant's square root, so the selected root stays strictly
/// forward of the origin and the hit point stays representable.
pub proof fn lemma_aimed_at_centre_strikes(s: Sphere, ray: Ray)
    requires
        ray.direction@ == s_sub(s.centre@, ray.origin@),
        in3(ray.origin@, COORD_LIMIT as int),
        in3(s.centre@, COORD_LIMIT as int),
        0 <= s.radius@,
        SCALE as int <= s_dot(ray.direction@, ray.direction@),
        s_dot(ray.direction@, ray.direction@) * (s_dot(ray.direction@, ray.direction@)
            - s.radius@) - (SCALE as int) >= 2 * s_dot(ray.direction@, ray.direction@) * ((s_dot(
            ray.direction@,
            ray.direction@,
        ) / (SCALE as int)) + 1),
    ensures
        sphere_hit(s, ray) is Some,
{
    let sc = SCALE as int;
    let d = ray.direction@;
    let oc = s_sub(ray.origin@, s.centre@);
    let q = s_dot(d, d);
    let r = s.radius@;
    lemma_fmul_negated(d.0);
    lemma_fmul_negated(d.1);
    lemma_fmul_negated(d.2);
    assert(oc.0 == -d.0 && oc.1 == -d.1 && oc.2 == -d.2);
    let b = s_dot(d, oc);
    assert(b == -q);
    assert(s_dot(oc, oc) == q);
    let cc = q - r;
    assert(fmul(b, b) == fmul(q, q)) by {
        assert(b * b == q * q) by (nonlinear_arith)
            requires
                b == -q,
        ;
    }
    let disc = fmul(b, b) - fmul(q, cc);
    lemma_aimed_at_centre_discriminant(s, ray);
    assert(disc >= 0);
    // The quantized discriminant sits strictly below q^2 - x.
    let x = q * cc - sc;
    assert(x >= 2 * q * ((q / sc) + 1));
    assert(q / sc >= 1) by {
        lemma_div_is_ordered(sc, q, sc);
        lemma_div_by_self_one(sc);
    }
    assert(x >= 4 * q) by (nonlinear_arith)
        requires
            x >= 2 * q * ((q / sc) + 1),
            q / sc >= 1,
            q >= 1,
    ;
    assert(cc >= 0) by (nonlinear_arith)
        requires
            q * cc >= x + sc,
            x >= 4 * q,
            q >= 1,
            sc > 0,
    ;
    lemma_fmul_sq(q);
    lemma_fmul_lower(q, cc);
    assert(disc * sc < q * q - x) by (nonlinear_arith)
        requires
            disc == fmul(q, q) - fmul(q, cc),
            fmul(q, q) * sc <= q * q,
            fmul(q, cc) * sc > q * cc - sc,
            x == q * cc - sc,
            sc > 0,
    ;
    // The square root is therefore at least k + 1 below q.
    let k = x / (2 * q);
    assert(2 * q > 0);
    assert(0 <= x);
    lemma_div_pos_is_pos(x, 2 * q);
    assert(2 * q * k <= x) by {
        lemma_fundamental_div_mod(x, 2 * q);
        lemma_mod_division_less_than_divisor(x, 2 * q);
    }
    assert(k >= (q / sc) + 1) by {
        lemma_div_multiples_vanish((q / sc) + 1, 2 * q);
        lemma_div_is_ordered(2 * q * ((q / sc) + 1), x, 2 * q);
    }
    assert(k <= q - 1) by {
        assert(x <= 2 * q * (q - 1)) by (nonlinear_arith)
            requires
                x == q * cc - sc,
                cc <= q,
                q >= sc,
                sc >= 2,
        ;
        crate::fixed::lemma_tdiv_cap(x, 2 * q, q - 1);
        assert(tdiv(x, 2 * q) == x / (2 * q));
    }
    assert((q - k) * (q - k) >= q * q - x) by (nonlinear_arith)
        requires
            2 * q * k <= x,
            k >= 0,
    ;
    let y = (disc * sc) as nat;
    let cap = (q - k - 1) as nat;
    assert(y < (cap + 1) * (cap + 1)) by (nonlinear_arith)
        requires
            disc * sc < q * q - x,
            (q - k) * (q - k) >= q * q - x,
            cap == q - k - 1,
            0 <= disc * sc,
            y == disc * sc,
            k <= q - 1,
    ;
    lemma_sqrt_cap(y, cap);
    let sq = fsqrt(disc);
    assert(sq <= q - k - 1);
    // The root selection takes the near branch, and the parameter is
    // strictly positive.
    assert(-b > sq);
    assert(-b - sq == q - sq);
    let t = fdiv(q - sq, q);
    assert((q - sq) * sc >= (k + 1) * sc) by (nonlinear_arith)
        requires
            q - sq >= k + 1,
            sc > 0,
    ;
    assert((q / sc) * sc >= q - sc + 1) by {
        lemma_fundamental_div_mod(q, sc);
        lemma_mod_division_less_than_divisor(q, sc);
    }
    assert(k * sc >= q + 1) by (nonlinear_arith)
        requires
            k >= (q / sc) + 1,
            (q / sc) * sc >= q - sc + 1,
            sc > 0,
    ;
    assert(t >= 1) by {
        assert((q - sq) * sc >= q + 1);
        crate::fixed::lemma_tdiv_le(q + 1, (q - sq) * sc, q);
        lemma_fundamental_div_mod(q + 1, q);
        assert((q + 1) / q == 1) by {
            vstd::arithmetic::div_mod::lemma_fundamental_div_mod_converse(q + 1, q, 1, 1);
        }
        lemma_tdiv_bound(q + 1, q);
    }
    // The parameter stays at most one, so the hit point stays close to
    // the segment between origin and centre, within the point range.
    assert(t <= sc) by {
        assert((q - sq) * sc <= q * sc) by (nonlinear_arith)
            requires
                q - sq <= q,
                sc > 0,
        ;
        lemma_tdiv_bound((q - sq) * sc, q);
        crate::fixed::lemma_tdiv_cap((q - sq) * sc, q, sc);
    }
    let p = s_add(ray.origin@, s_scale(t, d));
    assert(in3(d, 2_000_000_000));
    lemma_mul_bound(t, 1_000_000, d.0, 2_000_000_000);
    lemma_mul_bound(t, 1_000_000, d.1, 2_000_000_000);
    lemma_mul_bound(t, 1_000_000, d.2, 2_000_000_000);
    lemma_fmul_bound(t, d.0, 2_000_000_000_000_000);
    lemma_fmul_bound(t, d.1, 2_000_000_000_000_000);
    lemma_fmul_bound(t, d.2, 2_000_000_000_000_000);
    assert(in3(p, POINT_LIMIT as int));
    assert(q != 0);
}

/// `q / q` is one, for a positive `q`.
proof fn lemma_div_by_self_one(q: int)
    requires
        q > 0,
    ensures
        q / q == 1,
{
    vstd::arithmetic::div_mod::lemma_fundamental_div_mod_converse(q, q, 1, 0);
}

/// Negating one factor negates a scaled product.
proof fn lemma_fmul_negated(x: int)
    ensures
        fmul(x, -x) == -fmul(x, x),
        fmul(-x, -x) == fmul(x, x),
{
    assert(x * (-x) == -(x * x)) by (nonlinear_arith);
    assert((-x) * (-x) == x * x) by (nonlinear_arith);
    assert(x * x >= 0) by (nonlinear_arith);
    lemma_tdiv_bound(x * x, SCALE as int);
    if x * x > 0 {
        assert(sabs(-(x * x)) == x * x);
        assert(tdiv(-(x * x), SCALE as int) == -((x * x) / (SCALE as int)));
    }
}

/// A ray that starts at or past a sphere and points away from it never
/// intersects it: when the direction does not approach the centre
/// (`direction . (origin - centre) >= 0`) and the origin is not inside
/// the surface (`|origin - centre|^2 >= radius`), the hit is `None`.
pub proof fn lemma_sphere_behind(s: Sphere, ray: Ray)
    requires
        s_dot(ray.direction@, s_sub(ray.origin@, s.centre@)) >= 0,
        s_dot(s_sub(ray.origin@, s.centre@), s_sub(ray.origin@, s.centre@)) - s.radius@ >= 0,
    ensures
        sphere_hit(s, ray) is None,
{
    let d = ray.direction@;
    let oc = s_sub(ray.origin@, s.centre@);
    let a = s_dot(d, d);
    let b = s_dot(d, oc);
    let c = s_dot(oc, oc) - s.radius@;
    lemma_dot_self_nonneg(d);
    if a != 0 {
        assert(a * c >= 0) by (nonlinear_arith)
            requires
                a >= 0,
                c >= 0,
        ;
        lemma_tdiv_bound(a * c, SCALE as int);
        let disc = fmul(b, b) - fmul(a, c);
        if disc >= 0 {
            lemma_fmul_sq(b);
            let y = (disc * (SCALE as int)) as nat;
            assert(disc <= fmul(b, b));
            assert(disc * (SCALE as int) <= fmul(b, b) * (SCALE as int)) by (nonlinear_arith)
                requires
                    disc <= fmul(b, b),
                    SCALE as int == 1_000_000,
            ;
            assert(b * b < (b + 1) * (b + 1)) by (nonlinear_arith)
                requires
                    b >= 0,
            ;
            lemma_sqrt_cap(y, b as nat);
            let sq = fsqrt(disc);
            assert(sq <= b);
            assert(!(-b > sq));
            let t = fdiv(-b + sq, a);
            assert((-b + sq) * (SCALE as int) <= 0) by (nonlinear_arith)
                requires
                    -b + sq <= 0,
                    SCALE as int == 1_000_000,
            ;
            lemma_tdiv_bound((-b + sq) * (SCALE as int), a);
            assert(t <= 0);
        }
    }
}

} // verus!
