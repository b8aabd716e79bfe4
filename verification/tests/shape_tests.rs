use yars_raytracer::fixed::Fix;
use yars_raytracer::vector3d::{Vec3, Matrix3};
use yars_raytracer::space_algebra::SO3;
use yars_raytracer::materials::Material;
use yars_raytracer::shapes::{Sphere, Plane};
use yars_raytracer::ray::{Ray, Shadable};

fn fx(units: i64) -> Fix {
    Fix::from_int(units)
}

fn fx_f(x: f64) -> Fix {
    Fix::new((x * 1_000_000.0) as i128)
}

#[test]
fn test_sphere_orientability() {
    let s = Sphere::simple(Vec3::zero(), fx(1));
    let p = Vec3(fx(1), fx(0), fx(0));
    assert!(s.normal(p) == p);
}

#[test]
fn test_intersection_of_ray_and_sphere() {
    let sphere = Sphere::simple(Vec3::zero(), fx(1));
    let ray = Ray {
        origin: Vec3::zero(),
        direction: Vec3(fx(1), fx(0), fx(0)),
    };
    let expected = Some(Vec3(fx(1), fx(0), fx(0)));
    assert!(expected == sphere.intersect(&ray));
}

#[test]
fn test_intersection_of_ray_and_sphere_behind() {
    let sphere = Sphere::simple(Vec3::zero(), fx(1));
    let ray = Ray {
        origin: Vec3(fx(2), fx(0), fx(0)),
        direction: Vec3(fx(1), fx(0), fx(0)),
    };
    let expected = None;
    assert!(expected == sphere.intersect(&ray));
}

#[test]
fn test_orientability_of_plane() {
    let plane = Plane::new(Vec3(fx(2), fx(0), fx(0)), Vec3(fx(0), fx(2), fx(0)), Material::plain());
    let arbitrary_vector = Vec3(fx_f(9.9), fx_f(23.2), fx_f(141.2));
    let expected = Vec3(fx(0), fx(0), fx(1));
    assert!(expected == plane.normal(arbitrary_vector));
}

#[test]
fn test_plane_intesectability() {
    let plane = Plane::new(Vec3(fx(2), fx(0), fx(0)), Vec3(fx(0), fx(2), fx(0)), Material::plain());
    let ray = Ray {
        origin: Vec3(fx(0), fx(1), fx(1)),
        direction: Vec3(fx(0), fx(-1), fx(-1)),
    };
    let expected = Some(Vec3::zero());
    assert!(expected == plane.intersect(&ray));
}

#[test]
fn test_hit_on_surface_when_aimed_at_centre() {
    // A ray aimed straight at the centre of a unit sphere strikes its
    // surface: the hit point sits at exactly the radius from the centre.
    let centre = Vec3(fx(3), fx(4), fx(0));
    let sphere = Sphere::simple(centre, fx(1));
    let ray = Ray {
        origin: Vec3::zero(),
        direction: centre,
    };

    let hit = sphere.intersect(&ray).unwrap();
    assert!(hit == Vec3(Fix::new(2_400_000), Fix::new(3_200_000), fx(0)));
    assert!(hit.sub(centre).norm() == fx(1));
}

#[test]
fn test_sphere_normal_is_unit_and_parallel() {
    let centre = Vec3(fx(3), fx(4), fx(0));
    let sphere = Sphere::simple(centre, fx(1));
    let p = Vec3(Fix::new(2_400_000), Fix::new(3_200_000), fx(0));

    let n = sphere.normal(p);
    assert!(n == Vec3(Fix::new(-600_000), Fix::new(-800_000), fx(0)));
    assert!(n.norm() == fx(1));
}

#[test]
fn test_SO3_multiplication() {
    let tolerance = 0.0000001;
    let c = fx_f(3.0f64.cos());
    let s = fx_f(3.0f64.sin());
    let cm = fx_f((-3.0f64).cos());
    let sm = fx_f((-3.0f64).sin());
    let SO3(m1) = SO3::rotation_x(c, s).mul(SO3::rotation_x(cm, sm));
    let d = Matrix3::dist(m1, Matrix3::identity());
    assert!((d.raw() as f64) / 1_000_000.0 < tolerance);
}

#[test]
fn test_SO3_multiply_vector() {
    let s = SO3::rotation_x(fx_f(1.0f64.cos()), fx_f(1.0f64.sin()));
    let v = Vec3(fx(1), fx(0), fx(0));
    let expected = Vec3(fx(1), fx(0), fx(0));

    assert!(s.mul_vec(v) == expected);
}

#[test]
fn test_rotation_of_zero_angle_is_identity() {
    assert!(SO3::rotation_x(fx(1), fx(0)) == SO3::identity());
    assert!(SO3::rotation_y(fx(1), fx(0)) == SO3::identity());
    assert!(SO3::rotation_z(fx(1), fx(0)) == SO3::identity());
}
