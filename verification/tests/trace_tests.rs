use yars_raytracer::fixed::Fix;
use yars_raytracer::vector3d::Vec3;
use yars_raytracer::materials::Material;
use yars_raytracer::shapes::{Sphere, Plane, Shape};
use yars_raytracer::ray::{Ray, ShadeCell};
use yars_raytracer::scene::Light;
use yars_raytracer::shade::Color;

fn fx(units: i64) -> Fix {
    Fix::from_int(units)
}

#[test]
fn test_ray_intersection_boolean() {
    let sphere = Shape::Sphere(Sphere::simple(Vec3(fx(0), fx(0), fx(0)), fx(1)));
    let ray = Ray {
        origin: Vec3(fx(2), fx(0), fx(0)),
        direction: Vec3(fx(-1), fx(0), fx(0)),
    };

    assert!(ray.hits(&sphere));
}

#[test]
fn test_ray_trace_picks_correct_object() {
    let sphere_1 = Shape::Sphere(Sphere::simple(Vec3(fx(0), fx(0), fx(0)), fx(1)));
    let sphere_2 = Shape::Sphere(Sphere::simple(Vec3(fx(3), fx(0), fx(0)), fx(1)));
    let ray = Ray {
        origin: Vec3(fx(5), fx(0), fx(0)),
        direction: Vec3(fx(-1), fx(0), fx(0)),
    };

    let objects = vec![sphere_1, sphere_2];
    let strike = ray.trace(&objects);

    // The following will assert if there is no collision
    let ShadeCell(x, _, _, _) = strike.unwrap();
    // The following tests the collision is correct
    assert!(Vec3(fx(4), fx(0), fx(0)) == x);
}

#[test]
fn test_ray_trace_copes_with_no_strike() {
    let sphere = Shape::Sphere(Sphere::simple(Vec3(fx(0), fx(0), fx(0)), fx(1)));
    let ray = Ray {
        origin: Vec3(fx(5), fx(0), fx(0)),
        direction: Vec3(fx(0), fx(1), fx(0)),
    };

    let objects = vec![sphere];
    let strike = ray.trace(&objects);

    assert!(!strike.is_some());
}

#[test]
fn test_can_detect_single_strike_in_non_colinear_objects() {
    let sphere = Shape::Sphere(Sphere::simple(Vec3(fx(0), fx(0), fx(3)), fx(1)));
    let obst = Shape::Sphere(Sphere::simple(Vec3(fx(-3), fx(0), fx(3)), fx(1)));
    let ray = Ray {
        origin: Vec3(fx(0), fx(0), fx(0)),
        direction: Vec3(fx(0), fx(0), fx(1)),
    };

    let objects = vec![sphere, obst];
    let strike = ray.trace(&objects);

    assert!(strike.is_some());
}

#[test]
fn test_can_detect_interfering_object() {
    let light = Light {
        position: Vec3(fx(0), fx(0), fx(5)),
        colour: Color(255, 255, 255),
    };

    let sphere = Shape::Sphere(Sphere::simple(Vec3(fx(0), fx(0), fx(0)), fx(1)));
    let objects = vec![sphere];

    let point = Vec3(fx(0), fx(0), fx(-5));

    assert!(!light.illuminates(point, &objects));
}

#[test]
fn test_can_detect_non_interfering_object() {
    let light = Light {
        position: Vec3(fx(0), fx(0), fx(5)),
        colour: Color(255, 255, 255),
    };

    let sphere = Shape::Sphere(Sphere::simple(Vec3(fx(0), fx(0), fx(0)), fx(1)));
    let objects = vec![sphere];

    let point = Vec3(fx(3), fx(0), fx(-5));

    assert!(light.illuminates(point, &objects));
}

#[test]
fn test_light_detects_interference_in_correct_portion_of_ray() {
    let light = Light {
        position: Vec3(fx(2), fx(0), fx(0)),
        colour: Color(255, 255, 255),
    };

    let sphere = Shape::Sphere(Sphere::simple(Vec3(fx(0), fx(0), fx(0)), fx(1)));
    let objects = vec![sphere];

    let point = Vec3(fx(3), fx(0), fx(0));

    assert!(light.illuminates(point, &objects));
}

#[test]
fn test_light_illumination_is_not_confused_by_two_objects() {
    let light = Light {
        position: Vec3(fx(2), fx(0), fx(0)),
        colour: Color(255, 255, 255),
    };

    let sphere = Shape::Sphere(Sphere::simple(Vec3(fx(0), fx(0), fx(0)), fx(1)));
    let hidden = Shape::Sphere(Sphere::simple(Vec3(fx(-5), fx(0), fx(0)), fx(1)));
    let objects = vec![sphere, hidden];

    let point = Vec3(fx(1), fx(0), fx(0));

    assert!(light.illuminates(point, &objects));
}

#[test]
fn test_tolerance_suppresses_self_shadow() {
    // The shadow ray strikes the plane a hair from its own origin: the
    // self-intersection tolerance discards the hit and the point stays lit.
    let plane = Shape::Plane(Plane::new(
        Vec3(fx(1), fx(0), fx(0)),
        Vec3(fx(0), fx(1), fx(0)),
        Material::plain(),
    ));
    let light = Light {
        position: Vec3(fx(0), fx(0), Fix::new(100)),
        colour: Color(255, 255, 255),
    };
    let point = Vec3(fx(0), fx(0), Fix::new(-2));
    let objects = vec![plane];

    assert!(light.illuminates(point, &objects));
}

#[test]
fn test_light_at_point_itself_illuminates() {
    let sphere = Shape::Sphere(Sphere::simple(Vec3(fx(0), fx(0), fx(0)), fx(1)));
    let objects = vec![sphere];
    let p = Vec3(fx(0), fx(0), fx(2));
    let light = Light {
        position: p,
        colour: Color(255, 255, 255),
    };

    assert!(light.illuminates(p, &objects));
}

#[test]
fn test_trace_empty_scene() {
    let objects: Vec<Shape> = vec![];
    let ray = Ray {
        origin: Vec3(fx(0), fx(0), fx(0)),
        direction: Vec3(fx(0), fx(0), fx(1)),
    };

    assert!(ray.trace(&objects).is_none());
}
