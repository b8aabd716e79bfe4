use yars_raytracer::fixed::Fix;
use yars_raytracer::vector3d::Vec3;
use yars_raytracer::materials::Material;
use yars_raytracer::shapes::{Sphere, Shape};
use yars_raytracer::ray::{Ray, ShadeCell};
use yars_raytracer::scene::{Scene, Light, AmbientLight};
use yars_raytracer::shade::{Color, PhongShader, red, green, blue};
use yars_raytracer::raytrace::Raytracer;

fn fx(units: i64) -> Fix {
    Fix::from_int(units)
}

#[test]
fn test_red_channel_getter() {
    let colour_red = Color(255, 0, 0);

    assert!(255 == red(colour_red));
}

#[test]
fn test_green_channel_getter() {
    let colour_green = Color(0, 255, 0);

    assert!(255 == green(colour_green));
}

#[test]
fn test_blue_channel_getter() {
    let colour_blue = Color(0, 0, 255);

    assert!(255 == blue(colour_blue));
}

#[test]
fn test_phong_dot_returns_zero_on_negative() {
    let x = Vec3(fx(1), fx(0), fx(0));
    let y = Vec3(fx(-1), fx(0), fx(0));

    assert!(fx(0) == PhongShader::dot(x, y));
}

#[test]
fn test_gets_diffuse_at_shade_cell() {
    let a_colour = Color(255, 255, 255);
    let light = Light {
        position: Vec3(fx(2), fx(0), fx(0)),
        colour: a_colour,
    };

    let sphere = Shape::Sphere(Sphere::simple(Vec3(fx(0), fx(0), fx(0)), fx(1)));
    let scene_objects = vec![sphere];

    let ambient = AmbientLight { colour: a_colour };

    let scene = Scene {
        ambient_light: ambient,
        objects: scene_objects,
        lights: vec![light],
    };

    let shade_cell = Ray::new(Vec3(fx(2), fx(0), fx(0)), Vec3(fx(-1), fx(0), fx(0)))
        .trace(&scene.objects)
        .unwrap();

    let diffuse = PhongShader::diffuse_at_shade_cell(&shade_cell, &scene);
    println!("{:?}", diffuse);
    let expected = vec![a_colour];

    assert!(expected == diffuse);
}

#[test]
fn test_gets_specular_at_shade_cell() {
    let a_colour = Color(255, 255, 255);
    let light = Light {
        position: Vec3(fx(2), fx(0), fx(0)),
        colour: a_colour,
    };
    let sphere = Shape::Sphere(Sphere::simple(Vec3(fx(0), fx(0), fx(0)), fx(1)));
    let scene = Scene {
        ambient_light: AmbientLight { colour: a_colour },
        objects: vec![sphere],
        lights: vec![light],
    };

    let shade_cell = Ray::new(Vec3(fx(2), fx(0), fx(0)), Vec3(fx(-1), fx(0), fx(0)))
        .trace(&scene.objects)
        .unwrap();

    let specular = PhongShader::specular_at_shade_cell(&shade_cell, &scene);
    let expected = vec![a_colour];

    assert!(expected == specular);
}

#[test]
fn test_phong_dot_is_not_capped_above() {
    let x = Vec3(fx(2), fx(0), fx(0));

    assert!(fx(4) == PhongShader::dot(x, x));
}

#[test]
fn test_diffuse_term_scales_beyond_unit() {
    // A normal of length two doubles the diffuse cosine; the contribution
    // is the light colour scaled by 2.0, not capped at 1.0.
    let light = Light {
        position: Vec3(fx(1), fx(0), fx(0)),
        colour: Color(10, 10, 10),
    };
    let scene = Scene {
        ambient_light: AmbientLight { colour: Color(0, 0, 0) },
        objects: vec![],
        lights: vec![light],
    };
    let cell = ShadeCell(
        Vec3::zero(),
        Vec3(fx(2), fx(0), fx(0)),
        Vec3(fx(0), fx(0), fx(-1)),
        Material::plain(),
    );

    let diffuse = PhongShader::diffuse_at_shade_cell(&cell, &scene);
    assert!(diffuse == vec![Color(20, 20, 20)]);
}

#[test]
fn test_specular_term_uses_unclamped_power() {
    // The reflection-viewer alignment comes out as 7.0 and is raised to
    // the first power unclamped: the light colour is scaled sevenfold.
    let shiny = Material::new(
        [fx(1); 3],
        [fx(1); 3],
        [fx(1); 3],
        [fx(0); 3],
        1,
    );
    let light = Light {
        position: Vec3(fx(1), fx(0), fx(0)),
        colour: Color(10, 10, 10),
    };
    let scene = Scene {
        ambient_light: AmbientLight { colour: Color(0, 0, 0) },
        objects: vec![],
        lights: vec![light],
    };
    let cell = ShadeCell(
        Vec3::zero(),
        Vec3(fx(2), fx(0), fx(0)),
        Vec3(fx(-1), fx(0), fx(0)),
        shiny,
    );

    let specular = PhongShader::specular_at_shade_cell(&cell, &scene);
    assert!(specular == vec![Color(70, 70, 70)]);
}

#[test]
fn test_adjust_intensity_piecewise_exact() {
    let c = Color(100, 200, 50);
    let factors = [Fix::new(500_000), Fix::new(250_000), fx(1)];

    assert!(PhongShader::adjust_intensity_piecewise(c, factors) == Color(50, 50, 50));
}

#[test]
fn test_add_illumination_saturates() {
    let a = Color(200, 10, 0);
    let b = Color(100, 20, 0);

    assert!(PhongShader::add_illumination(a, b) == Color(255, 30, 0));
}

#[test]
fn test_depth_zero_no_contribution() {
    let sphere = Shape::Sphere(Sphere::simple(Vec3(fx(0), fx(0), fx(0)), fx(1)));
    let scene = Scene {
        ambient_light: AmbientLight { colour: Color(70, 70, 70) },
        objects: vec![sphere],
        lights: vec![],
    };
    let ray = Ray::new(Vec3(fx(5), fx(0), fx(0)), Vec3(fx(-1), fx(0), fx(0)));
    let tracer = Raytracer::<PhongShader>::from_shader(PhongShader::instance());

    assert!(tracer.trace_to_depth(0, &ray, &scene).is_none());
}

#[test]
fn test_trace_ambient_only() {
    let sphere = Shape::Sphere(Sphere::simple(Vec3(fx(0), fx(0), fx(0)), fx(1)));
    let scene = Scene {
        ambient_light: AmbientLight { colour: Color(70, 70, 70) },
        objects: vec![sphere],
        lights: vec![],
    };
    let ray = Ray::new(Vec3(fx(5), fx(0), fx(0)), Vec3(fx(-1), fx(0), fx(0)));
    let tracer = Raytracer::<PhongShader>::from_shader(PhongShader::instance());

    // The plain material's ambient reflectivity is (0.2, 0.6, 0.6).
    assert!(tracer.trace_to_depth(2, &ray, &scene) == Some(Color(14, 42, 42)));
}

#[test]
fn test_no_mirror_makes_depth_irrelevant() {
    let matte = Material::new(
        [Fix::new(300_000); 3],
        [Fix::new(400_000); 3],
        [Fix::new(200_000); 3],
        [fx(0); 3],
        4,
    );
    let sphere = Shape::Sphere(Sphere::new(Vec3(fx(0), fx(0), fx(0)), fx(1), matte));
    let light = Light {
        position: Vec3(fx(4), fx(2), fx(0)),
        colour: Color(255, 255, 200),
    };
    let scene = Scene {
        ambient_light: AmbientLight { colour: Color(70, 70, 70) },
        objects: vec![sphere],
        lights: vec![light],
    };
    let ray = Ray::new(Vec3(fx(5), fx(0), fx(0)), Vec3(fx(-1), fx(0), fx(0)));
    let tracer = Raytracer::<PhongShader>::from_shader(PhongShader::instance());

    let shallow = tracer.trace_to_depth(1, &ray, &scene);
    let deep = tracer.trace_to_depth(7, &ray, &scene);
    assert!(shallow.is_some());
    assert!(shallow == deep);
}

#[test]
fn test_trace_is_deterministic() {
    let sphere = Shape::Sphere(Sphere::simple(Vec3(fx(0), fx(-1), fx(5)), fx(1)));
    let obst = Shape::Sphere(Sphere::simple(Vec3(fx(-2), fx(0), fx(4)), fx(1)));
    let light = Light {
        position: Vec3(fx(4), fx(-4), fx(0)),
        colour: Color(255, 255, 200),
    };
    let scene = Scene {
        ambient_light: AmbientLight { colour: Color(70, 70, 70) },
        objects: vec![sphere, obst],
        lights: vec![light],
    };
    let ray = Ray::new(Vec3(fx(0), fx(0), fx(0)), Vec3(Fix::new(100_000), Fix::new(-200_000), fx(1)));
    let tracer = Raytracer::<PhongShader>::from_shader(PhongShader::instance());

    let first = tracer.trace_to_depth(3, &ray, &scene);
    let second = tracer.trace_to_depth(3, &ray, &scene);
    assert!(first == second);
}
