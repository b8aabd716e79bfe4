use yars_raytracer::fixed::Fix;
use yars_raytracer::vector3d::{Vec3, Matrix3};

fn fx(units: i64) -> Fix {
    Fix::from_int(units)
}

#[test]
fn test_components_of_vec3() {
    let v = Vec3(fx(1), fx(2), fx(3));

    assert!(v.i() == fx(1));
    assert!(v.j() == fx(2));
    assert!(v.k() == fx(3));
}

#[test]
fn test_vec3_adds_to_vec3_correctly() {
    let v = Vec3(fx(1), fx(2), fx(3));
    let w = Vec3(fx(1), fx(2), fx(3));
    let expected = Vec3(fx(2), fx(4), fx(6));
    assert!(v.add(w) == expected);
}

#[test]
fn test_vec3_multiplies_with_scalar_correctly() {
    let v = Vec3(fx(1), fx(2), fx(3));
    let scalar = fx(3);
    let expected = Vec3(fx(3), fx(6), fx(9));
    assert!(v.scale(scalar) == expected);
}

#[test]
fn test_inner_product_space_for_vec3() {
    let v = Vec3(fx(1), fx(1), fx(1));
    let w = Vec3(Fix::new(-500_000), fx(1), Fix::new(-500_000));
    let expected = fx(0);
    assert!(v.dot(w) == expected);
    assert!(w.dot(v) == expected);
}

#[test]
fn test_norm_of_vec3() {
    let v = Vec3(fx(1), fx(4), fx(8));
    let expected = fx(9);

    assert!(v.norm() == expected);
}

#[test]
fn test_reflection_in_vector() {
    let v = Vec3(fx(1), fx(0), fx(0));
    let w = Vec3(fx(-1), fx(-1), fx(0));
    let expected = Vec3(fx(1), fx(-1), fx(0));

    assert!(expected == v.reflect(w));
}

#[test]
fn test_group_structure_for_vec3() {
    let v = Vec3(fx(1), fx(2), fx(3));
    assert!(v.add(v.neg()) == Vec3::zero());
}

#[test]
fn test_get_first_row_of_matrix() {
    let col1 = Vec3(fx(1), fx(0), fx(0));
    let col2 = Vec3(fx(2), fx(0), fx(0));
    let col3 = Vec3(fx(3), fx(0), fx(0));
    let m = Matrix3(col1, col2, col3);
    let expected = Vec3(fx(1), fx(2), fx(3));

    assert!(m.row1() == expected);
}

#[test]
fn test_get_second_row_of_matrix() {
    let col1 = Vec3(fx(0), fx(1), fx(0));
    let col2 = Vec3(fx(0), fx(2), fx(0));
    let col3 = Vec3(fx(0), fx(3), fx(0));
    let m = Matrix3(col1, col2, col3);
    let expected = Vec3(fx(1), fx(2), fx(3));

    assert!(m.row2() == expected);
}

#[test]
fn test_get_third_row_of_matrix() {
    let col1 = Vec3(fx(0), fx(0), fx(1));
    let col2 = Vec3(fx(0), fx(0), fx(2));
    let col3 = Vec3(fx(0), fx(0), fx(3));
    let m = Matrix3(col1, col2, col3);
    let expected = Vec3(fx(1), fx(2), fx(3));

    assert!(m.row3() == expected);
}

#[test]
fn test_multiply_vector_by_matrix() {
    let col1 = Vec3(fx(1), fx(0), fx(0));
    let col2 = Vec3(fx(1), fx(-1), fx(1));
    let col3 = Vec3(fx(1), fx(1), fx(1));
    let m = Matrix3(col1, col2, col3);
    let v = Vec3(fx(1), fx(1), fx(1));
    let expected = Vec3(fx(3), fx(0), fx(2));

    assert!(m.mul_vec(v) == expected);
}

#[test]
fn test_matrix_multiplication() {
    let col1_1 = Vec3(fx(3), fx(2), fx(0));
    let col1_2 = Vec3(fx(0), fx(0), fx(1));
    let col1_3 = Vec3(fx(2), fx(-2), fx(1));
    let m_1 = Matrix3(col1_1, col1_2, col1_3);

    let col2_1 = Vec3(Fix::new(200_000), Fix::new(-200_000), Fix::new(200_000));
    let col2_2 = Vec3(Fix::new(200_000), Fix::new(300_000), Fix::new(-300_000));
    let col2_3 = Vec3(fx(0), fx(1), fx(0));
    let m_2 = Matrix3(col2_1, col2_2, col2_3);
    let tolerance = 0.00000001;

    let d1 = Matrix3::dist(m_1.mul_mat(m_2), Matrix3::identity());
    let d2 = Matrix3::dist(m_2.mul_mat(m_1), Matrix3::identity());
    assert!((d1.raw() as f64) / 1_000_000.0 < tolerance);
    assert!((d2.raw() as f64) / 1_000_000.0 < tolerance);
}

#[test]
fn test_matrix_distance() {
    let zero = Vec3::zero();
    let m1 = Matrix3::with_columns(zero, zero, zero);
    let m2 = Matrix3::identity();

    assert!(Matrix3::dist(m1, m2) == fx(3));
}
