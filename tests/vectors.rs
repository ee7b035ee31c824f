use raytracer::vectors::Vec3;

#[test]
fn test_mul_assign() {
    let mut vec3 = Vec3(4.0, 5.0, 6.0);
    vec3 = vec3 * 5.0;

    assert_eq!(vec3, Vec3(20.0, 25.0, 30.0));
}

#[test]
fn test_div_assign() {
    let mut vec3 = Vec3(5.0, 10.0, 15.0);
    vec3 = vec3 / 5.0;

    assert_eq!(vec3, Vec3(1.0, 2.0, 3.0));
}

#[test]
fn default_is_the_zero_vector() {
    let v: Vec3<f32> = Vec3::default();
    assert_eq!(v, Vec3(0.0, 0.0, 0.0));
    let w: Vec3<i64> = Vec3::default();
    assert_eq!(w, Vec3(0, 0, 0));
}

#[test]
fn accessors_return_components() {
    let v = Vec3::new(7i64, -8, 9);
    assert_eq!(v.x(), 7);
    assert_eq!(v.y(), -8);
    assert_eq!(v.z(), 9);
    assert_eq!(v, Vec3(7, -8, 9));
}

#[test]
fn get_is_some_only_for_three_axes() {
    let v = Vec3::new(1u32, 2, 3);
    assert_eq!(v.get(0), Some(1));
    assert_eq!(v.get(1), Some(2));
    assert_eq!(v.get(2), Some(3));
    assert_eq!(v.get(3), None);
    assert_eq!(v.get(u32::MAX), None);
}

#[test]
fn integer_operators_are_componentwise() {
    let a = Vec3(1i64, -2, 3);
    let b = Vec3(10i64, 20, -30);
    assert_eq!(a + b, Vec3(11, 18, -27));
    assert_eq!(a - b, Vec3(-9, -22, 33));
    assert_eq!(-a, Vec3(-1, 2, -3));
    assert_eq!(a * 4, Vec3(4, -8, 12));
    assert_eq!(a * b, Vec3(10, -40, -90));
    assert_eq!(b / 10, Vec3(1, 2, -3));
}

#[test]
fn float_operators_are_componentwise() {
    let a = Vec3(0.5f32, 1.0, -2.0);
    let b = Vec3(2.0f32, 4.0, 8.0);
    assert_eq!(a + b, Vec3(2.5, 5.0, 6.0));
    assert_eq!(b - a, Vec3(1.5, 3.0, 10.0));
    assert_eq!(a * b, Vec3(1.0, 4.0, -16.0));
    assert_eq!(b * 0.5, Vec3(1.0, 2.0, 4.0));
    assert_eq!(b / 2.0, Vec3(1.0, 2.0, 4.0));
}
