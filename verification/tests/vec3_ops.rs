//! Vector arithmetic tests; one world unit is 1_000_000 fixed-point units.

use pathtracer::vec3::Vec3;

#[test]
fn add_two_vectors() {
    let x = Vec3::new(1_000_000, 1_000_000, 1_000_000);
    let y = Vec3::new(1_000_000, 1_000_000, 1_000_000);
    assert_eq!(x.add(&y), Vec3::new(2_000_000, 2_000_000, 2_000_000));
}

#[test]
fn add_inplace() {
    let mut x = Vec3::new(1_000_000, 1_000_000, 1_000_000);
    x.add_assign(&Vec3::new(1_000_000, 1_000_000, 1_000_000));
    assert_eq!(x, Vec3::new(2_000_000, 2_000_000, 2_000_000));
}

#[test]
fn sub_two_vectors() {
    let x = Vec3::new(1_000_000, 1_000_000, 1_000_000);
    let y = Vec3::new(1_000_000, 1_000_000, 1_000_000);
    assert_eq!(x.sub(&y), Vec3::new(0, 0, 0));
}

#[test]
fn sub_inplace() {
    let mut x = Vec3::new(1_000_000, 1_000_000, 1_000_000);
    x.sub_assign(&Vec3::new(1_000_000, 1_000_000, 1_000_000));
    assert_eq!(x, Vec3::new(0, 0, 0));
}

#[test]
fn mul_two_vectors() {
    let x = Vec3::new(2_000_000, 2_000_000, 2_000_000);
    let y = Vec3::new(2_000_000, 2_000_000, 2_000_000);
    assert_eq!(x.add(&y), Vec3::new(4_000_000, 4_000_000, 4_000_000));
}

#[test]
fn mul_inplace() {
    let mut x = Vec3::new(2_000_000, 2_000_000, 2_000_000);
    x.add_assign(&Vec3::new(2_000_000, 2_000_000, 2_000_000));
    assert_eq!(x, Vec3::new(4_000_000, 4_000_000, 4_000_000));
}

#[test]
fn normalize() {
    let x = Vec3::new(10_000_000, 10_000_000, 10_000_000);
    let x_norm = x.normalize();
    assert_eq!(x_norm.x(), x_norm.y());
    assert_eq!(x_norm.x(), x_norm.z());
    assert!((x.normalize().z() as f64 / 1_000_000.0 - 0.57735026).abs() < 0.000001);
}

#[test]
fn dot_product() {
    let x = Vec3::new(2_000_000, 2_000_000, 2_000_000);
    let y = Vec3::new(3_000_000, 3_000_000, 3_000_000);
    assert_eq!(x.dot(&y), 18_000_000);
}

#[test]
fn cross_product() {
    let x = Vec3::new(2_000_000, 2_000_000, 2_000_000);
    let y = Vec3::new(-3_000_000, 3_000_000, -1_000_000);
    assert_eq!(x.cross(&y), Vec3::new(-8_000_000, -4_000_000, 12_000_000));
}

#[test]
fn length_exact() {
    // floor(sqrt(300) * 1e6) in fixed point
    let x = Vec3::new(10_000_000, 10_000_000, 10_000_000);
    assert_eq!(x.length(), 17_320_508);
}

#[test]
fn scale_and_componentwise_mul() {
    let x = Vec3::new(500_000, -2_000_000, 1_500_000);
    assert_eq!(x.scale(2_000_000), Vec3::new(1_000_000, -4_000_000, 3_000_000));
    let y = Vec3::new(500_000, 500_000, 2_000_000);
    assert_eq!(x.mul(&y), Vec3::new(250_000, -1_000_000, 3_000_000));
}

#[test]
fn scale_distributes_within_one_unit() {
    let a = Vec3::new(333_333, 777_777, -123_457);
    let b = Vec3::new(111_111, -222_223, 999_999);
    let t: i64 = 654_321;
    let lhs = a.add(&b).scale(t);
    let rhs = a.scale(t).add(&b.scale(t));
    assert!((lhs.x() - rhs.x()).abs() <= 1);
    assert!((lhs.y() - rhs.y()).abs() <= 1);
    assert!((lhs.z() - rhs.z()).abs() <= 1);
}

#[test]
fn cross_is_orthogonal_within_rounding() {
    let a = Vec3::new(1_234_567, -765_432, 2_000_001);
    let b = Vec3::new(-999_999, 3_141_592, 271_828);
    let c = a.cross(&b);
    let da = c.x() as i128 * a.x() as i128 + c.y() as i128 * a.y() as i128
        + c.z() as i128 * a.z() as i128;
    let bound = (a.x().abs() + a.y().abs() + a.z().abs()) as i128;
    assert!(da.abs() <= bound);
}

#[test]
fn normalize_has_unit_length() {
    let v = Vec3::new(3_000_000, -4_000_000, 12_000_000);
    let n = v.normalize();
    let raw = n.x() as i128 * n.x() as i128 + n.y() as i128 * n.y() as i128
        + n.z() as i128 * n.z() as i128;
    assert!((raw - 1_000_000_000_000i128).abs() <= 5_000_000_000);
}

#[test]
fn random_range_stays_in_range() {
    let mut rng = pathtracer::rng::rng_from_seed(7);
    for _ in 0..200 {
        let v = Vec3::random_range(&mut rng, -250_000, 750_000);
        assert!(-250_000 <= v.x() && v.x() < 750_000);
        assert!(-250_000 <= v.y() && v.y() < 750_000);
        assert!(-250_000 <= v.z() && v.z() < 750_000);
    }
}

#[test]
fn random_unit_vector_is_unit() {
    let mut rng = pathtracer::rng::rng_from_seed(11);
    for _ in 0..100 {
        let n = Vec3::random_unit_vector(&mut rng);
        let raw = n.x() as i128 * n.x() as i128 + n.y() as i128 * n.y() as i128
            + n.z() as i128 * n.z() as i128;
        assert!((raw - 1_000_000_000_000i128).abs() <= 5_000_000_000);
    }
}
