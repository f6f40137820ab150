use terrain_gen::fixed::{ceil_sqrt_u128, trunc_div_i128};
use terrain_gen::vector::{magnitude, normalize, Vector3};

#[test]
fn ceil_sqrt_values() {
    assert_eq!(ceil_sqrt_u128(0), 0);
    assert_eq!(ceil_sqrt_u128(1), 1);
    assert_eq!(ceil_sqrt_u128(2), 2);
    assert_eq!(ceil_sqrt_u128(16), 4);
    assert_eq!(ceil_sqrt_u128(17), 5);
    assert_eq!(ceil_sqrt_u128(2_000_000_000_000_000_000), 1_414_213_563);
}

#[test]
fn truncating_division() {
    assert_eq!(trunc_div_i128(7, 2), 3);
    assert_eq!(trunc_div_i128(-7, 2), -3);
    assert_eq!(trunc_div_i128(-6, 3), -2);
}

#[test]
fn vector_ops() {
    let a = Vector3::new(1, -2, 3);
    let b = Vector3::new(10, 20, 30);
    assert_eq!(a.add(b), Vector3::new(11, 18, 33));
    assert_eq!(b.sub(a), Vector3::new(9, 22, 27));
    assert_eq!(a.neg(), Vector3::new(-1, 2, -3));
    assert_eq!(a.invert_xy(), Vector3::new(-2, 1, 3));
    assert_eq!(a.sqr_magnitude(), 14);
    assert_eq!(Vector3::new(i64::MIN, i64::MIN, i64::MIN).sqr_magnitude(), 3 * (1u128 << 126));
}

#[test]
fn normalize_zero_vector_stays_zero() {
    assert_eq!(normalize(Vector3::new(0, 0, 0)), Vector3::new(0, 0, 0));
}

#[test]
fn normalize_to_billionths() {
    assert_eq!(normalize(Vector3::new(3, 0, 4)), Vector3::new(600_000_000, 0, 800_000_000));
    assert_eq!(normalize(Vector3::new(0, -7, 0)), Vector3::new(0, -1_000_000_000, 0));
    assert_eq!(normalize(Vector3::new(1, 1, 0)), Vector3::new(707_106_777, 707_106_777, 0));
    assert_eq!(normalize(Vector3::new(1, 1, 1)), Vector3::new(577_350_268, 577_350_268, 577_350_268));
    assert_eq!(normalize(Vector3::new(2_000_000, -2_000_000, 0)), Vector3::new(707_106_781, -707_106_781, 0));
    assert_eq!(normalize(Vector3::new(i64::MIN, 0, 0)), Vector3::new(-1_000_000_000, 0, 0));
}

#[test]
fn vector_products_and_division() {
    let a = Vector3::new(2, -3, 4);
    assert_eq!(a.mul(Vector3::new(5, 6, -7)), Vector3::new(10, -18, -28));
    assert_eq!(a.scale(-3), Vector3::new(-6, 9, -12));
    assert_eq!(Vector3::new(7, -7, 6).div(2), Vector3::new(3, -3, 3));
}

#[test]
fn normalize_has_unit_length_within_a_millionth() {
    let cases = [
        (1, 1, 0),
        (1, 1, 1),
        (1, 2, 3),
        (-1, 0, 1),
        (2, -3, 6),
        (5, 5, 5),
        (1_000_000_000_000, 1, -1),
        (i64::MAX, i64::MIN, 12345),
        (99_999_999_999, 1, 0),
    ];
    for v in cases {
        let n = normalize(Vector3::new(v.0, v.1, v.2));
        let len2 = n.sqr_magnitude();
        assert!(999_999_000u128 * 999_999_000 <= len2 && len2 <= 1_000_000_000u128 * 1_000_000_000, "{:?} -> {:?}", v, n);
        let exact = |a: i64| a as f64 / ((v.0 as f64).powi(2) + (v.1 as f64).powi(2) + (v.2 as f64).powi(2)).sqrt() * 1e9;
        assert!((exact(v.0) - n.x as f64).abs() < 101.0);
        assert!((exact(v.1) - n.y as f64).abs() < 101.0);
        assert!((exact(v.2) - n.z as f64).abs() < 101.0);
    }
}

#[test]
fn magnitude_rounds_up() {
    assert_eq!(magnitude(Vector3::new(3, 0, 4)), 5);
    assert_eq!(magnitude(Vector3::new(1, 1, 0)), 2);
    assert_eq!(magnitude(Vector3::new(0, 0, 0)), 0);
    assert_eq!(magnitude(Vector3::new(0, -1_000_000, 0)), 1_000_000);
}

#[test]
fn scalar_add_sub_and_total_division() {
    let a = Vector3::new(7, -7, 6);
    assert_eq!(a.add_scalar(3), Vector3::new(10, -4, 9));
    assert_eq!(a.sub_scalar(3), Vector3::new(4, -10, 3));
    assert_eq!(a.div(-2), Vector3::new(-3, 3, -3));
    assert_eq!(a.div(0), Vector3::new(0, 0, 0));
    assert_eq!(a.div_vec(Vector3::new(2, 0, -4)), Vector3::new(3, 0, -1));
}

#[test]
fn lerp_between_vectors() {
    let a = Vector3::new(0, 100, -100);
    let b = Vector3::new(1000, -100, 100);
    assert_eq!(a.lerp_vec(b, 0), a);
    assert_eq!(a.lerp_vec(b, 1000), b);
    assert_eq!(a.lerp_vec(b, 250), Vector3::new(250, 50, -50));
    assert_eq!(Vector3::new(0, 0, 0).lerp_vec(Vector3::new(3, -3, 1), 500), Vector3::new(1, -1, 0));
    let far = Vector3::new(i64::MIN, i64::MAX, 0).lerp_vec(Vector3::new(i64::MAX, i64::MIN, 0), 1000);
    assert_eq!(far, Vector3::new(i64::MAX, i64::MIN, 0));
}
