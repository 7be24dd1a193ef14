use quat_render::fixed::SCALE;
use quat_render::quat::Quat;

#[test]
fn multiplication() {
    let q1 = Quat::new(10 * SCALE, 5 * SCALE, 4 * SCALE, 7 * SCALE);
    let q2 = Quat::new(9 * SCALE, 2 * SCALE, 33 * SCALE, 4 * SCALE);
    let q3 = q1.multiply(q2);

    println!("{:?}", q3);
}

#[test]
fn multiplication_exact_values() {
    // Exactly the Hamilton product formula on whole numbers:
    // (10,5,4,7) * (9,2,33,4) == (-80, -150, 360, 260).
    let q1 = Quat::new(10 * SCALE, 5 * SCALE, 4 * SCALE, 7 * SCALE);
    let q2 = Quat::new(9 * SCALE, 2 * SCALE, 33 * SCALE, 4 * SCALE);
    let q3 = q1.multiply(q2);

    assert_eq!(q3, Quat::new(-80 * SCALE, -150 * SCALE, 360 * SCALE, 260 * SCALE));
}

#[test]
fn multiplication_not_commutative() {
    let a = Quat::new(0, SCALE, 0, 0);
    let b = Quat::new(0, 0, SCALE, 0);
    assert_ne!(a.multiply(b), b.multiply(a));
    assert_eq!(a.multiply(b), Quat::new(0, 0, 0, SCALE));
    assert_eq!(b.multiply(a), Quat::new(0, 0, 0, -SCALE));
}

#[test]
fn addition_componentwise() {
    let a = Quat::new(SCALE, 2 * SCALE, -3 * SCALE, 4);
    let b = Quat::new(SCALE, -2 * SCALE, 5 * SCALE, 6);
    assert_eq!(a.add_quat(b), Quat::new(2 * SCALE, 0, 2 * SCALE, 10));
}

#[test]
fn normalize_exact_unit() {
    let q = Quat::new(2 * SCALE, 0, 0, 0);
    assert_eq!(q.normalize(), Quat::new(SCALE, 0, 0, 0));
}

#[test]
fn normalize_near_unit_norm() {
    // A 3-4-5 triple: the normalized squared norm is one up to the rounding
    // of the format.
    let q = Quat::new(0, 3 * SCALE, 0, 4 * SCALE);
    let n = q.normalize();
    let s2 = n.sum_square();
    assert!(
        SCALE - 4 <= s2 && s2 <= SCALE,
        "squared norm {} out of tolerance",
        s2
    );
}

#[test]
fn inverse_times_self_is_identity() {
    // A quaternion whose fixed-point squared norm is exactly one.
    let q = Quat::new(0, SCALE, 0, 0);
    assert_eq!(q.sum_square(), SCALE);
    assert_eq!(q.inverse(), Quat::new(0, -SCALE, 0, 0));
    assert_eq!(q.multiply(q.inverse()), Quat::new(SCALE, 0, 0, 0));
}

#[test]
fn transform_by_identity_is_noop() {
    let id = Quat::new(SCALE, 0, 0, 0);
    let p = Quat::new(0, 7 * SCALE, -3 * SCALE, 15 * SCALE);
    assert_eq!(p.tranform(id), p);
}

#[test]
fn transform_preserves_length_of_axis_point() {
    // Rotating the x-axis point by the unit quaternion for 180 degrees
    // about z (0, 0, 0, 1) lands on the negated x axis: same length.
    let rot = Quat::new(0, 0, 0, SCALE);
    let p = Quat::new(0, 9 * SCALE, 0, 0);
    let r = p.tranform(rot);
    assert_eq!(r, Quat::new(0, -9 * SCALE, 0, 0));
}

#[test]
fn extract_point_components() {
    let q = Quat::new(5, 10, 20, 30);
    let p = q.point();
    assert_eq!((p.x, p.y, p.z), (10, 20, 30));
}

#[test]
fn increment_zero_angles_gives_identity() {
    let mut q = Quat::new(0, SCALE, 0, 0);
    // cos(0) == 1, sin(0) == 0 for all three axes.
    q.increment(SCALE, 0, SCALE, 0, SCALE, 0);
    assert_eq!(q, Quat::new(SCALE, 0, 0, 0));
}
