use basis::{Cube, Decimal, Mat4, Quaternion, Transform, Vec3, Vec4, AABB};

fn dec(n: i64) -> Decimal {
    Decimal::from_int(n)
}

#[test]
fn decimal_normalizes_trailing_zeros() {
    assert_eq!(Decimal::from_scaled(false, 5_000_000, 6), dec(5));
    assert_eq!(Decimal::from_scaled(true, 1_216_630, 6), Decimal::from_scaled(true, 121_663, 5));
    assert_eq!(Decimal::from_scaled(true, 0, 6), dec(0));
}

#[test]
fn decimal_orders_across_scales_and_signs() {
    let half = Decimal::from_scaled(false, 5, 1);
    let quarter = Decimal::from_scaled(false, 25, 2);
    assert!(quarter.le(half));
    assert!(!half.le(quarter));
    assert!(Decimal::from_scaled(true, 5, 1).le(quarter));
    assert!(dec(0).le(quarter));
    assert_eq!(half.min_of(quarter), quarter);
    assert_eq!(half.max_of(quarter), half);
}

#[test]
fn decimal_multiplication_is_exact() {
    let half = Decimal::from_scaled(false, 5, 1);
    assert_eq!(half.mul(dec(2)), dec(1));
    assert_eq!(half.mul(half), Decimal::from_scaled(false, 25, 2));
    assert_eq!(dec(-3).mul(dec(4)), dec(-12));
    assert_eq!(dec(-3).mul(dec(0)), dec(0));
}

#[test]
fn transform_translate_and_scale_set_their_fields() {
    let mut transform = Transform::default();
    transform.translate(Vec3::new(dec(1), dec(2), dec(3)));
    assert_eq!(transform.position, Vec3::new(dec(1), dec(2), dec(3)));
    transform.scale(Vec3::splat(dec(2)));
    assert_eq!(transform.scale, Vec3::splat(dec(2)));
    assert_eq!(transform.position, Vec3::new(dec(1), dec(2), dec(3)));
}

#[test]
fn transform_center_scales_the_object_center() {
    let mut transform = Transform::default();
    transform.scale(Vec3::new(
        Decimal::from_scaled(false, 5, 1),
        dec(2),
        dec(1),
    ));
    let center = transform.center(Vec3::new(dec(4), dec(3), dec(-2)));
    assert_eq!(center, Vec3::new(dec(2), dec(6), dec(-2)));
}

#[test]
fn aabb_spans_the_extremes() {
    let vertices = vec![
        Vec4::new(dec(1), dec(2), dec(3), dec(1)),
        Vec4::new(dec(-1), dec(5), dec(0), dec(1)),
        Vec4::new(dec(0), dec(4), dec(7), dec(1)),
    ];
    let aabb = AABB::from(&vertices);
    assert_eq!(aabb.min, Vec3::new(dec(-1), dec(2), dec(0)));
    assert_eq!(aabb.max, Vec3::new(dec(1), dec(5), dec(7)));
}

#[test]
fn aabb_of_a_single_vertex_is_that_vertex() {
    let vertices = vec![Vec4::new(dec(4), dec(-4), dec(2), dec(1))];
    let aabb = AABB::from(&vertices);
    assert_eq!(aabb.min, Vec3::new(dec(4), dec(-4), dec(2)));
    assert_eq!(aabb.max, Vec3::new(dec(4), dec(-4), dec(2)));
}

#[test]
fn identity_matrix_has_unit_diagonal() {
    let m = Mat4::identity();
    for i in 0..4 {
        for j in 0..4 {
            let expected = if i == j { dec(1) } else { dec(0) };
            assert_eq!(m.rows[i][j], expected);
        }
    }
}

#[test]
fn quaternion_and_cube_are_plain_values() {
    let q = Quaternion::new(dec(0), dec(0), dec(0), dec(1));
    assert_eq!(q, Quaternion::new(dec(0), dec(0), dec(0), dec(1)));
    assert_eq!(Cube::default(), Cube);
}
