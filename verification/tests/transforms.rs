use fixed_matrix::matrix::Matrix;
use fixed_matrix::scalar::Scalar;
use fixed_matrix::transform::Vec3;
use fixed_matrix::transform::Vec4;

fn s(n: i64) -> Scalar {
    Scalar::from_int(n)
}

fn v3(x: i64, y: i64, z: i64) -> Vec3 {
    Vec3::new(s(x), s(y), s(z))
}

#[test]
fn point_embeds_with_homogeneous_one() {
    let p = Matrix::point(v3(7, -8, 9));
    assert_eq!(p.get(0, 0), s(7));
    assert_eq!(p.get(0, 1), s(-8));
    assert_eq!(p.get(0, 2), s(9));
    assert_eq!(p.get(0, 3), s(1));
}

#[test]
fn vec3_from_point_extracts_coordinates() {
    let p = Matrix::point(v3(7, -8, 9));
    let back = Vec3::from_point(&p);
    assert_eq!(back, v3(7, -8, 9));
}

#[test]
fn translation_moves_the_origin() {
    let t = Matrix::translation(v3(1, 2, 3));
    let origin = Matrix::point(v3(0, 0, 0));
    let moved = origin.mul(&t);
    assert!(moved.get(0, 0).eqv(s(1)));
    assert!(moved.get(0, 1).eqv(s(2)));
    assert!(moved.get(0, 2).eqv(s(3)));
    assert!(moved.get(0, 3).eqv(s(1)));
}

#[test]
fn translations_compose_left_to_right() {
    let t1 = Matrix::translation(v3(1, 0, 0));
    let t2 = Matrix::translation(v3(0, 2, 0));
    let p = Matrix::point(v3(5, 5, 5));
    let moved = p.mul(&t1).mul(&t2);
    assert!(moved.get(0, 0).eqv(s(6)));
    assert!(moved.get(0, 1).eqv(s(7)));
    assert!(moved.get(0, 2).eqv(s(5)));
}

#[test]
fn scale_stretches_each_axis() {
    let sc = Matrix::scale(v3(2, 3, 4));
    let p = Matrix::point(v3(1, 1, 1));
    let out = p.mul(&sc);
    assert!(out.get(0, 0).eqv(s(2)));
    assert!(out.get(0, 1).eqv(s(3)));
    assert!(out.get(0, 2).eqv(s(4)));
    assert!(out.get(0, 3).eqv(s(1)));
}

#[test]
fn quarter_turn_about_z_sends_x_to_y() {
    // sine and cosine of a quarter turn are exactly 1 and 0
    let rot = Matrix::rotation(v3(0, 0, 1), s(1), s(0));
    let p = Matrix::point(v3(1, 0, 0));
    let out = p.mul(&rot);
    assert!(out.get(0, 0).eqv(s(0)));
    assert!(out.get(0, 1).eqv(s(1)));
    assert!(out.get(0, 2).eqv(s(0)));
    assert!(out.get(0, 3).eqv(s(1)));
}

#[test]
fn half_turn_about_z_negates_x_and_y() {
    // sine and cosine of a half turn are exactly 0 and -1
    let rot = Matrix::rotation(v3(0, 0, 1), s(0), s(-1));
    let p = Matrix::point(v3(2, 3, 4));
    let out = p.mul(&rot);
    assert!(out.get(0, 0).eqv(s(-2)));
    assert!(out.get(0, 1).eqv(s(-3)));
    assert!(out.get(0, 2).eqv(s(4)));
}

#[test]
fn rotation_by_zero_angle_is_identity() {
    let rot = Matrix::rotation(v3(0, 0, 1), s(0), s(1));
    let id: Matrix<4, 4> = Matrix::ident();
    assert!(rot.eqv(&id));
}

#[test]
fn axis_angle_tuple_matches_rotation() {
    // the fourth component of a Vec4 is the angle, not a homogeneous weight
    let v = Vec4::new(s(0), s(0), s(1), s(1));
    let from_tuple = Matrix::axis_angle(v, s(1), s(0));
    let direct = Matrix::rotation(v3(0, 0, 1), s(1), s(0));
    assert!(from_tuple.eqv(&direct));
}

#[test]
fn rotation_composes_with_translation() {
    let rot = Matrix::rotation(v3(0, 0, 1), s(1), s(0));
    let t = Matrix::translation(v3(10, 0, 0));
    let p = Matrix::point(v3(1, 0, 0));
    // rotate first, then translate
    let out = p.mul(&rot).mul(&t);
    assert!(out.get(0, 0).eqv(s(10)));
    assert!(out.get(0, 1).eqv(s(1)));
    assert!(out.get(0, 2).eqv(s(0)));
}
