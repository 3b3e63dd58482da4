use fixed_matrix::matrix::Matrix;
use fixed_matrix::scalar::Scalar;

fn s(n: i64) -> Scalar {
    Scalar::from_int(n)
}

fn q(n: i64, d: i64) -> Scalar {
    Scalar::new(n, d).unwrap()
}

fn m2(e: [[i64; 2]; 2]) -> Matrix<2, 2> {
    let rows = e.iter().map(|r| r.iter().map(|&v| s(v)).collect()).collect();
    Matrix::from_entries(rows).unwrap()
}

fn m3(e: [[i64; 3]; 3]) -> Matrix<3, 3> {
    let rows = e.iter().map(|r| r.iter().map(|&v| s(v)).collect()).collect();
    Matrix::from_entries(rows).unwrap()
}

#[test]
fn scalar_arithmetic_is_exact() {
    let half = q(1, 2);
    let third = q(1, 3);
    assert!(half.add(third).eqv(q(5, 6)));
    assert!(half.sub(third).eqv(q(1, 6)));
    assert!(half.mul(third).eqv(q(1, 6)));
    assert!(half.div(third).eqv(q(3, 2)));
    assert!(q(2, 4).eqv(half));
    assert!(!q(2, 4).eqv(third));
}

#[test]
fn scalar_new_rejects_nonpositive_denominator() {
    assert!(Scalar::new(1, 0).is_none());
    assert!(Scalar::new(1, -2).is_none());
    assert!(Scalar::new(-7, 3).is_some());
}

#[test]
fn zero_matrix_is_all_zeros() {
    let z: Matrix<2, 3> = Matrix::new();
    for i in 0..2 {
        for j in 0..3 {
            assert_eq!(z.get(i, j), s(0));
        }
    }
}

#[test]
fn identity_fills_leading_diagonal_block() {
    let id: Matrix<2, 3> = Matrix::ident();
    for i in 0..2 {
        for j in 0..3 {
            assert_eq!(id.get(i, j), if i == j { s(1) } else { s(0) });
        }
    }
}

#[test]
fn from_entries_rejects_wrong_shape() {
    let short: Vec<Vec<Scalar>> = vec![vec![s(1), s(2)]];
    assert!(Matrix::<2, 2>::from_entries(short).is_none());
    let ragged: Vec<Vec<Scalar>> = vec![vec![s(1), s(2)], vec![s(3)]];
    assert!(Matrix::<2, 2>::from_entries(ragged).is_none());
}

#[test]
fn from_entries_rejects_malformed_scalar() {
    let bad = Scalar { num: 1, den: 0 };
    let rows: Vec<Vec<Scalar>> = vec![vec![s(1), bad]];
    assert!(Matrix::<1, 2>::from_entries(rows).is_none());
}

#[test]
fn transpose_swaps_rows_and_columns() {
    let a: Matrix<2, 3> =
        Matrix::from_entries(vec![vec![s(1), s(2), s(3)], vec![s(4), s(5), s(6)]]).unwrap();
    let t = a.transpose();
    for i in 0..2 {
        for j in 0..3 {
            assert_eq!(t.get(j, i), a.get(i, j));
        }
    }
}

#[test]
fn transpose_twice_restores_the_matrix() {
    let a: Matrix<2, 3> =
        Matrix::from_entries(vec![vec![s(1), s(2), s(3)], vec![s(4), s(5), s(6)]]).unwrap();
    let back = a.transpose().transpose();
    for i in 0..2 {
        for j in 0..3 {
            assert_eq!(back.get(i, j), a.get(i, j));
        }
    }
}

#[test]
fn add_is_commutative() {
    let a = m2([[1, 2], [3, 4]]);
    let b = m2([[5, -6], [7, 8]]);
    let ab = a.add(&b);
    let ba = b.add(&a);
    assert!(ab.eqv(&ba));
    assert_eq!(ab.get(0, 1), s(-4));
}

#[test]
fn add_zero_changes_nothing() {
    let a = m2([[1, 2], [3, 4]]);
    let z: Matrix<2, 2> = Matrix::new();
    assert!(a.add(&z).eqv(&a));
}

#[test]
fn sub_undoes_add() {
    let a = m2([[1, 2], [3, 4]]);
    let b = m2([[5, 6], [7, 9]]);
    assert!(a.add(&b).sub(&b).eqv(&a));
    assert_eq!(a.sub(&b).get(1, 1), s(-5));
}

#[test]
fn add_assign_matches_add() {
    let mut a = m2([[1, 2], [3, 4]]);
    let b = m2([[10, 20], [30, 40]]);
    let expected = a.add(&b);
    a.add_assign(&b);
    assert!(a.eqv(&expected));
}

#[test]
fn sub_assign_matches_sub() {
    let mut a = m2([[1, 2], [3, 4]]);
    let b = m2([[10, 20], [30, 40]]);
    let expected = a.sub(&b);
    a.sub_assign(&b);
    assert!(a.eqv(&expected));
}

#[test]
fn multiply_computes_the_standard_product() {
    let a: Matrix<2, 3> =
        Matrix::from_entries(vec![vec![s(1), s(2), s(3)], vec![s(4), s(5), s(6)]]).unwrap();
    let b: Matrix<3, 2> =
        Matrix::from_entries(vec![vec![s(7), s(8)], vec![s(9), s(10)], vec![s(11), s(12)]])
            .unwrap();
    let p = a.mul(&b);
    assert!(p.get(0, 0).eqv(s(58)));
    assert!(p.get(0, 1).eqv(s(64)));
    assert!(p.get(1, 0).eqv(s(139)));
    assert!(p.get(1, 1).eqv(s(154)));
}

#[test]
fn multiply_identity_left_changes_nothing() {
    let a: Matrix<2, 3> =
        Matrix::from_entries(vec![vec![s(1), s(2), s(3)], vec![s(4), s(5), s(6)]]).unwrap();
    let id: Matrix<2, 2> = Matrix::ident();
    assert!(id.mul(&a).eqv(&a));
}

#[test]
fn multiply_identity_right_changes_nothing() {
    let a: Matrix<2, 3> =
        Matrix::from_entries(vec![vec![s(1), s(2), s(3)], vec![s(4), s(5), s(6)]]).unwrap();
    let id: Matrix<3, 3> = Matrix::ident();
    assert!(a.mul(&id).eqv(&a));
}

#[test]
fn multiply_is_associative() {
    let a = m2([[1, 2], [3, 4]]);
    let b = m2([[5, 6], [7, 8]]);
    let c = m2([[-1, 2], [3, -4]]);
    let left = a.mul(&b).mul(&c);
    let right = a.mul(&b.mul(&c));
    assert!(left.eqv(&right));
}

#[test]
fn multiply_is_not_commutative() {
    let a = m2([[1, 1], [0, 1]]);
    let b = m2([[1, 0], [1, 1]]);
    assert!(!a.mul(&b).eqv(&b.mul(&a)));
}

#[test]
fn inverse_round_trips_to_identity() {
    let a = m3([[2, 1, 0], [1, 3, 1], [0, 1, 4]]);
    let inv = a.inverse().unwrap();
    let id: Matrix<3, 3> = Matrix::ident();
    assert!(a.mul(&inv).eqv(&id));
    assert!(inv.mul(&a).eqv(&id));
}

#[test]
fn inverse_of_identity_is_identity() {
    let id: Matrix<3, 3> = Matrix::ident();
    let inv = id.inverse().unwrap();
    assert!(inv.eqv(&id));
}

#[test]
fn inverse_halves_a_doubling() {
    let a = m2([[2, 0], [0, 2]]);
    let inv = a.inverse().unwrap();
    assert!(inv.get(0, 0).eqv(q(1, 2)));
    assert!(inv.get(1, 1).eqv(q(1, 2)));
    assert!(inv.get(0, 1).eqv(s(0)));
    assert!(inv.get(1, 0).eqv(s(0)));
}

#[test]
fn inverse_zero_pivot_is_singular_without_exchange() {
    // invertible as a matrix, but the non-pivoting elimination stops at the
    // zero in the top-left corner
    let a = m2([[0, 1], [1, 0]]);
    assert!(a.inverse().is_none());
}

#[test]
fn inverse_of_degenerate_matrix_is_none() {
    let a = m2([[1, 1], [1, 1]]);
    assert!(a.inverse().is_none());
}

#[test]
fn inverse_with_fraction_entries_is_exact() {
    let rows: Vec<Vec<Scalar>> = vec![vec![q(1, 2), s(0)], vec![s(1), q(3, 4)]];
    let a: Matrix<2, 2> = Matrix::from_entries(rows).unwrap();
    let inv = a.inverse().unwrap();
    let id: Matrix<2, 2> = Matrix::ident();
    assert!(a.mul(&inv).eqv(&id));
}
