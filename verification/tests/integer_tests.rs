use lattice_algebra::error::AlgebraError;
use lattice_algebra::lattice::span;
use lattice_algebra::lattice::Lattice;
use lattice_algebra::matrix::Matrix;
use lattice_algebra::scalar::Scalar;

fn mat(rows: Vec<Vec<i64>>) -> Matrix<i64> {
    Matrix::new(rows).expect("rectangular input")
}

#[test]
fn integer_determinant_is_exact() {
    let m = mat(vec![vec![71, 6], vec![-61, 2]]);
    assert_eq!(m.determinant().unwrap(), 71 * 2 - 6 * (-61));
    let m3 = mat(vec![vec![2, 0, 1], vec![1, 3, 2], vec![0, 5, 4]]);
    assert_eq!(m3.determinant().unwrap(), 9);
}

#[test]
fn integer_identity_is_unimodular_and_independent() {
    let id = Matrix::<i64>::identity(4);
    assert!(id.is_unimodular());
    assert!(id.check_independence());
    assert_eq!(Lattice::new(id, (-1, 2)).unwrap().get_volume(), 1);
}

#[test]
fn integer_lattice_volume_is_absolute_determinant() {
    let basis = mat(vec![vec![1, 6], vec![0, -36]]);
    assert_eq!(basis.determinant().unwrap(), -36);
    let lattice = Lattice::new(basis, (-1, 2)).expect("independent basis");
    assert_eq!(lattice.get_volume(), 36);
    let negative = mat(vec![vec![0, 1], vec![1, 0]]);
    assert_eq!(negative.determinant().unwrap(), -1);
    let lattice2 = Lattice::new(negative, (-1, 2)).expect("independent basis");
    assert_eq!(lattice2.get_volume(), 1);
}

#[test]
fn integer_span_is_exact() {
    let basis = mat(vec![vec![1, 0], vec![0, 1]]);
    let s = span(&basis, (-1, 2));
    assert_eq!(s.rows_num, 9);
    let rows: Vec<Vec<i64>> = (0..s.rows_num)
        .map(|i| (0..s.cols_num).map(|j| s.get(i, j)).collect())
        .collect();
    for x in -1..2i64 {
        for y in -1..2i64 {
            assert!(rows.contains(&vec![x, y]), "missing ({}, {})", x, y);
        }
    }
}

#[test]
fn integer_dependent_rows_are_rejected() {
    let basis = mat(vec![vec![1, 0], vec![1, 0]]);
    assert_eq!(Lattice::new(basis, (-1, 2)).unwrap_err(), AlgebraError::DependentBasis);
}

#[test]
fn integer_division_truncates_toward_zero() {
    assert_eq!(7i64.div_val(2), 3);
    assert_eq!((-7i64).div_val(2), -3);
    assert_eq!(7i64.div_val(-2), -3);
    assert_eq!(5i64.div_val(0), 0);
}

#[test]
fn integer_square_root_is_the_floor_root() {
    assert_eq!(0i64.sqrt_val(), 0);
    assert_eq!(1i64.sqrt_val(), 1);
    assert_eq!(15i64.sqrt_val(), 3);
    assert_eq!(16i64.sqrt_val(), 4);
    assert_eq!(1_000_000i64.sqrt_val(), 1000);
    assert_eq!((-9i64).sqrt_val(), 0);
}

#[test]
fn integer_abs_and_neg() {
    assert_eq!((-5i64).abs_val(), 5);
    assert_eq!(5i64.abs_val(), 5);
    assert_eq!(5i64.neg_val(), -5);
    assert_eq!(i64::MIN.abs_val(), i64::MIN);
}
