use lattice_algebra::error::AlgebraError;
use lattice_algebra::lattice::span;
use lattice_algebra::lattice::Lattice;
use lattice_algebra::matrix::Matrix;
use lattice_algebra::scalar::Scalar;
use lattice_algebra::utils::add_vecs;
use lattice_algebra::utils::dot_prod_vecs;
use lattice_algebra::utils::normalize_vec;
use lattice_algebra::utils::scal_mul_vec;

/// A real number as the engine's element type: plain `f64` arithmetic,
/// exact comparison.
#[derive(Clone, Copy, Debug, PartialEq)]
struct R(f64);

impl Scalar for R {
    fn zero_val() -> R {
        R(0.0)
    }
    fn one_val() -> R {
        R(1.0)
    }
    fn add_val(self, rhs: R) -> R {
        R(self.0 + rhs.0)
    }
    fn sub_val(self, rhs: R) -> R {
        R(self.0 - rhs.0)
    }
    fn mul_val(self, rhs: R) -> R {
        R(self.0 * rhs.0)
    }
    fn div_val(self, rhs: R) -> R {
        R(self.0 / rhs.0)
    }
    fn neg_val(self) -> R {
        R(-self.0)
    }
    fn abs_val(self) -> R {
        R(self.0.abs())
    }
    fn sqrt_val(self) -> R {
        R(self.0.sqrt())
    }
    fn eq_val(self, rhs: R) -> bool {
        self.0 == rhs.0
    }
    fn from_int_val(z: i32) -> R {
        R(z as f64)
    }
}

fn mat(rows: Vec<Vec<f64>>) -> Matrix<R> {
    let wrapped: Vec<Vec<R>> = rows.into_iter().map(|r| r.into_iter().map(R).collect()).collect();
    Matrix::new(wrapped).expect("rectangular input")
}

fn point(m: &Matrix<R>, i: usize) -> Vec<f64> {
    (0..m.cols_num).map(|j| m.get(i, j).0).collect()
}

fn approx(a: f64, b: f64) {
    assert!((a - b).abs() < 1e-9, "{} differs from {}", a, b);
}

#[test]
fn span_with_only_zero_coefficient_is_origin() {
    let basis = mat(vec![vec![1.0, 0.0], vec![0.0, 1.0]]);
    let s = span(&basis, (0, 1));
    assert_eq!(s.rows_num, 1);
    assert_eq!(point(&s, 0), vec![0.0, 0.0]);
}

#[test]
fn span_with_empty_coefficient_range_is_origin() {
    let basis = mat(vec![vec![3.0, 4.0], vec![1.0, 2.0]]);
    let s = span(&basis, (5, 5));
    assert_eq!(s.rows_num, 1);
    assert_eq!(point(&s, 0), vec![0.0, 0.0]);
}

#[test]
fn span_of_unit_basis_is_the_full_grid() {
    let basis = mat(vec![vec![1.0, 0.0], vec![0.0, 1.0]]);
    let s = span(&basis, (-1, 2));
    assert_eq!(s.rows_num, 9);
    let mut expected: Vec<Vec<f64>> = Vec::new();
    for x in -1..2 {
        for y in -1..2 {
            expected.push(vec![x as f64, y as f64]);
        }
    }
    for e in &expected {
        assert!(
            (0..s.rows_num).any(|i| point(&s, i) == *e),
            "missing point {:?}",
            e
        );
    }
}

#[test]
fn span_has_no_duplicate_rows() {
    let basis = mat(vec![vec![1.0, 0.0], vec![1.0, 1.0]]);
    let s = span(&basis, (-2, 3));
    for i in 0..s.rows_num {
        for j in 0..s.rows_num {
            if i != j {
                assert_ne!(point(&s, i), point(&s, j), "rows {} and {} repeat", i, j);
            }
        }
    }
}

#[test]
fn lattice_scenario_determinant_and_volume() {
    let basis = mat(vec![vec![7.1, 0.6], vec![-6.1, 0.2]]);
    approx(basis.determinant().unwrap().0, 5.08);
    let lattice = Lattice::new(basis, (-2, 2)).expect("independent basis");
    approx(lattice.get_volume().0, 5.08);
    assert_eq!(lattice.dimension, 2);
}

#[test]
fn lattice_rejects_dependent_basis() {
    let basis = mat(vec![vec![1.0, 0.0], vec![1.0, 0.0]]);
    assert_eq!(Lattice::new(basis, (-2, 2)).unwrap_err(), AlgebraError::DependentBasis);
}

#[test]
fn lattice_keeps_its_basis_and_span() {
    let basis = mat(vec![vec![2.0, 0.0], vec![0.0, 3.0]]);
    let lattice = Lattice::new(basis, (0, 2)).expect("independent basis");
    assert_eq!(lattice.basis.rows_num, 2);
    let s = &lattice.spanned_elements;
    // origin, then (2,0), then (0,3) and (2,3)
    assert_eq!(s.rows_num, 4);
    assert_eq!(point(s, 0), vec![0.0, 0.0]);
    for e in [[2.0, 0.0], [0.0, 3.0], [2.0, 3.0]] {
        assert!((0..s.rows_num).any(|i| point(s, i) == e.to_vec()));
    }
}

#[test]
fn scal_mul_vec_scales_components() {
    let v = vec![R(1.5), R(-2.0)];
    let scaled = scal_mul_vec(3, &v);
    assert_eq!(scaled[0].0, 4.5);
    assert_eq!(scaled[1].0, -6.0);
}

#[test]
fn add_vecs_adds_componentwise() {
    let a = vec![R(1.0), R(2.0)];
    let b = vec![R(10.0), R(-2.0)];
    let sum = add_vecs(&a, &b);
    assert_eq!(sum[0].0, 11.0);
    assert_eq!(sum[1].0, 0.0);
}

#[test]
fn dot_prod_vecs_matches_formula() {
    let a = vec![R(1.0), R(2.0), R(3.0)];
    let b = vec![R(4.0), R(5.0), R(6.0)];
    assert_eq!(dot_prod_vecs(&a, &b).0, 32.0);
}

#[test]
fn normalize_vec_scales_to_unit_length() {
    let mut v = vec![R(3.0), R(4.0)];
    normalize_vec(&mut v).unwrap();
    approx(v[0].0, 0.6);
    approx(v[1].0, 0.8);
}

#[test]
fn normalize_vec_rejects_zero_vector() {
    let mut v = vec![R(0.0), R(0.0)];
    assert_eq!(normalize_vec(&mut v).unwrap_err(), AlgebraError::DegenerateVector);
    assert_eq!(v[0].0, 0.0);
    assert_eq!(v[1].0, 0.0);
}
