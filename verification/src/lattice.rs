use vstd::prelude::*;

use crate::error::AlgebraError;
use crate::matrix::det_spec;
use crate::matrix::independent_spec;
use crate::matrix::rows_view;
use crate::matrix::Matrix;
use crate::scalar::Scalar;
use crate::utils::add_vec_spec;
use crate::utils::add_vecs;
use crate::utils::scal_mul_vec;
use crate::utils::scale_vec_spec;

verus! {

/// Two vectors of equal length whose components are pairwise equal under the
/// element type's own equality test.
pub open spec fn vec_eq_spec<T: Scalar>(a: Seq<T>, b: Seq<T>) -> bool {
    a.len() == b.len() && forall|k: int| 0 <= k < a.len() ==> a[k].eq_spec(b[k])
}

/// Some row of `rows` equals `v` under the element type's equality.
pub open spec fn rows_contain_spec<T: Scalar>(rows: Seq<Seq<T>>, v: Seq<T>) -> bool {
    exists|i: int| 0 <= i < rows.len() && vec_eq_spec(#[trigger] rows[i], v)
}

/// The zero vector of `n` components.
pub open spec fn zero_vec_spec<T: Scalar>(n: int) -> Seq<T> {
    Seq::new(n as nat, |k: int| T::zero_spec())
}

/// One pass over the accumulated points for one displacement `addv`: walk
/// the accumulated rows from index `s` on, and append each sum `point +
/// addv` to the staging rows unless an equal point already stands in the
/// accumulated rows or in the staging rows.
pub open spec fn span_stage_spec<T: Scalar>(
    acc: Seq<Seq<T>>,
    staging: Seq<Seq<T>>,
    addv: Seq<T>,
    s: int,
) -> Seq<Seq<T>>
    decreases acc.len() - s,
{
    if s < 0 || s >= acc.len() {
        staging
    } else {
        let v = add_vec_spec(acc[s], addv);
        let staging2 = if rows_contain_spec(acc, v) || rows_contain_spec(staging, v) {
            staging
        } else {
            staging.push(v)
        };
        span_stage_spec(acc, staging2, addv, s + 1)
    }
}

/// The staging rows gathered for one basis vector over the half-open
/// coefficient range `z .. z_right`, coefficient by coefficient.
pub open spec fn span_coeffs_spec<T: Scalar>(
    acc: Seq<Seq<T>>,
    staging: Seq<Seq<T>>,
    base: Seq<T>,
    z: int,
    z_right: int,
) -> Seq<Seq<T>>
    decreases z_right - z,
{
    if z >= z_right {
        staging
    } else {
        span_coeffs_spec(
            acc,
            span_stage_spec(acc, staging, scale_vec_spec(z, base), 0),
            base,
            z + 1,
            z_right,
        )
    }
}

/// The accumulated point rows after the first `b` basis vectors have been
/// processed, starting from the single-point set holding the origin.
pub open spec fn span_acc_spec<T: Scalar>(
    basis: Seq<Seq<T>>,
    z_left: int,
    z_right: int,
    b: int,
) -> Seq<Seq<T>>
    decreases b,
{
    if b <= 0 {
        seq![zero_vec_spec::<T>(basis.len() as int)]
    } else {
        let acc = span_acc_spec(basis, z_left, z_right, b - 1);
        acc + span_coeffs_spec(acc, Seq::empty(), basis[b - 1], z_left, z_right)
    }
}

/// The rows of the bounded span: every point the generation process emits,
/// in insertion order, for integer coefficients from the half-open range
/// `z_left .. z_right`.
pub open spec fn span_spec<T: Scalar>(basis: Seq<Seq<T>>, z_left: int, z_right: int) -> Seq<
    Seq<T>,
> {
    span_acc_spec(basis, z_left, z_right, basis.len() as int)
}

/// No row of `rows` equals a later row under the element type's equality.
pub open spec fn pairwise_distinct_spec<T: Scalar>(rows: Seq<Seq<T>>) -> bool {
    forall|i: int, j: int|
        #![trigger rows[i], rows[j]]
        0 <= i < j < rows.len() ==> !vec_eq_spec(rows[i], rows[j])
}

/// One staging pass keeps the accumulated and staging rows free of
/// duplicates: a point enters the staging rows only when no equal point
/// stands anywhere yet.
proof fn lemma_span_stage_distinct<T: Scalar>(
    acc: Seq<Seq<T>>,
    staging: Seq<Seq<T>>,
    addv: Seq<T>,
    s: int,
)
    requires
        pairwise_distinct_spec(acc + staging),
    ensures
        pairwise_distinct_spec(acc + span_stage_spec(acc, staging, addv, s)),
    decreases acc.len() - s,
{
    if 0 <= s < acc.len() {
        let v = add_vec_spec(acc[s], addv);
        if !(rows_contain_spec(acc, v) || rows_contain_spec(staging, v)) {
            let pushed = staging.push(v);
            assert(acc + pushed =~= (acc + staging).push(v));
            let whole = (acc + staging).push(v);
            assert forall|i: int, j: int|
                #![trigger whole[i], whole[j]]
                0 <= i < j < whole.len() implies !vec_eq_spec(whole[i], whole[j]) by {
                if j < whole.len() - 1 {
                    assert(whole[i] == (acc + staging)[i]);
                    assert(whole[j] == (acc + staging)[j]);
                } else {
                    assert(whole[j] == v);
                    if i < acc.len() {
                        assert(whole[i] == acc[i]);
                        assert(!vec_eq_spec(acc[i], v));
                    } else {
                        assert(whole[i] == staging[i - acc.len()]);
                        assert(!vec_eq_spec(staging[i - acc.len()], v));
                    }
                }
            }
            lemma_span_stage_distinct(acc, pushed, addv, s + 1);
        } else {
            lemma_span_stage_distinct(acc, staging, addv, s + 1);
        }
    }
}

/// A whole coefficient pass keeps the accumulated and staging rows free of
/// duplicates.
proof fn lemma_span_coeffs_distinct<T: Scalar>(
    acc: Seq<Seq<T>>,
    staging: Seq<Seq<T>>,
    base: Seq<T>,
    z: int,
    z_right: int,
)
    requires
        pairwise_distinct_spec(acc + staging),
    ensures
        pairwise_distinct_spec(acc + span_coeffs_spec(acc, staging, base, z, z_right)),
    decreases z_right - z,
{
    if z < z_right {
        lemma_span_stage_distinct(acc, staging, scale_vec_spec(z, base), 0);
        lemma_span_coeffs_distinct(
            acc,
            span_stage_spec(acc, staging, scale_vec_spec(z, base), 0),
            base,
            z + 1,
            z_right,
        );
    }
}

/// The accumulated rows stay free of duplicates through every basis vector.
proof fn lemma_span_acc_distinct<T: Scalar>(
    basis: Seq<Seq<T>>,
    z_left: int,
    z_right: int,
    b: int,
)
    ensures
        pairwise_distinct_spec(span_acc_spec(basis, z_left, z_right, b)),
    decreases b,
{
    if b <= 0 {
        assert(span_acc_spec(basis, z_left, z_right, b).len() == 1);
    } else {
        lemma_span_acc_distinct(basis, z_left, z_right, b - 1);
        let acc = span_acc_spec(basis, z_left, z_right, b - 1);
        assert(acc + Seq::<Seq<T>>::empty() =~= acc);
        lemma_span_coeffs_distinct(acc, Seq::empty(), basis[b - 1], z_left, z_right);
    }
}

/// The bounded span never holds two rows that are equal under the element
/// type's equality: deduplication is complete, for every basis, every
/// coefficient range and every element type.
pub proof fn lemma_span_no_duplicates<T: Scalar>(basis: Seq<Seq<T>>, z_left: int, z_right: int)
    ensures
        pairwise_distinct_spec(span_spec(basis, z_left, z_right)),
{
    lemma_span_acc_distinct(basis, z_left, z_right, basis.len() as int);
}

/// Whether the two vectors are equal under the element type's equality.
fn vec_eq_exec<T: Scalar>(a: &Vec<T>, b: &Vec<T>) -> (r: bool)
    ensures
        r == vec_eq_spec(a@, b@),
{
    if a.len() != b.len() {
        return false;
    }
    let mut k: usize = 0;
    while k < a.len()
        invariant
            a@.len() == b@.len(),
            k <= a@.len(),
            forall|k2: int| 0 <= k2 < k ==> #[trigger] a@[k2].eq_spec(b@[k2]),
        decreases a@.len() - k,
    {
        if !a[k].eq_val(b[k]) {
            return false;
        }
        k += 1;
    }
    true
}

/// Whether some row of `rows` equals `v` under the element type's equality.
fn contains_vec<T: Scalar>(rows: &Vec<Vec<T>>, v: &Vec<T>) -> (r: bool)
    ensures
        r == rows_contain_spec(rows_view(rows@), v@),
{
    let mut i: usize = 0;
    while i < rows.len()
        invariant
            i <= rows@.len(),
            forall|i2: int| 0 <= i2 < i ==> !vec_eq_spec(#[trigger] rows_view(rows@)[i2], v@),
        decreases rows@.len() - i,
    {
        if vec_eq_exec(&rows[i], v) {
            proof {
                assert(vec_eq_spec(rows_view(rows@)[i as int], v@));
            }
            return true;
        }
        i += 1;
    }
    false
}

/// The set of integer combinations of the basis rows with coefficients from
/// the half-open range `z_range.0 .. z_range.1`, generated from the origin
/// one basis vector at a time and deduplicated by the element type's exact
/// equality; the origin always belongs to the result.
pub fn span<T: Scalar>(basis: &Matrix<T>, z_range: (i32, i32)) -> (r: Matrix<T>)
    requires
        basis.well_formed(),
        basis.rows_num == basis.cols_num,
    ensures
        r.well_formed(),
        r.cols_num == basis.cols_num,
        r@ == span_spec(basis@, z_range.0 as int, z_range.1 as int),
{
    let z_left = z_range.0;
    let z_right = z_range.1;
    let dimension = basis.rows_num;
    let ghost zl = z_left as int;
    let ghost zr = z_right as int;
    let mut origin: Vec<T> = Vec::new();
    let mut k: usize = 0;
    while k < dimension
        invariant
            k <= dimension,
            origin@.len() == k,
            forall|k2: int| 0 <= k2 < k ==> #[trigger] origin@[k2] == T::zero_spec(),
        decreases dimension - k,
    {
        origin.push(T::zero_val());
        k += 1;
    }
    proof {
        assert(origin@ =~= zero_vec_spec::<T>(dimension as int));
    }
    let mut span_points: Vec<Vec<T>> = Vec::new();
    span_points.push(origin);
    proof {
        assert(rows_view(span_points@) =~= span_acc_spec(basis@, zl, zr, 0));
    }
    let mut b: usize = 0;
    while b < dimension
        invariant
            basis.well_formed(),
            basis.rows_num == dimension,
            basis.cols_num == dimension,
            zl == z_left as int,
            zr == z_right as int,
            b <= dimension,
            span_points@.len() >= 1,
            forall|i: int| 0 <= i < span_points@.len() ==> (#[trigger] span_points@[i])@.len() == dimension,
            rows_view(span_points@) == span_acc_spec(basis@, zl, zr, b as int),
        decreases dimension - b,
    {
        let mut base: Vec<T> = Vec::new();
        let mut k2: usize = 0;
        while k2 < dimension
            invariant
                basis.well_formed(),
                basis.rows_num == dimension,
                basis.cols_num == dimension,
                b < dimension,
                k2 <= dimension,
                base@ == basis@[b as int].subrange(0, k2 as int),
            decreases dimension - k2,
        {
            base.push(basis.get(b, k2));
            proof {
                assert(base@ =~= basis@[b as int].subrange(0, k2 as int + 1));
            }
            k2 += 1;
        }
        proof {
            assert(basis@[b as int].subrange(0, dimension as int) =~= basis@[b as int]);
        }
        let ghost acc0 = rows_view(span_points@);
        let mut add_span: Vec<Vec<T>> = Vec::new();
        proof {
            assert(rows_view(add_span@) =~= Seq::<Seq<T>>::empty());
        }
        let mut z: i32 = z_left;
        while z < z_right
            invariant
                basis.well_formed(),
                basis.rows_num == dimension,
                basis.cols_num == dimension,
                b < dimension,
                base@ == basis@[b as int],
                zl == z_left as int,
                zr == z_right as int,
                z_left <= z,
                z as int <= zr || z == z_left,
                span_points@.len() >= 1,
                forall|i: int|
                    0 <= i < span_points@.len() ==> (#[trigger] span_points@[i])@.len()
                        == dimension,
                forall|i: int|
                    0 <= i < add_span@.len() ==> (#[trigger] add_span@[i])@.len() == dimension,
                acc0 == rows_view(span_points@),
                span_coeffs_spec(acc0, Seq::empty(), base@, zl, zr) == span_coeffs_spec(
                    acc0,
                    rows_view(add_span@),
                    base@,
                    z as int,
                    zr,
                ),
            decreases zr - z,
        {
            let add_vec = scal_mul_vec(z, &base);
            let ghost staging0 = rows_view(add_span@);
            let ghost addv = scale_vec_spec(z as int, base@);
            let mut s: usize = 0;
            while s < span_points.len()
                invariant
                    b < dimension,
                    s <= span_points@.len(),
                    add_vec@ == addv,
                    addv.len() == dimension,
                    forall|i: int|
                        0 <= i < span_points@.len() ==> (#[trigger] span_points@[i])@.len()
                            == dimension,
                    forall|i: int|
                        0 <= i < add_span@.len() ==> (#[trigger] add_span@[i])@.len() == dimension,
                    acc0 == rows_view(span_points@),
                    span_stage_spec(acc0, staging0, addv, 0) == span_stage_spec(
                        acc0,
                        rows_view(add_span@),
                        addv,
                        s as int,
                    ),
                decreases span_points@.len() - s,
            {
                let v = add_vecs(&span_points[s], &add_vec);
                proof {
                    assert(span_points@[s as int]@ == acc0[s as int]);
                    assert(v@ == add_vec_spec(acc0[s as int], addv));
                }
                let in_acc = contains_vec(&span_points, &v);
                let in_staging = contains_vec(&add_span, &v);
                if !in_acc && !in_staging {
                    proof {
                        assert(rows_view(add_span@.push(v)) =~= rows_view(add_span@).push(v@));
                    }
                    add_span.push(v);
                }
                s += 1;
            }
            proof {
                assert(span_stage_spec(acc0, staging0, addv, 0) == rows_view(add_span@));
                assert(span_coeffs_spec(acc0, staging0, base@, z as int, zr) == span_coeffs_spec(
                    acc0,
                    rows_view(add_span@),
                    base@,
                    z as int + 1,
                    zr,
                ));
            }
            z += 1;
        }
        proof {
            assert(span_coeffs_spec(acc0, rows_view(add_span@), base@, z as int, zr) == rows_view(
                add_span@,
            ));
            assert(rows_view(add_span@) == span_coeffs_spec(acc0, Seq::empty(), base@, zl, zr));
            assert(rows_view(span_points@ + add_span@) =~= rows_view(span_points@) + rows_view(
                add_span@,
            ));
            assert(span_acc_spec(basis@, zl, zr, b as int + 1) == acc0 + span_coeffs_spec(
                acc0,
                Seq::empty(),
                basis@[b as int],
                zl,
                zr,
            ));
        }
        let mut add_span_moved = add_span;
        span_points.append(&mut add_span_moved);
        b += 1;
    }
    let r = match Matrix::new(span_points) {
        Ok(m) => m,
        Err(_) => {
            proof {
                assert(false);
            }
            Matrix::filled(1, 1, T::zero_val())
        },
    };
    r
}

/// A lattice: a basis matrix together with the point set it spans over a
/// bounded integer coefficient range.  The geometric quantities a caller
/// derives from it (volume, the Minkowski first-theorem bound) come from the
/// basis determinant.
#[derive(Debug)]
pub struct Lattice<T> {
    pub dimension: usize,
    pub basis: Matrix<T>,
    pub spanned_elements: Matrix<T>,
}

impl<T: Scalar> Lattice<T> {
    /// The shape invariant: a square, well-formed basis whose row count is
    /// the recorded dimension, and a well-formed spanned-point matrix.
    pub open spec fn well_formed(&self) -> bool {
        &&& self.basis.well_formed()
        &&& self.basis.rows_num == self.basis.cols_num
        &&& self.dimension == self.basis.rows_num
        &&& self.spanned_elements.well_formed()
    }

    /// Build a lattice from a square basis: compute the bounded span, then
    /// accept the basis only if the independence check passes, failing with
    /// a dependent-basis error otherwise (and exactly then).
    pub fn new(basis: Matrix<T>, z_range: (i32, i32)) -> (r: Result<Lattice<T>, AlgebraError>)
        requires
            basis.well_formed(),
            basis.rows_num == basis.cols_num,
        ensures
            match r {
                Ok(l) => {
                    &&& independent_spec(basis@, basis.rows_num as int, basis.cols_num as int)
                    &&& l.well_formed()
                    &&& l.dimension == basis.rows_num
                    &&& l.basis == basis
                    &&& l.spanned_elements@ == span_spec(
                        basis@,
                        z_range.0 as int,
                        z_range.1 as int,
                    )
                },
                Err(e) => {
                    &&& e == AlgebraError::DependentBasis
                    &&& !independent_spec(basis@, basis.rows_num as int, basis.cols_num as int)
                },
            },
    {
        let spanned_elements = span(&basis, z_range);
        if !basis.check_independence() {
            return Err(AlgebraError::DependentBasis);
        }
        let dimension = basis.rows_num;
        Ok(Lattice { dimension, basis, spanned_elements })
    }

    /// The lattice's covolume as the element type computes it: the absolute
    /// value of the basis determinant.
    pub fn get_volume(&self) -> (r: T)
        requires
            self.well_formed(),
        ensures
            r == det_spec(self.basis@).abs_spec(),
    {
        let det = match self.basis.determinant() {
            Ok(v) => v,
            Err(_) => T::zero_val(),
        };
        det.abs_val()
    }
}

} // verus!
