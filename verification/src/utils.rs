use vstd::prelude::*;

use crate::error::AlgebraError;
use crate::scalar::Scalar;

verus! {

/// Every component of `v` multiplied by the element standing for the integer
/// coefficient `z`.
pub open spec fn scale_vec_spec<T: Scalar>(z: int, v: Seq<T>) -> Seq<T> {
    Seq::new(v.len(), |k: int| v[k].mul_spec(T::from_int_spec(z)))
}

/// Componentwise sum of two equal-length vectors.
pub open spec fn add_vec_spec<T: Scalar>(a: Seq<T>, b: Seq<T>) -> Seq<T> {
    Seq::new(a.len(), |k: int| a[k].add_spec(b[k]))
}

/// The first `k` terms of the dot product: the sum, in component order and
/// started from the type's zero, of `a[k] * b[k]`.
pub open spec fn dot_partial_spec<T: Scalar>(a: Seq<T>, b: Seq<T>, k: int) -> T
    decreases k,
{
    if k <= 0 {
        T::zero_spec()
    } else {
        dot_partial_spec(a, b, k - 1).add_spec(a[k - 1].mul_spec(b[k - 1]))
    }
}

/// The dot product of two equal-length vectors.
pub open spec fn dot_spec<T: Scalar>(a: Seq<T>, b: Seq<T>) -> T {
    dot_partial_spec(a, b, a.len() as int)
}

/// The Euclidean norm as the element type computes it: the square root of
/// the vector's dot product with itself.
pub open spec fn norm_spec<T: Scalar>(v: Seq<T>) -> T {
    dot_spec(v, v).sqrt_spec()
}

/// Every component of `v` divided by the norm of `v`.
pub open spec fn normalize_spec<T: Scalar>(v: Seq<T>) -> Seq<T> {
    Seq::new(v.len(), |k: int| v[k].div_spec(norm_spec(v)))
}

/// A new vector with every component of `v` multiplied by the scalar
/// coefficient.
pub fn scal_mul_vec<T: Scalar>(scalar: i32, v: &Vec<T>) -> (r: Vec<T>)
    ensures
        r@ == scale_vec_spec(scalar as int, v@),
{
    let factor = T::from_int_val(scalar);
    let mut r: Vec<T> = Vec::new();
    let mut k: usize = 0;
    while k < v.len()
        invariant
            k <= v@.len(),
            factor == T::from_int_spec(scalar as int),
            r@.len() == k,
            forall|k2: int| 0 <= k2 < k ==> #[trigger] r@[k2] == v@[k2].mul_spec(factor),
        decreases v@.len() - k,
    {
        r.push(v[k].mul_val(factor));
        k += 1;
    }
    assert(r@ =~= scale_vec_spec(scalar as int, v@));
    r
}

/// The dot product of two vectors of the same length.
pub fn dot_prod_vecs<T: Scalar>(a: &Vec<T>, b: &Vec<T>) -> (r: T)
    requires
        a@.len() == b@.len(),
    ensures
        r == dot_spec(a@, b@),
{
    let mut acc = T::zero_val();
    let mut k: usize = 0;
    while k < a.len()
        invariant
            a@.len() == b@.len(),
            k <= a@.len(),
            acc == dot_partial_spec(a@, b@, k as int),
        decreases a@.len() - k,
    {
        acc = acc.add_val(a[k].mul_val(b[k]));
        k += 1;
    }
    acc
}

/// The componentwise sum of two vectors of the same length.
pub fn add_vecs<T: Scalar>(a: &Vec<T>, b: &Vec<T>) -> (r: Vec<T>)
    requires
        a@.len() == b@.len(),
    ensures
        r@ == add_vec_spec(a@, b@),
{
    let mut r: Vec<T> = Vec::new();
    let mut k: usize = 0;
    while k < a.len()
        invariant
            a@.len() == b@.len(),
            k <= a@.len(),
            r@.len() == k,
            forall|k2: int| 0 <= k2 < k ==> #[trigger] r@[k2] == a@[k2].add_spec(b@[k2]),
        decreases a@.len() - k,
    {
        r.push(a[k].add_val(b[k]));
        k += 1;
    }
    assert(r@ =~= add_vec_spec(a@, b@));
    r
}

/// Divide every component of `v` by the vector's Euclidean norm, in place.
/// Fails with a degenerate-vector error, leaving `v` untouched, exactly when
/// the norm is the element type's zero.
pub fn normalize_vec<T: Scalar>(v: &mut Vec<T>) -> (r: Result<(), AlgebraError>)
    ensures
        norm_spec(old(v)@).eq_spec(T::zero_spec()) ==> {
            &&& r == Err::<(), AlgebraError>(AlgebraError::DegenerateVector)
            &&& final(v)@ == old(v)@
        },
        !norm_spec(old(v)@).eq_spec(T::zero_spec()) ==> {
            &&& r == Ok::<(), AlgebraError>(())
            &&& final(v)@ == normalize_spec(old(v)@)
        },
{
    let norm = dot_prod_vecs(v, v).sqrt_val();
    if norm.eq_val(T::zero_val()) {
        return Err(AlgebraError::DegenerateVector);
    }
    let mut scaled: Vec<T> = Vec::new();
    let mut k: usize = 0;
    while k < v.len()
        invariant
            norm == norm_spec(v@),
            k <= v@.len(),
            scaled@.len() == k,
            forall|k2: int| 0 <= k2 < k ==> #[trigger] scaled@[k2] == v@[k2].div_spec(norm),
        decreases v@.len() - k,
    {
        scaled.push(v[k].div_val(norm));
        k += 1;
    }
    assert(scaled@ =~= normalize_spec(v@));
    *v = scaled;
    Ok(())
}

} // verus!
