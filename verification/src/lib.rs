//! Linear algebra for integer lattices, with verified contracts: dense
//! matrices (determinant by cofactor expansion, adjugate inverse, forward
//! Gaussian elimination, Gram-Schmidt orthogonalization) and the bounded
//! point set a basis spans, generic over the numeric element type through
//! the `Scalar` trait.

pub mod error;
pub mod lattice;
pub mod laws;
pub mod matrix;
pub mod scalar;
pub mod utils;
