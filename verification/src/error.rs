use vstd::prelude::*;

verus! {

/// The failures the engine can signal.  Each operation's contract states
/// exactly which inputs produce which variant.
#[derive(Clone, Copy, Debug, PartialEq, Eq, Structural)]
pub enum AlgebraError {
    /// Ragged or empty construction input, or an operation applied to
    /// matrices whose dimensions do not fit it.
    Shape,
    /// A lattice was asked to accept a basis that fails the independence
    /// check.
    DependentBasis,
    /// A zero-norm vector reached a normalization or an orthogonalization
    /// step that must divide by its length.
    DegenerateVector,
}

} // verus!
