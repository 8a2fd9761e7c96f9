use vstd::prelude::*;

verus! {

/// Why a calibration could not be solved.
#[derive(Clone, Copy, Debug, PartialEq, Eq, Structural)]
pub enum CalibrationError {
    /// No sample was ever ingested, so there is no mean field magnitude.
    EmptyInput,
    /// A matrix that has to be inverted is not invertible.
    SingularMatrix,
    /// A square root was asked of a negative number.
    NonPositiveDefinite,
    /// No largest eigenvalue can be told: a value is not a number.
    EigenvalueAmbiguity,
}

} // verus!
