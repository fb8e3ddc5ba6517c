use vstd::prelude::*;

verus! {

/// Identifies the arithmetic backend of a build.
#[derive(Clone, Copy, Debug, PartialEq, Eq, Structural)]
pub enum NumericalBackend {
    Float64,
    ExactReference,
}

/// The backend of this library: every time composition and scaled multiply/divide is exact integer
/// arithmetic, checked for overflow.
pub const NUMERICAL_BACKEND: NumericalBackend = NumericalBackend::ExactReference;

} // verus!
