use vstd::prelude::*;

pub mod determinant;
pub mod expansion;
pub mod laws;
pub mod matrix;
pub mod model;
pub mod transpose;

verus! {

/// The ways a matrix operation can fail. All three are caller errors,
/// detectable from the inputs alone.
#[derive(Clone, Copy, Debug, PartialEq, Eq, Structural)]
pub enum MatrixError {
    /// An index lies outside the matrix's declared shape.
    OutOfBounds,
    /// An elementwise operation was given two matrices of unequal shape,
    /// or a product was requested with incompatible inner dimensions.
    ShapeMismatch,
    /// A determinant was requested of a non-square matrix.
    NotSquare,
}

} // verus!
