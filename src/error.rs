//! The ways a computation of this library can fail.
use vstd::prelude::*;

verus! {

#[derive(Clone, Copy, Debug, PartialEq, Eq, Structural)]
pub enum MathError {
    /// Invalid input: a series is empty.
    EmptySeries,
    /// Invalid input: two series that go together differ in length.
    LengthMismatch,
    /// All values of the domain are the same, so no line fits them.
    DegenerateInput,
    /// A quadratic has a negative discriminant.
    NoRealSolution,
    /// A series is empty or shorter than a moving-average window.
    InsufficientData,
    /// More moving-average windows were asked for than a chart holds.
    TooManyWindows,
    /// An intermediate value does not fit the number types.
    Overflow,
}

impl MathError {
    /// Whether this is one of the two invalid-input errors.
    pub fn is_invalid_input(&self) -> (r: bool)
        ensures
            r == (*self is EmptySeries || *self is LengthMismatch),
    {
        match self {
            MathError::EmptySeries => true,
            MathError::LengthMismatch => true,
            _ => false,
        }
    }

    /// A sentence that describes the error.
    pub fn message(&self) -> &'static str {
        match self {
            MathError::EmptySeries => "Insufficient series lengths",
            MathError::LengthMismatch => "Range length is not equal to domain length or vice versa",
            MathError::DegenerateInput => "All domain values are equal",
            MathError::NoRealSolution => "The discriminant is negative",
            MathError::InsufficientData => "Insufficient stock data series length",
            MathError::TooManyWindows => "Exceeded the limit of moving averages to plot",
            MathError::Overflow => "A value is out of range",
        }
    }
}

} // verus!
