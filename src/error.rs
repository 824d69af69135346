//! Why a triangulation was refused.
use vstd::prelude::*;

verus! {

/// The ways in which an input point set is refused.
#[derive(Clone, Copy, Debug, PartialEq, Eq, Structural)]
pub enum TriangulationError {
    /// Three points that were to form a triangle lie on one line.
    DegenerateInput,
    /// Fewer than three points were given.
    InsufficientPoints,
    /// The same point was given twice.
    CoincidentPoint,
    /// A coordinate lies outside the range that the bounding triangle encloses.
    CoordinateOutOfRange,
}

} // verus!
