//! The error kinds the simulation can report.

use vstd::prelude::*;

verus! {

/// Everything that can go wrong while building a board from user input.
#[derive(Debug, Clone, Copy, PartialEq, Eq, Structural)]
pub enum ConwayError {
    /// The input coordinate stream holds an odd number of integers: a
    /// trailing row is left without a column.
    IncompleteCoordinates,
    /// A coordinate, once parsed, falls outside the valid grid range.
    ParseError,
    /// An attempt to mark a cell alive outside the grid bounds.
    OutOfRange,
}

impl ConwayError {
    /// A human-readable description of the error.
    pub fn message(&self) -> (m: &'static str)
        ensures
            *self is ParseError ==> m@ =~= "Numbers provided were not unsigned integers in range of the board size"@,
            *self is IncompleteCoordinates ==> m@ =~= "Please provide complete coordinates (the number of inputs should be a multiple of 2)"@,
            *self is OutOfRange ==> m@ =~= "Coordinates outside the board cannot be made alive"@,
    {
        match self {
            ConwayError::ParseError => "Numbers provided were not unsigned integers in range of the board size",
            ConwayError::IncompleteCoordinates => "Please provide complete coordinates (the number of inputs should be a multiple of 2)",
            ConwayError::OutOfRange => "Coordinates outside the board cannot be made alive",
        }
    }
}

} // verus!
