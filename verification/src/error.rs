//! The faults that the engine reports.

use vstd::prelude::*;

verus! {

/// Why an operation of the engine could not be carried out.
#[derive(Clone, Copy, Debug, PartialEq, Eq, Structural)]
pub enum ReactorError {
    /// The node, slot or compute function that was asked for is not in the
    /// store: it was never there, or its owner has been razed.
    MissingDependency,
    /// The type tag of a handle differs from the tag under which the
    /// procedure was registered.
    DowncastMismatch,
    /// A view was asked to react before it was built.
    InvalidState,
    /// The change counter has reached its last value; no further write can
    /// be stamped.
    TickOverflow,
}

impl ReactorError {
    /// A short description of the fault.
    pub fn message(&self) -> (text: &'static str)
        ensures
            text@ == match *self {
                ReactorError::MissingDependency => "missing dependency"@,
                ReactorError::DowncastMismatch => "downcast failed"@,
                ReactorError::InvalidState => "invalid state"@,
                ReactorError::TickOverflow => "change tick overflow"@,
            },
    {
        match self {
            ReactorError::MissingDependency => "missing dependency",
            ReactorError::DowncastMismatch => "downcast failed",
            ReactorError::InvalidState => "invalid state",
            ReactorError::TickOverflow => "change tick overflow",
        }
    }
}

} // verus!
