//! The ways in which a command or a dispatch can fail.

use vstd::prelude::*;

verus! {

/// Why a command was rejected, or why an event could not be delivered.
#[derive(Debug, Clone, Copy, PartialEq, Eq, Structural)]
pub enum SequencerError {
    /// No sequence has the given id.
    NotFound,
    /// The step index is not below the pattern's length.
    OutOfRange,
    /// The pitch or the velocity is above 127.
    InvalidNote,
    /// The destination that the sequence resolves to accepts no events.
    OutputUnavailable,
}

/// The result that stands for an optional failure.
pub open spec fn outcome(failure: Option<SequencerError>) -> Result<(), SequencerError> {
    match failure {
        Some(e) => Err(e),
        None => Ok(()),
    }
}

} // verus!
