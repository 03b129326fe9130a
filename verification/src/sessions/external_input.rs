//! How the inputs of a session look from outside.

use vstd::prelude::*;
use crate::versioned_input::{
    InputProvenance, InputReplacementError, InputReplacementResult, VersionedInput,
};

verus! {

/// Where an input came from.
#[derive(Debug, Copy, Clone, PartialEq, Eq, Structural)]
pub enum ExternalInputProvenance {
    /// No input was given for the frame.
    Predicted,
    /// The input was given.
    Authoritative,
}

/// The input of a player for a frame, as it was at some point. It serves to name what
/// is to be replaced.
#[derive(Debug, Copy, PartialEq)]
pub struct ExternalInputState<I> {
    pub slot: VersionedInput<I>,
}

impl<I: Copy> Clone for ExternalInputState<I> {
    fn clone(&self) -> (r: Self)
        ensures
            r == *self,
    {
        *self
    }
}

impl<I: Copy> ExternalInputState<I> {
    /// The input.
    pub fn input(&self) -> (r: I)
        ensures
            r == self.slot.input,
    {
        self.slot.input
    }

    /// Where the input came from.
    pub fn provenance(&self) -> (r: ExternalInputProvenance)
        ensures
            r == (match self.slot.provenance {
                InputProvenance::Predicted => ExternalInputProvenance::Predicted,
                InputProvenance::Authoritative => ExternalInputProvenance::Authoritative,
            }),
    {
        match self.slot.provenance {
            InputProvenance::Predicted => ExternalInputProvenance::Predicted,
            InputProvenance::Authoritative => ExternalInputProvenance::Authoritative,
        }
    }
}

/// Why an input is not available.
#[derive(Debug, Copy, Clone, PartialEq, Eq, Structural)]
pub enum ExternalInputStateError {
    /// There is no such player.
    InvalidHandle,
    /// The frame number is not one that an input can have.
    InvalidFrame,
    /// The session does not have the input, or no longer.
    Unavailable,
}

/// What became of an accepted replacement, and the state that the input is in since.
#[derive(Debug, PartialEq)]
pub enum ExternalInputReplacement<I> {
    /// The input was replaced.
    Replaced(ExternalInputState<I>),
    /// The very same replacement had been made before.
    RetryNoOp(ExternalInputState<I>),
}

/// Why a past input was not replaced.
#[derive(Debug, Copy, Clone, PartialEq, Eq, Structural)]
pub enum ExternalInputReplacementError {
    /// There is no such player.
    InvalidHandle,
    /// The frame number is not one that an input can have.
    InvalidFrame,
    /// The frame has not been simulated yet.
    NotPast,
    /// The frame can no longer change.
    Finalized,
    /// The session cannot go back to the frame.
    SnapshotUnavailable,
    /// The session no longer has the input.
    InputUnavailable,
    /// The input is in another state than the one expected.
    ExpectedStateMismatch,
    /// The request contradicts the state of the input or an earlier request.
    Conflict,
    /// The input has been revised as often as can be counted.
    RevisionOverflow,
}

impl ExternalInputReplacementError {
    /// What the error stands for.
    pub open spec fn cause(self) -> InputReplacementError {
        match self {
            Self::InvalidHandle => InputReplacementError::InvalidHandle,
            Self::InvalidFrame => InputReplacementError::InvalidFrame,
            Self::NotPast => InputReplacementError::NotPast,
            Self::Finalized => InputReplacementError::Finalized,
            Self::SnapshotUnavailable => InputReplacementError::SnapshotOutOfRetention,
            Self::InputUnavailable => InputReplacementError::OutOfRetention,
            Self::ExpectedStateMismatch => InputReplacementError::ExpectedStateMismatch,
            Self::Conflict => InputReplacementError::Conflict,
            Self::RevisionOverflow => InputReplacementError::RevisionOverflow,
        }
    }

    /// The error that stands for `cause`.
    pub fn of(cause: InputReplacementError) -> (r: Self)
        ensures
            r.cause() == cause,
    {
        match cause {
            InputReplacementError::InvalidHandle => Self::InvalidHandle,
            InputReplacementError::InvalidFrame => Self::InvalidFrame,
            InputReplacementError::NotPast => Self::NotPast,
            InputReplacementError::Finalized => Self::Finalized,
            InputReplacementError::SnapshotOutOfRetention => Self::SnapshotUnavailable,
            InputReplacementError::OutOfRetention => Self::InputUnavailable,
            InputReplacementError::ExpectedStateMismatch => Self::ExpectedStateMismatch,
            InputReplacementError::Conflict => Self::Conflict,
            InputReplacementError::RevisionOverflow => Self::RevisionOverflow,
        }
    }
}

/// The answer to a replacement, without the state that was reached.
pub open spec fn answer_of<I>(
    r: Result<ExternalInputReplacement<I>, ExternalInputReplacementError>,
) -> Result<InputReplacementResult, InputReplacementError> {
    match r {
        Ok(ExternalInputReplacement::Replaced(_)) => Ok(InputReplacementResult::Replaced),
        Ok(ExternalInputReplacement::RetryNoOp(_)) => Ok(InputReplacementResult::RetryNoOp),
        Err(error) => Err(error.cause()),
    }
}

/// The state that a replacement reports.
pub open spec fn reported_state<I>(r: ExternalInputReplacement<I>) -> VersionedInput<I> {
    match r {
        ExternalInputReplacement::Replaced(state) => state.slot,
        ExternalInputReplacement::RetryNoOp(state) => state.slot,
    }
}

} // verus!
