//! Inputs that know where they came from and how often they were revised, and
//! the rule by which a past input may be replaced.

use vstd::prelude::*;
use vstd::std_specs::cmp::PartialEqSpec;

verus! {

/// Where an input came from.
#[derive(Debug, Copy, Clone, PartialEq, Eq, Structural)]
pub enum InputProvenance {
    /// Guessed, because nothing better was known.
    Predicted,
    /// Supplied by whoever controls the player.
    Authoritative,
}

/// An input with its provenance and the number of times it was replaced.
#[derive(Debug, Copy)]
pub struct VersionedInput<I> {
    pub input: I,
    pub provenance: InputProvenance,
    pub revision: u64,
}

impl<I: Copy> Clone for VersionedInput<I> {
    fn clone(&self) -> (r: Self)
        ensures
            r == *self,
    {
        *self
    }
}

impl<I: PartialEq> PartialEq for VersionedInput<I> {
    fn eq(&self, other: &Self) -> (r: bool)
        ensures
            r ==> self.provenance == other.provenance && self.revision == other.revision,
    {
        self.input == other.input && self.provenance == other.provenance && self.revision
            == other.revision
    }
}

impl<I: PartialEq> vstd::std_specs::cmp::PartialEqSpecImpl for VersionedInput<I> {
    open spec fn obeys_eq_spec() -> bool {
        I::obeys_eq_spec()
    }

    open spec fn eq_spec(&self, other: &Self) -> bool {
        self.same_as(*other)
    }
}

/// A replacement that took place: what stood in the slot, as the caller named
/// it, and what stands there since.
#[derive(Debug, Copy)]
pub struct InputTransition<I> {
    pub expected: VersionedInput<I>,
    pub replacement: VersionedInput<I>,
}

impl<I: Copy> Clone for InputTransition<I> {
    fn clone(&self) -> (r: Self)
        ensures
            r == *self,
    {
        *self
    }
}

impl<I: PartialEq> PartialEq for InputTransition<I> {
    fn eq(&self, other: &Self) -> (r: bool) {
        self.expected == other.expected && self.replacement == other.replacement
    }
}

impl<I: PartialEq> vstd::std_specs::cmp::PartialEqSpecImpl for InputTransition<I> {
    open spec fn obeys_eq_spec() -> bool {
        I::obeys_eq_spec()
    }

    open spec fn eq_spec(&self, other: &Self) -> bool {
        self.expected.same_as(other.expected) && self.replacement.same_as(other.replacement)
    }
}

/// Why a past input was not replaced.
#[derive(Debug, Copy, Clone, PartialEq, Eq, Structural)]
pub enum InputReplacementError {
    /// There is no such player.
    InvalidHandle,
    /// The frame number is not one that an input can have.
    InvalidFrame,
    /// The frame has not been simulated yet.
    NotPast,
    /// The frame can no longer change.
    Finalized,
    /// The game state of the frame is no longer available.
    SnapshotOutOfRetention,
    /// The input of the frame is no longer available.
    OutOfRetention,
    /// The slot holds something else than the caller expects.
    ExpectedStateMismatch,
    /// The request contradicts the state of the slot or an earlier request.
    Conflict,
    /// The slot has been revised as often as can be counted.
    RevisionOverflow,
}

/// What became of an accepted replacement.
#[derive(Debug, Copy, Clone, PartialEq, Eq, Structural)]
pub enum InputReplacementResult {
    /// The slot now holds the new input.
    Replaced,
    /// The very same replacement had been made before.
    RetryNoOp,
}

impl<I: PartialEq> VersionedInput<I> {
    /// Equality, as the inputs' own `==` has it.
    pub open spec fn same_as(self, other: Self) -> bool {
        &&& self.input.eq_spec(&other.input)
        &&& self.provenance == other.provenance
        &&& self.revision == other.revision
    }

    /// Whether this already is `input`, authoritatively.
    pub open spec fn settles(self, input: I) -> bool {
        self.input.eq_spec(&input) && self.provenance == InputProvenance::Authoritative
    }
}

/// How a request to replace a slot that is `expected` to hold one thing by
/// `input` is answered, where the slot holds `current` and `last` is the last
/// replacement made in it.
pub open spec fn replacement_verdict<I: PartialEq>(
    current: VersionedInput<I>,
    last: Option<InputTransition<I>>,
    expected: VersionedInput<I>,
    input: I,
) -> Result<InputReplacementResult, InputReplacementError> {
    // The last replacement started where this request wants to start, and its
    // outcome still stands.
    let repeats = last is Some && last->0.expected.same_as(expected) && current.same_as(
        last->0.replacement,
    );
    if repeats && last->0.replacement.settles(input) {
        Ok(InputReplacementResult::RetryNoOp)
    } else if repeats && !input.eq_spec(&last->0.replacement.input) {
        Err(InputReplacementError::Conflict)
    } else if !current.same_as(expected) {
        if current.settles(input) || (last is Some && last->0.replacement.settles(input)) {
            Err(InputReplacementError::Conflict)
        } else {
            Err(InputReplacementError::ExpectedStateMismatch)
        }
    } else if current.settles(input) {
        Err(InputReplacementError::Conflict)
    } else if current.revision == u64::MAX {
        Err(InputReplacementError::RevisionOverflow)
    } else {
        Ok(InputReplacementResult::Replaced)
    }
}

} // verus!
