//! Frames, and what a game tells the library about its inputs.

use vstd::prelude::*;

verus! {

/// A frame is a single step of the simulation.
pub type Frame = i32;

/// Stands for "no frame".
pub const NULL_FRAME: Frame = -1;

/// Tells how much an input handed out for a frame can be relied upon.
#[derive(Debug, Clone, Copy, PartialEq, Eq, Structural)]
pub enum InputStatus {
    /// The input of this player for this frame is an authoritative one.
    Confirmed,
    /// The input of this player for this frame is predicted.
    Predicted,
}

/// Guesses the next input of a player from the previous one.
pub trait InputPredictor<I> {
    /// The input that is expected to follow `previous`.
    fn predict(previous: I) -> (predicted: I);
}

/// Predicts that a player keeps doing what they did last.
pub struct PredictRepeatLast;

impl<I> InputPredictor<I> for PredictRepeatLast {
    fn predict(previous: I) -> (predicted: I)
        ensures
            predicted == previous,
    {
        previous
    }
}

/// Compile-time parameters of a session.
pub trait Config {
    /// What a player does during one frame.
    type Input: Copy + PartialEq + Default;

    /// How inputs that have not arrived yet are guessed.
    type InputPredictor: InputPredictor<Self::Input>;

    /// The game state that is saved and loaded on a rollback.
    type State;

    /// How a remote player is addressed.
    type Address;
}

} // verus!
