//! What a session asks the game to do, and how it refuses.

use vstd::prelude::*;
use crate::config::{Config, Frame, InputStatus};

verus! {

/// Names the place where the game state of a frame is kept.
#[derive(Debug, Clone, Copy, PartialEq, Eq, Structural)]
pub struct GameStateCell {
    /// The position of the place.
    pub index: usize,
}

/// A saved game state.
pub struct GameState<S> {
    /// The frame to which the state belongs, or `NULL_FRAME` if there is none.
    pub frame: Frame,
    /// The state itself.
    pub data: Option<S>,
    /// A checksum of the state, if the game provides one.
    pub checksum: Option<u128>,
}

/// Requests that the game has to fulfill, in the order in which they are given.
pub enum GgrsRequest<T> where T: Config {
    /// Save the current game state in the given cell.
    SaveGameState { cell: GameStateCell, frame: Frame },
    /// Load the game state in the given cell.
    LoadGameState { cell: GameStateCell, frame: Frame },
    /// Advance the game by one frame, with the given inputs, ordered by handle.
    AdvanceFrame { inputs: Vec<(T::Input, InputStatus)> },
}

/// The mathematical picture of a request.
pub enum Step<I> {
    Save { cell: int, frame: Frame },
    Load { cell: int, frame: Frame },
    Advance { inputs: Seq<(I, InputStatus)> },
}

impl<T: Config> View for GgrsRequest<T> {
    type V = Step<T::Input>;

    open spec fn view(&self) -> Step<T::Input> {
        match *self {
            GgrsRequest::SaveGameState { cell, frame } => Step::Save {
                cell: cell.index as int,
                frame,
            },
            GgrsRequest::LoadGameState { cell, frame } => Step::Load {
                cell: cell.index as int,
                frame,
            },
            GgrsRequest::AdvanceFrame { inputs } => Step::Advance { inputs: inputs@ },
        }
    }
}

/// The requests of a list.
pub open spec fn steps_of<T: Config>(requests: Seq<GgrsRequest<T>>) -> Seq<Step<T::Input>> {
    requests.map_values(|request: GgrsRequest<T>| request@)
}

/// Why a session refuses a call.
#[derive(Debug)]
pub enum GgrsError {
    /// The prediction threshold has been reached: no more inputs can be accepted.
    PredictionThreshold,
    /// The call makes no sense.
    InvalidRequest {
        /// What is wrong with it.
        info: String,
    },
}

} // verus!
