//! A session whose inputs are brought in from outside.

use vstd::prelude::*;
use crate::config::{Config, Frame, NULL_FRAME};
use crate::message::{wrong_input_count, wrong_input_count_message};
use crate::requests::{steps_of, GameState, GameStateCell, GgrsError, GgrsRequest, Step};
use crate::sessions::external_input::{
    answer_of, reported_state, ExternalInputReplacement, ExternalInputReplacementError,
    ExternalInputState, ExternalInputStateError,
};
use crate::sync_layer::{taken_in, SyncLayer};
use crate::versioned_input::InputReplacementResult;

verus! {

/// A transport-free session backed by synchronization state.
pub struct ExternalSession<T> where T: Config {
    pub sync_layer: SyncLayer<T>,
}

impl<T: Config> ExternalSession<T> {
    /// What is true of a session between calls.
    pub open spec fn wf(&self) -> bool {
        self.sync_layer.wf() && self.sync_layer.in_step()
    }

    /// A session at frame 0.
    pub fn new(num_players: usize, rollback_history_frames: usize) -> (r: Self)
        requires
            rollback_history_frames < usize::MAX,
        ensures
            r.wf(),
            r.sync_layer.num_players == num_players,
            r.sync_layer.rollback_history_frames == rollback_history_frames,
            r.sync_layer.current_frame == 0,
            forall|p: int|
                0 <= p < num_players ==> (#[trigger] r.sync_layer.queue(p)).len() == 0
                    && r.sync_layer.queue(p).first_incorrect_frame == NULL_FRAME,
            forall|frame: Frame| frame >= 0 ==> !#[trigger] r.sync_layer.has_saved(frame),
    {
        let sync_layer: SyncLayer<T> = SyncLayer::new(num_players, rollback_history_frames);
        ExternalSession { sync_layer }
    }

    /// Returns the configured number of players.
    pub fn num_players(&self) -> (r: usize)
        ensures
            r == self.sync_layer.num_players,
    {
        self.sync_layer.num_players()
    }

    /// Returns the number of previous frames available for rollback.
    pub fn rollback_history_frames(&self) -> (r: usize)
        ensures
            r == self.sync_layer.rollback_history_frames,
    {
        self.sync_layer.rollback_history_frames()
    }

    /// Returns the current session frame.
    pub fn current_frame(&self) -> (r: Frame)
        ensures
            r == self.sync_layer.current_frame,
    {
        self.sync_layer.current_frame()
    }

    /// For each frame of a range, the requests to save the state before it and to
    /// advance by it.
    pub open spec fn steps(&self, from: int, to: int) -> Seq<Step<T::Input>>
        decreases to - from + 1,
    {
        if from > to {
            Seq::empty()
        } else {
            self.steps(from, to - 1).push(self.sync_layer.save_step(to as Frame)).push(
                self.sync_layer.advance_step(to as Frame),
            )
        }
    }

    /// What the game has to do for `frame`. If an earlier frame, `first`, was simulated
    /// with a wrong input, it goes back to that one, whose state is saved already, and
    /// simulates all frames from there.
    pub open spec fn schedule(&self, first: Frame, frame: Frame) -> Seq<Step<T::Input>> {
        if first == NULL_FRAME {
            self.steps(frame as int, frame as int)
        } else {
            seq![
                Step::Load { cell: self.sync_layer.cell_of(first), frame: first },
                self.sync_layer.advance_step(first),
            ] + self.steps(first + 1, frame as int)
        }
    }

    /// Advances the session by one frame, with one input for each player, by handle.
    /// A missing input counts as predicted to be the default one.
    ///
    /// Returns what the game has to do. Past frames whose inputs were replaced are
    /// simulated again first.
    pub fn advance_frame(&mut self, inputs: &[Option<T::Input>]) -> (r: Result<
        Vec<GgrsRequest<T>>,
        GgrsError,
    >)
        requires
            old(self).wf(),
            old(self).sync_layer.current_frame < i32::MAX,
        ensures
            final(self).wf(),
            // The wrong number of inputs is refused.
            inputs@.len() != old(self).sync_layer.num_players ==> {
                &&& r is Err
                &&& r->Err_0 is InvalidRequest
                &&& r->Err_0->info@ == wrong_input_count(
                    old(self).sync_layer.num_players as nat,
                    inputs@.len(),
                )
            },
            // A history for which the queues are too short is refused once they are full.
            inputs@.len() == old(self).sync_layer.num_players && !old(self).sync_layer.has_room()
                ==> r is Err && r->Err_0 is PredictionThreshold,
            r is Err ==> *final(self) == *old(self),
            // Else the inputs are taken in, and the game is told what to do.
            inputs@.len() == old(self).sync_layer.num_players && old(self).sync_layer.has_room()
                ==> {
                &&& r is Ok
                &&& final(self).sync_layer == (SyncLayer {
                    current_frame: (old(self).sync_layer.current_frame + 1) as Frame,
                    input_queues: final(self).sync_layer.input_queues,
                    ..old(self).sync_layer
                })
                &&& forall|p: int|
                    0 <= p < old(self).sync_layer.num_players ==> taken_in(
                        old(self).sync_layer.queue(p),
                        old(self).sync_layer.current_frame,
                        old(self).sync_layer.rollback_history_frames as nat,
                        inputs@[p],
                        #[trigger] final(self).sync_layer.queue(p),
                    )
                &&& steps_of(r->Ok_0@) == final(self).schedule(
                    old(self).sync_layer.earliest_incorrect(
                        old(self).sync_layer.num_players as nat,
                    ),
                    old(self).sync_layer.current_frame,
                )
            },
    {
        if inputs.len() != self.sync_layer.num_players() {
            return Err(
                GgrsError::InvalidRequest {
                    info: wrong_input_count_message(self.sync_layer.num_players(), inputs.len()),
                },
            );
        }
        if !self.sync_layer.can_add_inputs() {
            return Err(GgrsError::PredictionThreshold);
        }
        let ghost before = self.sync_layer;
        let frame: Frame = self.sync_layer.current_frame();
        let first: Frame = self.sync_layer.first_incorrect_frame();
        proof {
            before.lemma_earliest_incorrect(before.num_players as nat);
        }
        self.sync_layer.add_inputs(inputs);
        let ghost added = self.sync_layer;
        self.sync_layer.advance_frame();
        assert forall|p: int| 0 <= p < before.num_players implies #[trigger] self.sync_layer.queue(p)
            == added.queue(p) by {}
        let mut requests: Vec<GgrsRequest<T>> = Vec::new();
        let mut next: Frame = frame;
        if first != NULL_FRAME {
            proof {
                self.sync_layer.lemma_holds(first);
            }
            requests.push(self.sync_layer.load_state(first));
            requests.push(
                GgrsRequest::AdvanceFrame { inputs: self.sync_layer.synchronized_inputs(first) },
            );
            next = first + 1;
        }
        let ghost head = steps_of(requests@);
        let ghost from = next as int;
        while next <= frame
            invariant
                self.wf(),
                0 <= from <= next <= frame + 1,
                frame < i32::MAX,
                self.sync_layer.current_frame == frame + 1,
                frame - from <= self.sync_layer.rollback_history_frames,
                steps_of(requests@) == head + self.steps(from, next - 1),
            decreases frame + 1 - next,
        {
            let ghost done = requests@;
            proof {
                self.sync_layer.lemma_holds(next);
            }
            requests.push(self.sync_layer.save_state(next));
            requests.push(
                GgrsRequest::AdvanceFrame { inputs: self.sync_layer.synchronized_inputs(next) },
            );
            assert(steps_of(requests@) =~= steps_of(done).push(
                self.sync_layer.save_step(next),
            ).push(self.sync_layer.advance_step(next)));
            next += 1;
            assert(steps_of(requests@) =~= head + self.steps(from, next - 1));
        }
        assert(steps_of(requests@) =~= self.schedule(first, frame));
        Ok(requests)
    }

    /// Returns the input of a player for a frame, and where it came from.
    pub fn input_state(&self, player: usize, frame: Frame) -> (r: Result<
        ExternalInputState<T::Input>,
        ExternalInputStateError,
    >)
        requires
            self.wf(),
        ensures
            r == self.input_answer(player as int, frame),
    {
        if player >= self.sync_layer.num_players() {
            return Err(ExternalInputStateError::InvalidHandle);
        }
        if frame < 0 {
            return Err(ExternalInputStateError::InvalidFrame);
        }
        match self.sync_layer.slot_state(player, frame) {
            Some(slot) => Ok(ExternalInputState { slot }),
            None => Err(ExternalInputStateError::Unavailable),
        }
    }

    /// What is said of the input of a player for a frame.
    pub open spec fn input_answer(&self, player: int, frame: Frame) -> Result<
        ExternalInputState<T::Input>,
        ExternalInputStateError,
    > {
        if player >= self.sync_layer.num_players {
            Err(ExternalInputStateError::InvalidHandle)
        } else if frame < 0 {
            Err(ExternalInputStateError::InvalidFrame)
        } else {
            match self.sync_layer.queue(player).lookup(frame) {
                Some(entry) => Ok(ExternalInputState { slot: entry.slot }),
                None => Err(ExternalInputStateError::Unavailable),
            }
        }
    }

    /// Replaces the input of a player for a past frame, which is `expected` to be in
    /// the given state. The frame is simulated again when the session advances next.
    pub fn replace_past_input(
        &mut self,
        player: usize,
        frame: Frame,
        expected: ExternalInputState<T::Input>,
        input: T::Input,
    ) -> (r: Result<ExternalInputReplacement<T::Input>, ExternalInputReplacementError>)
        requires
            old(self).wf(),
        ensures
            final(self).wf(),
            old(self).sync_layer.replace_refusal(player as int, frame) matches Some(error)
                ==> answer_of(r) == Err::<InputReplacementResult, _>(error),
            // The snapshot is to blame exactly if the frame lies further back than the
            // history, or its state is not saved.
            r == Err::<ExternalInputReplacement<T::Input>, _>(
                ExternalInputReplacementError::SnapshotUnavailable,
            ) <==> {
                &&& player < old(self).sync_layer.num_players
                &&& 0 <= frame < old(self).sync_layer.current_frame
                &&& old(self).sync_layer.current_frame - frame > old(
                    self,
                ).sync_layer.rollback_history_frames || old(self).sync_layer.saved_states@[frame
                    as int % (old(self).sync_layer.rollback_history_frames + 1)].frame != frame
            },
            old(self).sync_layer.replace_refusal(player as int, frame) is None ==> old(
                self).sync_layer.queue(player as int).replace_answer(
                frame,
                expected.slot,
                input,
                answer_of(r),
                final(self).sync_layer.queue(player as int),
            ),
            r matches Ok(done) ==> final(self).input_answer(player as int, frame) == Ok::<
                _,
                ExternalInputStateError,
            >(ExternalInputState { slot: reported_state(done) }),
            // Nothing else changes, and nothing at all unless the input is replaced.
            final(self).sync_layer == (SyncLayer {
                input_queues: final(self).sync_layer.input_queues,
                ..old(self).sync_layer
            }),
            forall|p: int|
                0 <= p < old(self).sync_layer.num_players && p != player ==> #[trigger] final(
                    self).sync_layer.queue(p) == old(self).sync_layer.queue(p),
            !(r matches Ok(ExternalInputReplacement::Replaced(_))) ==> final(
                self).sync_layer.input_queues@ == old(self).sync_layer.input_queues@,
    {
        let answer = self.sync_layer.replace_past_input(player, frame, expected.slot, input);
        match answer {
            Err(error) => Err(ExternalInputReplacementError::of(error)),
            Ok(result) => {
                match self.sync_layer.slot_state(player, frame) {
                    None => Err(ExternalInputReplacementError::InputUnavailable),
                    Some(slot) => {
                        let state = ExternalInputState { slot };
                        match result {
                            InputReplacementResult::Replaced => Ok(
                                ExternalInputReplacement::Replaced(state),
                            ),
                            InputReplacementResult::RetryNoOp => Ok(
                                ExternalInputReplacement::RetryNoOp(state),
                            ),
                        }
                    },
                }
            },
        }
    }

    /// Saves a game state, as a request asked for.
    pub fn save(
        &mut self,
        cell: GameStateCell,
        frame: Frame,
        data: Option<T::State>,
        checksum: Option<u128>,
    )
        requires
            old(self).wf(),
            cell.index < old(self).sync_layer.saved_states@.len(),
        ensures
            final(self).wf(),
            final(self).sync_layer.saved_states@ == old(self).sync_layer.saved_states@.update(
                cell.index as int,
                GameState { frame, data, checksum },
            ),
            final(self).sync_layer == (SyncLayer {
                saved_states: final(self).sync_layer.saved_states,
                ..old(self).sync_layer
            }),
    {
        let ghost before = self.sync_layer;
        self.sync_layer.save(cell, frame, data, checksum);
        assert forall|p: int| 0 <= p < before.num_players implies #[trigger] self.sync_layer.queue(p)
            == before.queue(p) by {}
    }

    /// The game state in a cell.
    pub fn load(&self, cell: GameStateCell) -> (r: Option<&T::State>)
        requires
            self.wf(),
            cell.index < self.sync_layer.saved_states@.len(),
        ensures
            r == match self.sync_layer.saved_states@[cell.index as int].data {
                Some(data) => Some(&data),
                None => None,
            },
    {
        self.sync_layer.load(cell)
    }
}

} // verus!
