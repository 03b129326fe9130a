//! The state that all frames of a session share: where it is, the inputs of the
//! players, and the saved game states.

use vstd::prelude::*;
use crate::config::{Config, Frame, InputStatus, NULL_FRAME};
use crate::input_queue::{InputQueue, INPUT_QUEUE_LENGTH};
use crate::queue_model::{lemma_filter_all, QueueEntry, QueueState};
use crate::requests::{GameState, GameStateCell, GgrsRequest, Step};
use crate::submission_laws::law_consecutive_frames;
use crate::versioned_input::{
    InputProvenance, InputReplacementError, InputReplacementResult, VersionedInput,
};

verus! {

/// Keeps the players' inputs and the saved game states of a session.
pub struct SyncLayer<T> where T: Config {
    pub num_players: usize,
    /// The number of previous frames to which the session can go back.
    pub rollback_history_frames: usize,
    /// The saved game states: one for each frame to go back to, and the current one.
    pub saved_states: Vec<GameState<T::State>>,
    pub current_frame: Frame,
    /// The inputs, by player handle.
    pub input_queues: Vec<InputQueue<T>>,
}

impl<T: Config> SyncLayer<T> {
    /// There is a queue for each player and a cell for each frame of the history.
    pub open spec fn wf(&self) -> bool {
        &&& self.current_frame >= 0
        &&& self.saved_states@.len() == self.rollback_history_frames + 1
        &&& self.input_queues@.len() == self.num_players
        &&& forall|p: int| 0 <= p < self.num_players ==> (#[trigger] self.input_queues@[p]).wf()
    }

    /// The input queue of a player.
    pub open spec fn queue(&self, player: int) -> QueueState<T::Input> {
        self.input_queues@[player]@
    }

    /// The cell in which the game state of a frame is kept.
    pub open spec fn cell_of(&self, frame: Frame) -> int {
        frame as int % (self.saved_states@.len() as int)
    }

    /// Whether the game state of a frame is saved.
    pub open spec fn has_saved(&self, frame: Frame) -> bool {
        self.saved_states@[self.cell_of(frame)].frame == frame
    }

    /// The request to save the game state of a frame.
    pub open spec fn save_step(&self, frame: Frame) -> Step<T::Input> {
        Step::Save { cell: self.cell_of(frame), frame }
    }

    /// The inputs of a frame, by player handle.
    pub open spec fn inputs_at(&self, frame: Frame) -> Seq<(T::Input, InputStatus)> {
        Seq::new(
            self.num_players as nat,
            |p: int| self.queue(p).visible(frame)->0,
        )
    }

    /// The request to advance by a frame.
    pub open spec fn advance_step(&self, frame: Frame) -> Step<T::Input> {
        Step::Advance { inputs: self.inputs_at(frame) }
    }

    /// A layer that has not simulated any frame yet.
    pub fn new(num_players: usize, rollback_history_frames: usize) -> (r: Self)
        requires
            rollback_history_frames < usize::MAX,
        ensures
            r.wf(),
            r.num_players == num_players,
            r.rollback_history_frames == rollback_history_frames,
            r.current_frame == 0,
            forall|p: int|
                0 <= p < num_players ==> {
                    let q = #[trigger] r.queue(p);
                    &&& q.len() == 0
                    &&& q.first_frame
                    &&& q.last_user_frame == NULL_FRAME
                    &&& q.first_incorrect_frame == NULL_FRAME
                    &&& q.last_requested_frame == NULL_FRAME
                    &&& q.frame_delay == 0
                    &&& q.prediction.frame == NULL_FRAME
                },
            forall|i: int|
                0 <= i <= rollback_history_frames ==> {
                    let state = #[trigger] r.saved_states@[i];
                    state.frame == NULL_FRAME && state.data is None && state.checksum is None
                },
    {
        let mut saved_states: Vec<GameState<T::State>> = Vec::new();
        let mut i: usize = 0;
        while i < rollback_history_frames + 1
            invariant
                i <= rollback_history_frames + 1,
                rollback_history_frames < usize::MAX,
                saved_states@.len() == i,
                forall|j: int|
                    0 <= j < i ==> {
                        let state = #[trigger] saved_states@[j];
                        state.frame == NULL_FRAME && state.data is None && state.checksum is None
                    },
            decreases rollback_history_frames + 1 - i,
        {
            saved_states.push(GameState { frame: NULL_FRAME, data: None, checksum: None });
            i += 1;
        }
        let mut input_queues: Vec<InputQueue<T>> = Vec::new();
        let mut p: usize = 0;
        while p < num_players
            invariant
                p <= num_players,
                input_queues@.len() == p,
                forall|j: int|
                    0 <= j < p ==> {
                        let q = (#[trigger] input_queues@[j])@;
                        &&& input_queues@[j].wf()
                        &&& q.len() == 0
                        &&& q.first_frame
                        &&& q.last_user_frame == NULL_FRAME
                        &&& q.first_incorrect_frame == NULL_FRAME
                        &&& q.last_requested_frame == NULL_FRAME
                        &&& q.frame_delay == 0
                        &&& q.prediction.frame == NULL_FRAME
                    },
            decreases num_players - p,
        {
            input_queues.push(InputQueue::new());
            p += 1;
        }
        SyncLayer {
            num_players,
            rollback_history_frames,
            saved_states,
            current_frame: 0,
            input_queues,
        }
    }

    /// The number of players.
    pub fn num_players(&self) -> (r: usize)
        ensures
            r == self.num_players,
    {
        self.num_players
    }

    /// The number of previous frames available for rollback.
    pub fn rollback_history_frames(&self) -> (r: usize)
        ensures
            r == self.rollback_history_frames,
    {
        self.rollback_history_frames
    }

    /// The current frame.
    pub fn current_frame(&self) -> (r: Frame)
        ensures
            r == self.current_frame,
    {
        self.current_frame
    }

    /// Moves on to the next frame.
    pub fn advance_frame(&mut self)
        requires
            old(self).current_frame < i32::MAX,
        ensures
            *final(self) == (SyncLayer {
                current_frame: (old(self).current_frame + 1) as Frame,
                ..*old(self)
            }),
    {
        self.current_frame += 1;
    }

    /// The cell in which the game state of a frame is kept.
    fn get_cell(&self, frame: Frame) -> (r: GameStateCell)
        requires
            frame >= 0,
            self.saved_states@.len() > 0,
        ensures
            r.index == self.cell_of(frame),
            r.index < self.saved_states@.len(),
    {
        GameStateCell { index: frame as usize % self.saved_states.len() }
    }

    /// Asks for the current game state to be saved.
    pub fn save_current_state(&self) -> (r: GgrsRequest<T>)
        requires
            self.wf(),
        ensures
            r@ == self.save_step(self.current_frame),
    {
        self.save_state(self.current_frame)
    }

    /// Asks for the game state of a frame to be saved when the game reaches it.
    pub fn save_state(&self, frame: Frame) -> (r: GgrsRequest<T>)
        requires
            self.wf(),
            frame >= 0,
        ensures
            r@ == self.save_step(frame),
    {
        GgrsRequest::SaveGameState { cell: self.get_cell(frame), frame }
    }

    /// Asks for the game state of a frame to be loaded.
    pub fn load_state(&self, frame: Frame) -> (r: GgrsRequest<T>)
        requires
            self.wf(),
            frame >= 0,
        ensures
            r@ == (Step::<T::Input>::Load { cell: self.cell_of(frame), frame }),
    {
        GgrsRequest::LoadGameState { cell: self.get_cell(frame), frame }
    }

    /// The cell that holds the game state of a frame, if it is saved.
    pub fn saved_state_by_frame(&self, frame: Frame) -> (r: Option<GameStateCell>)
        requires
            self.wf(),
            frame >= 0,
        ensures
            r is Some <==> self.has_saved(frame),
            r matches Some(cell) ==> cell.index == self.cell_of(frame),
    {
        let cell = self.get_cell(frame);
        if self.saved_states[cell.index].frame == frame {
            Some(cell)
        } else {
            None
        }
    }

    /// Saves the game state of a frame in a cell.
    pub fn save(
        &mut self,
        cell: GameStateCell,
        frame: Frame,
        data: Option<T::State>,
        checksum: Option<u128>,
    )
        requires
            old(self).wf(),
            cell.index < old(self).saved_states@.len(),
        ensures
            final(self).wf(),
            final(self).saved_states@ == old(self).saved_states@.update(
                cell.index as int,
                GameState { frame, data, checksum },
            ),
            *final(self) == (SyncLayer { saved_states: final(self).saved_states, ..*old(self) }),
    {
        self.saved_states[cell.index] = GameState { frame, data, checksum };
    }

    /// The game state in a cell.
    pub fn load(&self, cell: GameStateCell) -> (r: Option<&T::State>)
        requires
            self.wf(),
            cell.index < self.saved_states@.len(),
        ensures
            r == match self.saved_states@[cell.index as int].data {
                Some(data) => Some(&data),
                None => None,
            },
    {
        self.saved_states[cell.index].data.as_ref()
    }

    /// The input of a player for a frame, with its provenance and revision, if it
    /// is still known.
    pub fn slot_state(&self, player: usize, frame: Frame) -> (r: Option<VersionedInput<T::Input>>)
        requires
            self.wf(),
            player < self.num_players,
        ensures
            r == match self.queue(player as int).lookup(frame) {
                Some(entry) => Some(entry.slot),
                None => None,
            },
    {
        self.input_queues[player].slot_state(frame)
    }

    /// The inputs of a frame, by player handle.
    pub fn synchronized_inputs(&self, frame: Frame) -> (r: Vec<(T::Input, InputStatus)>)
        requires
            self.wf(),
            forall|p: int| 0 <= p < self.num_players ==> (#[trigger] self.queue(p)).holds(frame),
        ensures
            r@ == self.inputs_at(frame),
    {
        let mut inputs: Vec<(T::Input, InputStatus)> = Vec::new();
        let mut p: usize = 0;
        while p < self.num_players
            invariant
                self.wf(),
                p <= self.num_players,
                forall|j: int|
                    0 <= j < self.num_players ==> (#[trigger] self.queue(j)).holds(frame),
                inputs@ == self.inputs_at(frame).take(p as int),
            decreases self.num_players - p,
        {
            assert(self.queue(p as int).holds(frame));
            if let Some(input) = self.input_queues[p].current_input(frame) {
                inputs.push(input);
            }
            p += 1;
            assert(inputs@ =~= self.inputs_at(frame).take(p as int));
        }
        assert(inputs@ =~= self.inputs_at(frame));
        inputs
    }

    /// Every queue has the inputs of the frames before the current one, as far back
    /// as the history goes, and one more; a frame that has to be simulated again is
    /// within the history.
    pub open spec fn in_step(&self) -> bool {
        forall|p: int|
            0 <= p < self.num_players ==> in_step(
                #[trigger] self.queue(p),
                self.current_frame,
                self.rollback_history_frames as nat,
            )
    }

    /// The earliest frame that is known to have been simulated with a wrong input of
    /// one of the first `n` players, or `NULL_FRAME`.
    pub open spec fn earliest_incorrect(&self, n: nat) -> Frame
        decreases n,
    {
        if n == 0 {
            NULL_FRAME
        } else {
            let earlier = self.earliest_incorrect((n - 1) as nat);
            let last = self.queue(n - 1).first_incorrect_frame;
            if last != NULL_FRAME && (earlier == NULL_FRAME || last < earlier) {
                last
            } else {
                earlier
            }
        }
    }

    /// The earliest frame that has to be simulated again, or `NULL_FRAME`.
    pub fn first_incorrect_frame(&self) -> (r: Frame)
        requires
            self.wf(),
        ensures
            r == self.earliest_incorrect(self.num_players as nat),
    {
        let mut first: Frame = NULL_FRAME;
        let mut p: usize = 0;
        while p < self.num_players
            invariant
                self.wf(),
                p <= self.num_players,
                first == self.earliest_incorrect(p as nat),
            decreases self.num_players - p,
        {
            let last: Frame = self.input_queues[p].first_incorrect_frame();
            if last != NULL_FRAME && (first == NULL_FRAME || last < first) {
                first = last;
            }
            p += 1;
        }
        first
    }

    /// The earliest frame to be simulated again is one of the queues' frames, and
    /// comes before all others.
    pub proof fn lemma_earliest_incorrect(&self, n: nat)
        requires
            n <= self.num_players,
        ensures
            self.earliest_incorrect(n) == NULL_FRAME ==> forall|p: int|
                0 <= p < n ==> (#[trigger] self.queue(p)).first_incorrect_frame == NULL_FRAME,
            self.earliest_incorrect(n) != NULL_FRAME ==> {
                &&& exists|p: int|
                    0 <= p < n && (#[trigger] self.queue(p)).first_incorrect_frame
                        == self.earliest_incorrect(n)
                &&& forall|p: int|
                    0 <= p < n && (#[trigger] self.queue(p)).first_incorrect_frame != NULL_FRAME
                        ==> self.earliest_incorrect(n) <= self.queue(p).first_incorrect_frame
            },
        decreases n,
    {
        if n > 0 {
            self.lemma_earliest_incorrect((n - 1) as nat);
        }
    }

    /// All queues hold the frames of the history.
    pub proof fn lemma_holds(&self, frame: Frame)
        requires
            self.wf(),
            self.in_step(),
            0 <= frame < self.current_frame,
            self.current_frame - frame <= self.rollback_history_frames + 1,
        ensures
            forall|p: int| 0 <= p < self.num_players ==> (#[trigger] self.queue(p)).holds(frame),
    {
        assert forall|p: int| 0 <= p < self.num_players implies (#[trigger] self.queue(p)).holds(
            frame,
        ) by {
            assert(in_step(
                self.queue(p),
                self.current_frame,
                self.rollback_history_frames as nat,
            ));
            law_consecutive_frames(self.queue(p), frame);
        }
    }

    /// Why the input of a player for a frame cannot be replaced, whatever it is: the
    /// player and the frame have to exist, the frame has to be simulated already,
    /// and it must be possible to go back to it.
    pub open spec fn replace_refusal(&self, player: int, frame: Frame) -> Option<
        InputReplacementError,
    > {
        if player >= self.num_players {
            Some(InputReplacementError::InvalidHandle)
        } else if frame < 0 {
            Some(InputReplacementError::InvalidFrame)
        } else if frame >= self.current_frame {
            Some(InputReplacementError::NotPast)
        } else if self.current_frame - frame > self.rollback_history_frames || !self.has_saved(
            frame,
        ) {
            Some(InputReplacementError::SnapshotOutOfRetention)
        } else {
            None
        }
    }

    /// Replaces the input of a player for a past frame.
    pub fn replace_past_input(
        &mut self,
        player: usize,
        frame: Frame,
        expected: VersionedInput<T::Input>,
        input: T::Input,
    ) -> (r: Result<InputReplacementResult, InputReplacementError>)
        requires
            old(self).wf(),
            old(self).in_step(),
        ensures
            final(self).wf(),
            final(self).in_step(),
            old(self).replace_refusal(player as int, frame) matches Some(error) ==> r == Err::<
                InputReplacementResult,
                _,
            >(error),
            // The snapshot is to blame exactly if the frame lies further back than the
            // history, or its state is not saved.
            r == Err::<InputReplacementResult, _>(InputReplacementError::SnapshotOutOfRetention)
                <==> {
                &&& player < old(self).num_players
                &&& 0 <= frame < old(self).current_frame
                &&& old(self).current_frame - frame > old(self).rollback_history_frames || old(
                    self,
                ).saved_states@[frame as int % (old(self).rollback_history_frames + 1)].frame
                    != frame
            },
            old(self).replace_refusal(player as int, frame) is None ==> old(self).queue(
                player as int,
            ).replace_answer(frame, expected, input, r, final(self).queue(player as int)),
            // Nothing else changes, and nothing at all unless the input is replaced.
            *final(self) == (SyncLayer { input_queues: final(self).input_queues, ..*old(self) }),
            forall|p: int|
                0 <= p < old(self).num_players && p != player ==> #[trigger] final(self).queue(p)
                    == old(self).queue(p),
            r != Ok::<_, InputReplacementError>(InputReplacementResult::Replaced) ==> final(
                self).input_queues@ == old(self).input_queues@,
    {
        if player >= self.num_players {
            return Err(InputReplacementError::InvalidHandle);
        }
        if frame < 0 {
            return Err(InputReplacementError::InvalidFrame);
        }
        if frame >= self.current_frame {
            return Err(InputReplacementError::NotPast);
        }
        if (self.current_frame - frame) as usize > self.rollback_history_frames
            || self.saved_state_by_frame(frame).is_none() {
            return Err(InputReplacementError::SnapshotOutOfRetention);
        }
        let ghost before = *self;
        let r = self.input_queues[player].replace_past_slot(frame, expected, input);
        proof {
            let history = self.rollback_history_frames as nat;
            assert forall|p: int| 0 <= p < self.num_players && p != player implies
                #[trigger] self.queue(p) == before.queue(p) by {}
            assert(in_step(before.queue(player as int), self.current_frame, history));
            if r != Ok::<_, InputReplacementError>(InputReplacementResult::Replaced) {
                assert(self.input_queues@ =~= before.input_queues@);
            }
            assert forall|p: int| 0 <= p < self.num_players implies in_step(
                #[trigger] self.queue(p),
                self.current_frame,
                history,
            ) by {
                assert(in_step(before.queue(p), self.current_frame, history));
            }
        }
        r
    }

    /// Whether the inputs of the current frame can be taken in.
    pub open spec fn has_room(&self) -> bool {
        self.num_players == 0 || self.current_frame < INPUT_QUEUE_LENGTH
            || self.rollback_history_frames < INPUT_QUEUE_LENGTH
    }

    /// The last frame that is not needed any more once the current one is added.
    fn trim_limit(&self) -> (r: Frame)
        requires
            self.current_frame >= 0,
        ensures
            r == trim_limit(self.current_frame, self.rollback_history_frames as nat),
    {
        if self.rollback_history_frames < self.current_frame as usize {
            self.current_frame - self.rollback_history_frames as i32 - 1
        } else {
            NULL_FRAME
        }
    }

    /// Whether all queues can take in an input for the current frame.
    pub fn can_add_inputs(&self) -> (r: bool)
        requires
            self.wf(),
            self.in_step(),
        ensures
            r == self.has_room(),
    {
        let limit: Frame = self.trim_limit();
        let mut p: usize = 0;
        while p < self.num_players
            invariant
                self.wf(),
                self.in_step(),
                p <= self.num_players,
                limit == trim_limit(self.current_frame, self.rollback_history_frames as nat),
                p > 0 ==> self.has_room(),
            decreases self.num_players - p,
        {
            proof {
                lemma_trimmed(
                    self.queue(p as int),
                    self.current_frame,
                    self.rollback_history_frames as nat,
                );
            }
            if !self.input_queues[p].can_append_after_trim(self.current_frame, limit) {
                return false;
            }
            p += 1;
        }
        true
    }

    /// Takes in the inputs of the current frame, by player handle.
    pub fn add_inputs(&mut self, inputs: &[Option<T::Input>])
        requires
            old(self).wf(),
            old(self).in_step(),
            old(self).has_room(),
            old(self).current_frame < i32::MAX,
            inputs@.len() == old(self).num_players,
        ensures
            final(self).wf(),
            *final(self) == (SyncLayer { input_queues: final(self).input_queues, ..*old(self) }),
            forall|p: int|
                0 <= p < old(self).num_players ==> taken_in(
                    old(self).queue(p),
                    old(self).current_frame,
                    old(self).rollback_history_frames as nat,
                    inputs@[p],
                    #[trigger] final(self).queue(p),
                ),
            forall|p: int|
                0 <= p < old(self).num_players ==> in_step(
                    #[trigger] final(self).queue(p),
                    (old(self).current_frame + 1) as Frame,
                    old(self).rollback_history_frames as nat,
                ),
    {
        let ghost before = *self;
        let ghost history = self.rollback_history_frames as nat;
        let limit: Frame = self.trim_limit();
        let frame: Frame = self.current_frame;
        let mut p: usize = 0;
        while p < self.num_players
            invariant
                before.wf(),
                before.in_step(),
                before.has_room(),
                self.wf(),
                *self == (SyncLayer { input_queues: self.input_queues, ..before }),
                p <= self.num_players,
                inputs@.len() == self.num_players,
                0 <= frame < i32::MAX,
                frame == before.current_frame,
                history == before.rollback_history_frames,
                limit == trim_limit(frame, history),
                forall|j: int|
                    0 <= j < p ==> taken_in(
                        before.queue(j),
                        frame,
                        history,
                        inputs@[j],
                        #[trigger] self.queue(j),
                    ),
                forall|j: int|
                    p <= j < self.num_players ==> #[trigger] self.queue(j) == before.queue(j),
            decreases self.num_players - p,
        {
            let ghost standing = *self;
            let ghost q = before.queue(p as int);
            assert(self.queue(p as int) == q);
            proof {
                lemma_trimmed(q, frame, history);
            }
            self.input_queues[p].trim_external_through(limit);
            match inputs[p] {
                Some(input) => {
                    self.input_queues[p].append_sequential(
                        frame,
                        input,
                        InputProvenance::Authoritative,
                    );
                },
                None => {
                    let appended = self.input_queues[p].materialize_predicted(
                        frame,
                        T::Input::default(),
                    );
                    assert(appended is Ok);
                },
            }
            self.input_queues[p].reset_prediction();
            proof {
                assert forall|j: int| 0 <= j < self.num_players && j != p implies
                    #[trigger] self.queue(j) == standing.queue(j) by {}
                assert(taken_in(q, frame, history, inputs@[p as int], self.queue(p as int)));
            }
            p += 1;
        }
        proof {
            assert forall|j: int| 0 <= j < self.num_players implies in_step(
                #[trigger] self.queue(j),
                (frame + 1) as Frame,
                history,
            ) by {
                lemma_trimmed(before.queue(j), frame, history);
                lemma_taken_in(before.queue(j), frame, history, inputs@[j], self.queue(j));
            }
        }
    }
}

/// The last frame that is not needed any more when `frame` is added.
pub open spec fn trim_limit(frame: Frame, history: nat) -> Frame {
    if history < frame {
        (frame - history - 1) as Frame
    } else {
        NULL_FRAME
    }
}

/// `next` is the queue after the input of a frame was taken in, and what lies before
/// the history was given up. A missing input counts as predicted to be the default.
/// What had to be simulated again no longer has to be.
pub open spec fn taken_in<I: PartialEq + Default>(
    q: QueueState<I>,
    frame: Frame,
    history: nat,
    input: Option<I>,
    next: QueueState<I>,
) -> bool {
    let provenance = if input is Some {
        InputProvenance::Authoritative
    } else {
        InputProvenance::Predicted
    };
    &&& next == (QueueState {
        first_incorrect_frame: NULL_FRAME,
        last_requested_frame: NULL_FRAME,
        ..q.trim(trim_limit(frame, history)).append(frame, next.latest.input, provenance)
    })
    &&& input matches Some(given) ==> next.latest.input == given
    &&& input is None ==> call_ensures(I::default, (), next.latest.input)
}

/// How many cells are left when what is not needed any more is given up.
pub proof fn lemma_trimmed<I: PartialEq + Default>(q: QueueState<I>, frame: Frame, history: nat)
    requires
        in_step(q, frame, history),
        frame >= 0,
    ensures
        q.entries_after(trim_limit(frame, history)).len() == if frame <= history {
            frame as nat
        } else {
            history
        },
        q.trim(trim_limit(frame, history)).len() == q.entries_after(
            trim_limit(frame, history),
        ).len(),
        q.trim(trim_limit(frame, history)).valid(),
        q.trim(trim_limit(frame, history)).aligned(),
{
    let limit = trim_limit(frame, history);
    if history < frame {
        let k = q.lemma_trim(limit);
        assert(q.entry_is_valid(0, q.entries[0]));
        if q.len() > 1 {
            assert(q.entry_is_valid(1, q.entries[1]));
        }
        assert(k == 1);
    } else {
        assert forall|i: int| 0 <= i < q.len() implies (#[trigger] q.entries[i]).frame > limit by {
            assert(q.entry_is_valid(i, q.entries[i]));
        }
        lemma_filter_all(q.entries, |entry: QueueEntry<I>| entry.frame > limit);
    }
}

/// Taking in an input moves a queue on by one step.
proof fn lemma_taken_in<I: PartialEq + Default>(
    q: QueueState<I>,
    frame: Frame,
    history: nat,
    input: Option<I>,
    next: QueueState<I>,
)
    requires
        in_step(q, frame, history),
        0 <= frame < i32::MAX,
        q.trim(trim_limit(frame, history)).len() < INPUT_QUEUE_LENGTH,
        taken_in(q, frame, history, input, next),
    ensures
        in_step(next, (frame + 1) as Frame, history),
{
    let provenance = if input is Some {
        InputProvenance::Authoritative
    } else {
        InputProvenance::Predicted
    };
    let trimmed = q.trim(trim_limit(frame, history));
    lemma_trimmed(q, frame, history);
    trimmed.lemma_append_valid(frame, next.latest.input, provenance);
    let appended = trimmed.append(frame, next.latest.input, provenance);
    assert forall|i: int| 0 <= i < next.len() implies next.entry_is_valid(
        i,
        #[trigger] next.entries[i],
    ) by {
        assert(appended.entry_is_valid(i, appended.entries[i]));
    }
}

/// The queue has the inputs of the frames before `frame`, up to one more than the
/// history is long, and nothing is being predicted.
pub open spec fn in_step<I: PartialEq + Default>(
    q: QueueState<I>,
    frame: Frame,
    history: nat,
) -> bool {
    &&& q.valid()
    &&& q.aligned()
    &&& q.last_added_frame == frame - 1
    &&& q.first_frame <==> frame == 0
    &&& q.len() == if frame <= history {
        frame as nat
    } else {
        history + 1
    }
    &&& q.prediction.frame == NULL_FRAME
    &&& q.first_incorrect_frame != NULL_FRAME ==> {
        &&& 0 <= q.first_incorrect_frame < frame
        &&& frame - q.first_incorrect_frame <= history
    }
}

} // verus!
