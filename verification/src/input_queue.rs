//! The inputs of a single player, kept in a ring.

use vstd::prelude::*;
use vstd::std_specs::cmp::PartialEqSpec;
use crate::config::{Config, Frame, InputPredictor, InputStatus, NULL_FRAME};
use crate::frame_info::PlayerInput;
use crate::queue_effects::law_discard_effect;
use crate::queue_model::{lemma_filter_all, repeated, wrap, QueueEntry, QueueState};
use crate::versioned_input::{
    InputProvenance, InputReplacementError, InputReplacementResult, InputTransition,
    VersionedInput,
};

verus! {

/// The length of the input queue: the number of inputs that can be held at the
/// same time per player.
pub const INPUT_QUEUE_LENGTH: usize = 128;

/// The longest rollback for which a full queue still has all inputs.
pub const MAX_ROLLBACK_HISTORY_FRAMES: usize = INPUT_QUEUE_LENGTH - 1;

/// `InputQueue` handles the inputs of a single player and saves them in a
/// circular array. Valid inputs are between `head` and `tail`.
#[derive(Debug, Clone)]
pub struct InputQueue<T> where T: Config {
    /// The head of the queue. The newest `PlayerInput` is saved just before it.
    pub head: usize,
    /// The tail of the queue. The oldest `PlayerInput` still valid is saved here.
    pub tail: usize,
    /// The current length of the queue.
    pub length: usize,
    /// Denotes if we still are in the first frame, an edge case to be considered
    /// by some methods.
    pub first_frame: bool,
    /// The last frame added.
    pub last_added_frame: Frame,
    /// The last game frame submitted by the user, before the frame delay is
    /// applied. Used to enforce sequential submission independent of the current
    /// frame delay.
    pub last_user_frame: Frame,
    /// The first frame in the queue that is known to be an incorrect prediction.
    pub first_incorrect_frame: Frame,
    /// The last frame that has been requested. `discard_confirmed_frames` never goes
    /// past it, as what comes after is still needed.
    pub last_requested_frame: Frame,
    /// The delay in frames by which inputs are sent back to the user.
    pub frame_delay: usize,
    /// The cyclic input queue.
    pub inputs: Vec<PlayerInput<T::Input>>,
    /// The inputs with their provenance and revision, at the same positions.
    pub slots: Vec<VersionedInput<T::Input>>,
    /// The last replacement made at each position.
    pub last_transitions: Vec<Option<InputTransition<T::Input>>>,
    /// The prediction that is handed out while inputs are missing.
    pub prediction: PlayerInput<T::Input>,
}

impl<T: Config> View for InputQueue<T> {
    type V = QueueState<T::Input>;

    open spec fn view(&self) -> QueueState<T::Input> {
        QueueState {
            entries: Seq::new(self.length as nat, |i: int| self.cell(wrap(self.tail + i))),
            head: self.head as int,
            latest: self.inputs@[Self::before(self.head as int)],
            first_frame: self.first_frame,
            last_added_frame: self.last_added_frame,
            last_user_frame: self.last_user_frame,
            first_incorrect_frame: self.first_incorrect_frame,
            last_requested_frame: self.last_requested_frame,
            frame_delay: self.frame_delay,
            prediction: self.prediction,
        }
    }
}

impl<T: Config> InputQueue<T> {
    /// The ring position before `position`.
    pub open spec fn before(position: int) -> int {
        if position == 0 {
            INPUT_QUEUE_LENGTH - 1
        } else {
            position - 1
        }
    }

    /// What is stored at a ring position.
    pub open spec fn cell(&self, position: int) -> QueueEntry<T::Input> {
        QueueEntry {
            frame: self.inputs@[position].frame,
            input: self.inputs@[position].input,
            slot: self.slots@[position],
            transition: self.last_transitions@[position],
        }
    }

    /// How far behind the tail a ring position is.
    pub open spec fn age(&self, position: int) -> int {
        wrap(position + INPUT_QUEUE_LENGTH - self.tail)
    }

    /// The ring is laid out as it should be: cells not in use are vacant, and
    /// the ones in use form a valid queue.
    pub open spec fn wf(&self) -> bool {
        &&& self.inputs@.len() == INPUT_QUEUE_LENGTH
        &&& self.slots@.len() == INPUT_QUEUE_LENGTH
        &&& self.last_transitions@.len() == INPUT_QUEUE_LENGTH
        &&& self.tail < INPUT_QUEUE_LENGTH
        &&& self.length <= INPUT_QUEUE_LENGTH
        &&& self.head == wrap(self.tail + self.length)
        &&& forall|p: int|
            0 <= p < INPUT_QUEUE_LENGTH && self.age(p) >= self.length ==> (
            #[trigger] self.cell(p)).is_vacant()
        &&& self@.valid()
    }

    /// The ring position before `head`.
    pub fn prev_pos(head: usize) -> (r: usize)
        ensures
            r == Self::before(head as int),
            head == 0 ==> r == INPUT_QUEUE_LENGTH - 1,
            head > 0 ==> r == head - 1,
    {
        if head == 0 {
            INPUT_QUEUE_LENGTH - 1
        } else {
            head - 1
        }
    }

    /// An empty queue, without a frame delay.
    pub fn new() -> (r: Self)
        ensures
            r.wf(),
            r@.entries.len() == 0,
            r@.head == 0,
            r@.first_frame,
            r@.last_added_frame == NULL_FRAME,
            r@.last_user_frame == NULL_FRAME,
            r@.first_incorrect_frame == NULL_FRAME,
            r@.last_requested_frame == NULL_FRAME,
            r@.frame_delay == 0,
            r@.prediction.frame == NULL_FRAME,
            call_ensures(<T::Input as Default>::default, (), r@.prediction.input),
            r@.latest.frame == NULL_FRAME,
            forall|p: int|
                0 <= p < INPUT_QUEUE_LENGTH ==> call_ensures(
                    <T::Input as Default>::default,
                    (),
                    (#[trigger] r.inputs@[p]).input,
                ),
    {
        let blank = PlayerInput::blank_input(NULL_FRAME);
        let unset = VersionedInput {
            input: T::Input::default(),
            provenance: InputProvenance::Authoritative,
            revision: 0,
        };
        InputQueue {
            head: 0,
            tail: 0,
            length: 0,
            frame_delay: 0,
            first_frame: true,
            last_added_frame: NULL_FRAME,
            last_user_frame: NULL_FRAME,
            first_incorrect_frame: NULL_FRAME,
            last_requested_frame: NULL_FRAME,
            prediction: PlayerInput::blank_input(NULL_FRAME),
            inputs: vec![blank; INPUT_QUEUE_LENGTH],
            slots: vec![unset; INPUT_QUEUE_LENGTH],
            last_transitions: vec![None; INPUT_QUEUE_LENGTH],
        }
    }

    /// The ring position and the place in the queue of a cell in use.
    proof fn lemma_cell(&self, p: int)
        requires
            self.tail < INPUT_QUEUE_LENGTH,
            self.length <= INPUT_QUEUE_LENGTH,
            0 <= p < INPUT_QUEUE_LENGTH,
            self.age(p) < self.length,
        ensures
            self.cell(p) == self@.entries[self.age(p)],
            wrap(self.tail + self.age(p)) == p,
    {
        assert(wrap(self.tail + self.age(p)) == p);
    }

    /// The model computes the same tail.
    proof fn lemma_tail(&self)
        requires
            self.tail < INPUT_QUEUE_LENGTH,
            self.length <= INPUT_QUEUE_LENGTH,
            self.head == wrap(self.tail + self.length),
        ensures
            self@.tail() == self.tail,
            forall|frame: int| #[trigger]
                self@.index_of(frame) == self.age(frame % (INPUT_QUEUE_LENGTH as int)),
    {
    }

    /// Whether the cell at the ring position `offset` is in use.
    pub fn retained_index(&self, offset: usize) -> (r: bool)
        requires
            self.tail < INPUT_QUEUE_LENGTH,
            self.length > 0 ==> offset + INPUT_QUEUE_LENGTH <= usize::MAX,
        ensures
            r == (self.length > 0 && (offset + INPUT_QUEUE_LENGTH - self.tail) % (
            INPUT_QUEUE_LENGTH as int) < self.length),
            offset < INPUT_QUEUE_LENGTH ==> r == (self.age(offset as int) < self.length),
    {
        self.length > 0 && (offset + INPUT_QUEUE_LENGTH - self.tail) % INPUT_QUEUE_LENGTH
            < self.length
    }

    /// The input of `frame` with its provenance and revision, if the queue still
    /// holds it.
    pub fn slot_state(&self, frame: Frame) -> (r: Option<VersionedInput<T::Input>>)
        requires
            self.wf(),
        ensures
            r == match self@.lookup(frame) {
                Some(entry) => Some(entry.slot),
                None => None,
            },
    {
        if frame < 0 {
            return None;
        }
        let offset: usize = frame as usize % INPUT_QUEUE_LENGTH;
        proof {
            self.lemma_tail();
            if self.age(offset as int) < self.length {
                self.lemma_cell(offset as int);
            }
        }
        if self.retained_index(offset) && self.inputs[offset].frame == frame {
            Some(self.slots[offset])
        } else {
            None
        }
    }

    /// Adds an input right behind the one added last.
    pub fn append_sequential(
        &mut self,
        frame: Frame,
        input: T::Input,
        provenance: InputProvenance,
    )
        requires
            old(self).wf(),
            old(self)@.is_next(frame),
            old(self)@.len() < INPUT_QUEUE_LENGTH,
        ensures
            final(self).wf(),
            final(self)@ == old(self)@.append(frame, input, provenance),
    {
        let offset: usize = self.head;
        self.inputs[offset] = PlayerInput::new(frame, input);
        self.slots[offset] = VersionedInput { input, provenance, revision: 0 };
        self.last_transitions[offset] = None;
        self.head = (self.head + 1) % INPUT_QUEUE_LENGTH;
        self.length += 1;
        self.first_frame = false;
        self.last_added_frame = frame;
        proof {
            let before = old(self);
            assert forall|p: int|
                0 <= p < INPUT_QUEUE_LENGTH && self.age(p) >= self.length implies (
            #[trigger] self.cell(p)).is_vacant() by {
                assert(self.cell(p) == before.cell(p));
            }
            assert forall|i: int| 0 <= i < before.length implies #[trigger] self@.entries[i]
                == before@.entries[i] by {
                assert(wrap(self.tail + i) != offset);
            }
            assert(self@.entries =~= before@.entries.push(
                QueueEntry::fresh(frame, input, provenance),
            ));
            assert(self@ =~= before@.append(frame, input, provenance));
            before@.lemma_append_valid(frame, input, provenance);
        }
    }

    /// Replaces the input of a frame that the queue still holds.
    ///
    /// The caller names what it expects to be replaced. Repeating the last
    /// replacement changes nothing; what contradicts it is refused.
    pub fn replace_past_slot(
        &mut self,
        frame: Frame,
        expected: VersionedInput<T::Input>,
        input: T::Input,
    ) -> (r: Result<InputReplacementResult, InputReplacementError>)
        requires
            old(self).wf(),
        ensures
            final(self).wf(),
            old(self)@.replace_answer(frame, expected, input, r, final(self)@),
            r != Ok::<_, InputReplacementError>(InputReplacementResult::Replaced) ==> *final(self)
                == *old(self),
    {
        if frame < 0 {
            return Err(InputReplacementError::InvalidFrame);
        }
        let offset: usize = frame as usize % INPUT_QUEUE_LENGTH;
        proof {
            self.lemma_tail();
            if self.age(offset as int) < self.length {
                self.lemma_cell(offset as int);
            }
        }
        if !self.retained_index(offset) || self.inputs[offset].frame != frame {
            return Err(InputReplacementError::OutOfRetention);
        }
        let current = self.slots[offset];
        if let Some(transition) = self.last_transitions[offset] {
            if transition.expected == expected && transition.replacement.input == input
                && transition.replacement.provenance == InputProvenance::Authoritative && current
                == transition.replacement {
                return Ok(InputReplacementResult::RetryNoOp);
            }
            if transition.expected == expected && current == transition.replacement && input
                != transition.replacement.input {
                return Err(InputReplacementError::Conflict);
            }
            if transition.replacement.input == input && transition.replacement.provenance
                == InputProvenance::Authoritative && current != expected {
                return Err(InputReplacementError::Conflict);
            }
        }
        if current != expected {
            return if current.input == input && current.provenance
                == InputProvenance::Authoritative {
                Err(InputReplacementError::Conflict)
            } else {
                Err(InputReplacementError::ExpectedStateMismatch)
            };
        }
        if current.input == input && current.provenance == InputProvenance::Authoritative {
            return Err(InputReplacementError::Conflict);
        }
        let revision: u64 = match current.revision.checked_add(1) {
            Some(revision) => revision,
            None => {
                return Err(InputReplacementError::RevisionOverflow);
            },
        };
        let replacement = VersionedInput {
            input,
            provenance: InputProvenance::Authoritative,
            revision,
        };
        self.inputs[offset].input = input;
        self.slots[offset] = replacement;
        self.last_transitions[offset] = Some(InputTransition { expected, replacement });
        if current.input != input && (self.first_incorrect_frame == NULL_FRAME || frame
            < self.first_incorrect_frame) {
            self.first_incorrect_frame = frame;
        }
        proof {
            let before = old(self);
            let i = before.age(offset as int);
            assert forall|p: int|
                0 <= p < INPUT_QUEUE_LENGTH && self.age(p) >= self.length implies (
            #[trigger] self.cell(p)).is_vacant() by {
                assert(self.cell(p) == before.cell(p));
            }
            let replaced = before@.entries[i].replaced(expected, input);
            assert(self.cell(offset as int) == replaced);
            assert forall|j: int| 0 <= j < before.length && j != i implies
                #[trigger] self@.entries[j] == before@.entries[j] by {
                assert(wrap(self.tail + j) != offset);
            }
            assert(self@.entries =~= before@.entries.update(i, replaced));
            assert(before@.entry_is_valid(i, before@.entries[i]));
            assert forall|j: int| 0 <= j < self.length implies self@.entry_is_valid(
                j,
                #[trigger] self@.entries[j],
            ) by {
                assert(before@.entry_is_valid(j, before@.entries[j]));
            }
            assert((self.head == 0 && offset == INPUT_QUEUE_LENGTH - 1) || offset == self.head - 1
                <==> i == self.length - 1);
        }
        Ok(InputReplacementResult::Replaced)
    }

    /// All fields agree but for the cells and for where the tail is.
    spec fn same_marks(&self, other: &Self) -> bool {
        &&& self.head == other.head
        &&& self.first_frame == other.first_frame
        &&& self.last_added_frame == other.last_added_frame
        &&& self.last_user_frame == other.last_user_frame
        &&& self.first_incorrect_frame == other.first_incorrect_frame
        &&& self.last_requested_frame == other.last_requested_frame
        &&& self.frame_delay == other.frame_delay
        &&& self.prediction == other.prediction
        &&& self.inputs@.len() == other.inputs@.len()
        &&& self.slots@.len() == other.slots@.len()
        &&& self.last_transitions@.len() == other.last_transitions@.len()
    }

    /// The cell was given up: it is vacant, though the input is still in it.
    spec fn vacated(&self, before: &Self, p: int) -> bool {
        self.cell(p).is_vacant() && self.cell(p).input == before.cell(p).input
    }

    /// Gives up the cell at a ring position.
    fn vacate(&mut self, position: usize)
        requires
            position < INPUT_QUEUE_LENGTH,
            old(self).inputs@.len() == INPUT_QUEUE_LENGTH,
            old(self).slots@.len() == INPUT_QUEUE_LENGTH,
            old(self).last_transitions@.len() == INPUT_QUEUE_LENGTH,
        ensures
            final(self).same_marks(old(self)),
            final(self).tail == old(self).tail,
            final(self).length == old(self).length,
            final(self).vacated(old(self), position as int),
            forall|p: int|
                0 <= p < INPUT_QUEUE_LENGTH && p != position ==> #[trigger] final(self).cell(p)
                    == old(self).cell(p),
    {
        self.inputs[position].frame = NULL_FRAME;
        self.slots[position] = VersionedInput {
            input: T::Input::default(),
            provenance: InputProvenance::Authoritative,
            revision: 0,
        };
        self.last_transitions[position] = None;
    }

    /// The tail has moved past `k` cells, and those are vacant now.
    proof fn lemma_dropped(&self, before: &Self, k: int)
        requires
            before.wf(),
            self.same_marks(before),
            0 <= k <= before.length,
            self.tail == wrap(before.tail + k),
            self.length == before.length - k,
            forall|p: int|
                0 <= p < INPUT_QUEUE_LENGTH ==> if before.age(p) < k {
                    self.vacated(before, p)
                } else {
                    #[trigger] self.cell(p) == before.cell(p)
                },
        ensures
            self.wf(),
            self@ == before@.drop_front(k),
    {
        assert forall|p: int|
            0 <= p < INPUT_QUEUE_LENGTH && self.age(p) >= self.length implies (
        #[trigger] self.cell(p)).is_vacant() by {
            if before.age(p) >= k {
                assert(self.cell(p) == before.cell(p));
                assert(before.age(p) >= before.length);
            }
        }
        assert forall|i: int| 0 <= i < self.length implies #[trigger] self@.entries[i]
            == before@.entries[i + k] by {
            let p = wrap(self.tail + i);
            assert(p == wrap(before.tail + (i + k)));
            assert(before.age(p) == i + k);
            assert(self.cell(p) == before.cell(p));
        }
        assert(self@.entries =~= before@.entries.skip(k));
        let last = Self::before(self.head as int);
        assert(self.cell(last).input == before.cell(last).input);
        if before.length == 0 {
            assert(before.cell(last).is_vacant());
        } else {
            assert(before.age(last) == before.length - 1);
        }
        assert(self@ =~= before@.drop_front(k));
        before@.lemma_drop_front_valid(k);
    }

    /// Gives up all frames up to `frame`.
    pub fn trim_external_through(&mut self, frame: Frame)
        requires
            old(self).wf(),
        ensures
            final(self).wf(),
            final(self)@ == old(self)@.trim(frame),
    {
        if frame < 0 || self.length == 0 {
            proof {
                if frame >= 0 {
                    let k = self@.lemma_trim(frame);
                    assert(self@.drop_front(k) =~= self@);
                }
            }
            return;
        }
        let ghost before = *self;
        let ghost k = self@.lemma_trim(frame);
        let old_tail: usize = self.tail;
        let old_length: usize = self.length;
        let mut removed: usize = 0;
        for offset in 0..INPUT_QUEUE_LENGTH
            invariant
                before.wf(),
                self.same_marks(&before),
                self.tail == before.tail,
                self.length == before.length,
                old_tail == before.tail,
                old_length == before.length,
                0 <= k <= before.length,
                forall|i: int| 0 <= i < k ==> (#[trigger] before@.entries[i]).frame <= frame,
                forall|i: int|
                    k <= i < before@.len() ==> (#[trigger] before@.entries[i]).frame > frame,
                removed <= offset,
                removed == 0 ==> forall|p: int|
                    0 <= p < offset ==> #[trigger] before.age(p) >= k,
                forall|p: int|
                    0 <= p < INPUT_QUEUE_LENGTH ==> if p < offset && before.age(p) < k {
                        self.vacated(&before, p)
                    } else {
                        #[trigger] self.cell(p) == before.cell(p)
                    },
        {
            let retained: usize = (offset + INPUT_QUEUE_LENGTH - old_tail) % INPUT_QUEUE_LENGTH;
            assert(retained == before.age(offset as int));
            assert(self.cell(offset as int) == before.cell(offset as int));
            proof {
                if retained < old_length {
                    before.lemma_cell(offset as int);
                }
            }
            if retained < old_length && self.inputs[offset].frame <= frame {
                self.vacate(offset);
                removed += 1;
            }
        }
        if removed == 0 {
            proof {
                if k > 0 {
                    assert(before.age(wrap(before.tail + 0)) == 0);
                }
                self.lemma_dropped(&before, 0);
            }
            return;
        }
        let ghost mut j: int = 0;
        while self.length > 0 && self.inputs[self.tail].frame == NULL_FRAME
            invariant
                before.wf(),
                self.same_marks(&before),
                frame >= 0,
                0 <= j <= k <= before.length,
                self.tail == wrap(before.tail + j),
                self.length == before.length - j,
                forall|i: int|
                    k <= i < before@.len() ==> (#[trigger] before@.entries[i]).frame > frame,
                forall|p: int|
                    0 <= p < INPUT_QUEUE_LENGTH ==> if before.age(p) < k {
                        self.vacated(&before, p)
                    } else {
                        #[trigger] self.cell(p) == before.cell(p)
                    },
            decreases self.length,
        {
            let ghost standing = *self;
            proof {
                let p = self.tail as int;
                assert(before.age(p) == j);
                assert(self.cell(p).frame == NULL_FRAME);
                before.lemma_cell(p);
                assert(j < k);
                j = j + 1;
            }
            self.tail = (self.tail + 1) % INPUT_QUEUE_LENGTH;
            self.length -= 1;
            assert forall|p: int| 0 <= p < INPUT_QUEUE_LENGTH implies if before.age(p) < k {
                self.vacated(&before, p)
            } else {
                #[trigger] self.cell(p) == before.cell(p)
            } by {
                assert(self.cell(p) == standing.cell(p));
            }
        }
        proof {
            if j < k {
                assert(before.age(self.tail as int) == j);
                assert(self.cell(self.tail as int).is_vacant());
            }
            self.lemma_dropped(&before, k);
        }
        if self.length == 0 {
            self.tail = self.head;
        }
    }

    /// Discards confirmed frames up to given `frame` from the queue. All confirmed
    /// frames are guaranteed to be synchronized between players, so there is no
    /// need to save the inputs anymore.
    ///
    /// The newest input is kept in any case.
    pub fn discard_confirmed_frames(&mut self, frame: Frame)
        requires
            old(self).wf(),
        ensures
            final(self).wf(),
            final(self)@ == old(self)@.discard(frame),
            frame < 0 || old(self)@.len() == 0 ==> *final(self) == *old(self),
            // What lies before `frame`, before the frame requested last and before the
            // newest one is given up, and nothing else.
            final(self)@.len() <= old(self)@.len(),
            forall|i: int|
                0 <= i < old(self)@.len() - final(self)@.len() ==> {
                    &&& (#[trigger] old(self)@.entries[i]).frame < frame
                    &&& old(self)@.last_requested_frame != NULL_FRAME ==> old(self)@.entries[i].frame
                        < old(self)@.last_requested_frame
                    &&& old(self)@.entries[i].frame < old(self)@.last_added_frame
                },
            frame >= 0 ==> forall|i: int|
                old(self)@.len() - final(self)@.len() <= i < old(self)@.len() ==> {
                    ||| (#[trigger] old(self)@.entries[i]).frame >= frame
                    ||| old(self)@.last_requested_frame != NULL_FRAME && old(self)@.entries[i].frame
                        >= old(self)@.last_requested_frame
                    ||| old(self)@.entries[i].frame == old(self)@.last_added_frame
                },
    {
        proof {
            let k = law_discard_effect(self@, frame);
        }
        if frame < 0 || self.length == 0 {
            return;
        }
        let ghost before = *self;
        let ghost k = self@.discard_count(frame);
        let old_tail: usize = self.tail;
        let old_length: usize = self.length;
        // we only drop frames until the last frame that was requested, otherwise
        // we might delete data still needed
        let mut limit: Frame = frame;
        if self.last_requested_frame != NULL_FRAME && self.last_requested_frame < limit {
            limit = self.last_requested_frame;
        }
        proof {
            self.lemma_cell(self.tail as int);
            assert(self@.entry_is_valid(0, self@.entries[0]));
        }
        // move the tail to "delete inputs", wrap around if necessary
        if limit >= self.last_added_frame {
            // delete all but most recent
            self.tail = Self::prev_pos(self.head);
            self.length = 1;
        } else if limit <= self.inputs[self.tail].frame {
            // we don't need to delete anything
        } else {
            let offset: usize = (limit - self.inputs[self.tail].frame) as usize;
            self.tail = (self.tail + offset) % INPUT_QUEUE_LENGTH;
            self.length -= offset;
        }
        assert forall|p: int| 0 <= p < INPUT_QUEUE_LENGTH implies #[trigger] self.cell(p)
            == before.cell(p) by {}
        for index in 0..INPUT_QUEUE_LENGTH
            invariant
                before.wf(),
                self.same_marks(&before),
                old_tail == before.tail,
                old_length == before.length,
                0 <= k <= before.length,
                self.tail == wrap(before.tail + k),
                self.length == before.length - k,
                forall|p: int|
                    0 <= p < INPUT_QUEUE_LENGTH ==> if p < index && before.age(p) < k {
                        self.vacated(&before, p)
                    } else {
                        #[trigger] self.cell(p) == before.cell(p)
                    },
        {
            let was_retained: bool = old_length > 0 && (index + INPUT_QUEUE_LENGTH - old_tail)
                % INPUT_QUEUE_LENGTH < old_length;
            assert(was_retained == (before.age(index as int) < old_length));
            assert(self.cell(index as int) == before.cell(index as int));
            if was_retained && !self.retained_index(index) {
                self.vacate(index);
            }
        }
        proof {
            self.lemma_dropped(&before, k);
        }
    }

    /// Returns the game input of a single player for a given frame; if that input
    /// does not exist, a prediction is returned instead.
    pub fn input(&mut self, requested_frame: Frame) -> (r: (T::Input, InputStatus))
        requires
            old(self).wf(),
            old(self)@.can_serve(requested_frame),
        ensures
            final(self).wf(),
            // The state changes in what was requested last, and in the prediction.
            final(self)@ == (QueueState {
                last_requested_frame: requested_frame,
                prediction: final(self)@.prediction,
                ..old(self)@
            }),
            // An input in the queue is returned.
            old(self)@.distance(requested_frame) < old(self)@.len() ==> {
                &&& old(self)@.entries[old(self)@.distance(requested_frame)].frame
                    == requested_frame
                &&& r == (
                    old(self)@.entries[old(self)@.distance(requested_frame)].input,
                    InputStatus::Confirmed,
                )
                &&& final(self)@.prediction == old(self)@.prediction
            },
            // Else a prediction that was already made is repeated.
            old(self)@.distance(requested_frame) >= old(self)@.len() && old(self)@.prediction.frame
                >= 0 ==> {
                &&& r == (old(self)@.prediction.input, InputStatus::Predicted)
                &&& final(self)@.prediction == old(self)@.prediction
            },
            // Else the predictor is asked; without a basis the default is used.
            old(self)@.distance(requested_frame) >= old(self)@.len() && old(self)@.prediction.frame
                < 0 ==> {
                &&& final(self)@.prediction.frame == old(self)@.predicted_frame(requested_frame)
                &&& r == (final(self)@.prediction.input, InputStatus::Predicted)
                &&& match old(self)@.prediction_basis(requested_frame) {
                    Some(basis) => call_ensures(
                        <T::InputPredictor as InputPredictor<T::Input>>::predict,
                        (basis.input,),
                        r.0,
                    ),
                    None => call_ensures(<T::Input as Default>::default, (), r.0),
                }
            },
            // The predictor is asked with the input in the newest cell, whatever was
            // requested before.
            old(self)@.distance(requested_frame) >= old(self)@.len() && old(self)@.prediction.frame
                < 0 && requested_frame != 0 && old(self)@.len() > 0 && old(self)@.last_added_frame
                != NULL_FRAME ==> call_ensures(
                <T::InputPredictor as InputPredictor<T::Input>>::predict,
                (old(self)@.entries[old(self)@.len() - 1].input,),
                r.0,
            ),
    {
        let ghost before = *self;
        proof {
            if self.length > 0 {
                self.lemma_cell(self.tail as int);
            } else {
                assert(self.cell(self.tail as int).is_vacant());
            }
        }
        // Remember the last requested frame number for later. We'll need this in
        // add_input() to drop out of prediction mode.
        self.last_requested_frame = requested_frame;
        proof {
            self.lemma_same_cells(&before);
        }

        // If the frame requested is in our range, fetch it out of the queue and
        // return it.
        let distance: i64 = requested_frame as i64 - self.inputs[self.tail].frame as i64;
        if distance < self.length as i64 {
            let offset: usize = (distance as usize + self.tail) % INPUT_QUEUE_LENGTH;
            assert(before.age(offset as int) == distance);
            proof {
                before.lemma_cell(offset as int);
                assert(before@.entry_is_valid(distance as int, before@.entries[distance as int]));
                assert(before@.entry_is_valid(0, before@.entries[0]));
            }
            return (self.inputs[offset].input, InputStatus::Confirmed);
        }
        // We currently don't have a prediction frame
        if self.prediction.frame < 0 {
            // The requested frame isn't in the queue. This means we need to return
            // a prediction frame. Fetch the previous input if we have one, so we
            // can use it to predict the next frame.
            let previous_player_input = if requested_frame == 0 || self.last_added_frame
                == NULL_FRAME {
                None
            } else {
                // basing new prediction frame from previously added frame
                Some(self.inputs[Self::prev_pos(self.head)])
            };
            // Ask the user to predict the input based on the previous input (if
            // any); if we don't get a prediction from the user, default to the
            // default input.
            let input_prediction = match previous_player_input {
                Some(previous) => T::InputPredictor::predict(previous.input),
                None => T::Input::default(),
            };
            // Set the frame number of the predicted input to what it was based on
            let frame_num: Frame = match previous_player_input {
                Some(previous) => previous.frame,
                None => self.prediction.frame,
            };
            let ghost asked = *self;
            // the prediction is for the frame after that
            self.prediction = PlayerInput::new(frame_num + 1, input_prediction);
            proof {
                self.lemma_same_cells(&asked);
            }
        }
        // We must be predicting, so we return the prediction frame contents.

        (self.prediction.input, InputStatus::Predicted)
    }

    /// Nothing but what is known about requests and predictions has changed.
    proof fn lemma_same_cells(&self, before: &Self)
        requires
            before.wf(),
            self.head == before.head,
            self.tail == before.tail,
            self.length == before.length,
            self.inputs == before.inputs,
            self.slots == before.slots,
            self.last_transitions == before.last_transitions,
            self.first_frame == before.first_frame,
            self.last_added_frame == before.last_added_frame,
        ensures
            self.wf(),
            self@.entries == before@.entries,
    {
        assert forall|p: int| 0 <= p < INPUT_QUEUE_LENGTH implies #[trigger] self.cell(p)
            == before.cell(p) by {}
        assert(self@.entries =~= before@.entries);
        assert forall|i: int| 0 <= i < self@.len() implies self@.entry_is_valid(
            i,
            #[trigger] self@.entries[i],
        ) by {
            assert(before@.entry_is_valid(i, before@.entries[i]));
        }
    }

    /// Adds an input frame to the queue at the given frame number. If there are
    /// predicted inputs, we will check those and mark them as incorrect, if
    /// necessary.
    ///
    /// Returns the frame number.
    pub fn add_input_by_frame(&mut self, input: PlayerInput<T::Input>, frame_number: Frame) -> (r:
        Frame)
        requires
            old(self).wf(),
            old(self)@.can_confirm(frame_number),
        ensures
            final(self).wf(),
            r == frame_number,
            T::Input::obeys_eq_spec() ==> final(self)@ == old(self)@.confirm(
                frame_number,
                input.input,
            ),
            final(self)@.same_but_verdicts(old(self)@.confirm(frame_number, input.input)),
            final(self)@.first_incorrect_frame == old(self)@.first_incorrect_frame || final(
                self)@.first_incorrect_frame == frame_number,
            old(self)@.prediction.frame == NULL_FRAME ==> final(self)@ == old(self)@.confirm(
                frame_number,
                input.input,
            ),
            old(self)@.prediction.frame != NULL_FRAME ==> final(self)@.prediction.frame
                == NULL_FRAME || final(self)@.prediction.frame == frame_number + 1,
    {
        // Add the frame to the back of the queue
        self.append_sequential(frame_number, input.input, InputProvenance::Authoritative);
        let ghost appended = *self;

        // We have been predicting. See if the inputs we've gotten match what we've
        // been predicting. If so, don't worry about it.
        if self.prediction.frame != NULL_FRAME {
            // Remember the first input which was incorrect so we can report it
            if self.first_incorrect_frame == NULL_FRAME && !self.prediction.input_matches(&input) {
                self.first_incorrect_frame = frame_number;
            }
            // If this input is the same frame as the last one requested and we
            // still haven't found any mispredicted inputs, we can exit prediction
            // mode. Otherwise, advance the prediction frame count up.

            if self.prediction.frame == self.last_requested_frame && self.first_incorrect_frame
                == NULL_FRAME {
                self.prediction.frame = NULL_FRAME;
            } else {
                self.prediction.frame += 1;
            }
            proof {
                self.lemma_same_cells(&appended);
            }
        }
        frame_number
    }

    /// Advances the queue head to the next frame and either drops inputs or fills
    /// the queue if the input delay has changed since the last frame.
    ///
    /// Returns the frame for which the input is to be used, or `NULL_FRAME` if
    /// there is an input for that frame already.
    pub fn advance_queue_head(&mut self, input_frame: Frame) -> (r: Frame)
        requires
            old(self).wf(),
            old(self)@.can_take(
                input_frame,
                old(self)@.delayed(input_frame) - old(self)@.expected_frame(),
            ),
        ensures
            final(self).wf(),
            old(self)@.expected_frame() > old(self)@.delayed(input_frame) ==> r == NULL_FRAME
                && *final(self) == *old(self),
            old(self)@.expected_frame() <= old(self)@.delayed(input_frame) ==> {
                let filled = old(self)@.fill(
                    old(self)@.latest.input,
                    old(self)@.expected_frame(),
                    old(self)@.delayed(input_frame),
                );
                &&& r == old(self)@.delayed(input_frame)
                &&& T::Input::obeys_eq_spec() || old(self)@.prediction.frame == NULL_FRAME
                    ==> final(self)@ == filled
                &&& final(self)@.same_but_verdicts(filled)
                &&& final(self)@.first_incorrect_frame == old(self)@.first_incorrect_frame || old(
                    self)@.expected_frame() <= final(self)@.first_incorrect_frame < r
                &&& old(self)@.prediction.frame == old(self)@.expected_frame() ==> final(
                    self)@.prediction.frame == NULL_FRAME || final(self)@.prediction.frame == r
            },
    {
        let ghost before = self@;
        let previous_position: usize = Self::prev_pos(self.head);
        let mut expected_frame: Frame = if self.first_frame {
            0
        } else {
            self.inputs[previous_position].frame + 1
        };
        let target_frame: Frame = input_frame + self.frame_delay as i32;
        // This can occur when the frame delay has dropped since the last time we
        // shoved a frame into the system. In this case, there's no room on the
        // queue. Toss it.
        if expected_frame > target_frame {
            return NULL_FRAME;
        }
        // This can occur when the frame delay has been increased since the last
        // time we shoved a frame into the system. We need to replicate the last
        // frame in the queue several times in order to fill the space left.

        let ghost from = expected_frame as int;
        let input_to_replicate = self.inputs[previous_position];
        while expected_frame < target_frame
            invariant
                self.wf(),
                from == before.expected_frame(),
                input_to_replicate.input == before.latest.input,
                before.ready_for(target_frame - from),
                before.valid(),
                from <= expected_frame <= target_frame,
                T::Input::obeys_eq_spec() || before.prediction.frame == NULL_FRAME ==> self@
                    == before.fill(before.latest.input, from, expected_frame as int),
                self@.same_but_verdicts(
                    before.fill(before.latest.input, from, expected_frame as int),
                ),
                before.prediction.frame == from ==> self@.prediction.frame == NULL_FRAME
                    || self@.prediction.frame == expected_frame,
                self@.first_incorrect_frame == before.first_incorrect_frame || from
                    <= self@.first_incorrect_frame < expected_frame,
            decreases target_frame - expected_frame,
        {
            proof {
                before.lemma_fill(before.latest.input, from, expected_frame as int);
            }
            self.add_input_by_frame(input_to_replicate, expected_frame);
            expected_frame += 1;
        }
        target_frame
    }

    /// Adds an input frame to the queue. Will consider the set frame delay.
    ///
    /// Returns the frame for which the input is used, or `NULL_FRAME` if it was
    /// dropped.
    pub fn add_input(&mut self, input: PlayerInput<T::Input>) -> (r: Frame)
        requires
            old(self).wf(),
            old(self)@.last_user_frame < i32::MAX,
            old(self)@.is_next_user_frame(input.frame) ==> old(self)@.can_take(
                input.frame,
                old(self)@.delayed(input.frame) - old(self)@.expected_frame() + 1,
            ),
        ensures
            final(self).wf(),
            // An input out of sequence is dropped without a trace.
            !old(self)@.is_next_user_frame(input.frame) ==> r == NULL_FRAME && *final(self) == *old(
                self),
            r == old(self)@.add(input).0,
            T::Input::obeys_eq_spec() || old(self)@.prediction.frame == NULL_FRAME || old(
                self)@.expected_frame() > old(self)@.delayed(input.frame) ==> final(self)@ == old(
                self)@.add(input).1,
            // Where `==` on inputs does not do what its specification says, which
            // predictions were wrong is open, but only for the frames added.
            final(self)@.same_but_verdicts(old(self)@.add(input).1),
            final(self)@.first_incorrect_frame == old(self)@.first_incorrect_frame || old(
                self)@.expected_frame() <= final(self)@.first_incorrect_frame <= old(self)@.delayed(
                input.frame),
            r != NULL_FRAME && old(self)@.prediction.frame != NULL_FRAME ==> final(
                self)@.prediction.frame == NULL_FRAME || final(self)@.prediction.frame == r + 1,
    {
        // Verify that inputs are passed in sequentially by the user. We compare
        // against the raw user frame (before delay is applied) so that changing
        // frame_delay mid-session does not break the sequential check.
        if self.last_user_frame != NULL_FRAME && input.frame != self.last_user_frame + 1 {
            // drop the input if not given sequentially
            return NULL_FRAME;
        }
        let ghost before = *self;
        self.last_user_frame = input.frame;
        proof {
            self.lemma_same_cells(&before);
        }
        let ghost taken = self@;
        // Move the queue head to the correct point in preparation to input the
        // frame into the queue.
        let new_frame: Frame = self.advance_queue_head(input.frame);
        // if the frame is valid, then add the input
        if new_frame != NULL_FRAME {
            proof {
                taken.lemma_fill(taken.latest.input, taken.expected_frame(), new_frame as int);
            }
            self.add_input_by_frame(input, new_frame);
        }
        new_frame
    }

    /// The first frame that is known to have been predicted wrongly, or
    /// `NULL_FRAME`.
    pub fn first_incorrect_frame(&self) -> (r: Frame)
        ensures
            r == self@.first_incorrect_frame,
    {
        self.first_incorrect_frame
    }

    /// Changes the frame delay and returns any fill inputs that were implicitly
    /// added to bridge the gap. The caller is responsible for sending these to
    /// remote peers so they see consecutive frame numbers.
    pub fn set_frame_delay(&mut self, delay: usize) -> (r: Vec<PlayerInput<T::Input>>)
        requires
            old(self).wf(),
            delay > old(self)@.frame_delay && old(self)@.last_added_frame != NULL_FRAME ==> old(
                self)@.gap_end(delay) <= i32::MAX,
        ensures
            final(self).wf(),
            final(self)@ == (QueueState { frame_delay: delay, ..old(self)@ }),
            r@ == old(self)@.bridge(delay),
    {
        let old_delay: usize = self.frame_delay;
        let ghost before = *self;
        self.frame_delay = delay;
        proof {
            self.lemma_same_cells(&before);
        }
        let mut fills: Vec<PlayerInput<T::Input>> = Vec::new();
        if delay <= old_delay || self.last_added_frame == NULL_FRAME {
            assert(fills@ =~= before@.bridge(delay));
            return fills;
        }
        let mut next: i64 = self.last_added_frame as i64 + 1;
        let end: i64 = if self.last_user_frame == NULL_FRAME {
            // The user goes on where the queue ends.
            self.last_added_frame as i64 + ((delay - old_delay) as i32) as i64
        } else {
            // An earlier change of the delay has bridged the gap up to the frame
            // before the one for which the next input would have been used.
            let next_used: i64 = self.last_user_frame as i64 + (old_delay as i32) as i64 + 1;
            if next < next_used {
                next = next_used;
            }
            self.last_user_frame as i64 + (delay as i32) as i64
        };
        let last_input = self.inputs[Self::prev_pos(self.head)];
        let ghost start = next as int;
        while next <= end
            invariant
                i32::MIN <= start <= next,
                end <= i32::MAX,
                start <= end ==> next <= end + 1,
                start > end ==> next == start,
                last_input == before@.latest,
                fills@ == repeated(last_input.input, start, next - 1),
            decreases end + 1 - next,
        {
            fills.push(PlayerInput::new(next as i32, last_input.input));
            next += 1;
            assert(fills@ =~= repeated(last_input.input, start, next - 1));
        }
        assert(fills@ =~= before@.bridge(delay));
        fills
    }

    /// Forgets the prediction, and which predictions were wrong.
    pub fn reset_prediction(&mut self)
        requires
            old(self).wf(),
        ensures
            final(self).wf(),
            final(self)@ == (QueueState {
                prediction: PlayerInput {
                    frame: NULL_FRAME,
                    input: old(self)@.prediction.input,
                },
                first_incorrect_frame: NULL_FRAME,
                last_requested_frame: NULL_FRAME,
                ..old(self)@
            }),
    {
        let ghost before = *self;
        self.prediction.frame = NULL_FRAME;
        self.first_incorrect_frame = NULL_FRAME;
        self.last_requested_frame = NULL_FRAME;
        proof {
            self.lemma_same_cells(&before);
        }
    }

    /// Adds a predicted input for the next frame.
    pub fn materialize_predicted(&mut self, frame: Frame, input: T::Input) -> (r: Result<
        (),
        InputReplacementError,
    >)
        requires
            old(self).wf(),
            frame >= 0 && !old(self)@.first_frame ==> old(self)@.last_added_frame < i32::MAX,
        ensures
            final(self).wf(),
            frame < 0 || !old(self)@.is_next(frame) ==> r == Err::<(), _>(
                InputReplacementError::InvalidFrame,
            ),
            frame >= 0 && old(self)@.is_next(frame) && old(self)@.len() == INPUT_QUEUE_LENGTH
                ==> r == Err::<(), _>(InputReplacementError::OutOfRetention),
            frame >= 0 && old(self)@.is_next(frame) && old(self)@.len() < INPUT_QUEUE_LENGTH
                ==> r == Ok::<_, InputReplacementError>(()),
            r is Ok ==> final(self)@ == old(self)@.append(frame, input, InputProvenance::Predicted),
            r is Err ==> *final(self) == *old(self),
    {
        if frame < 0 || (!self.first_frame && frame != self.last_added_frame + 1) {
            return Err(InputReplacementError::InvalidFrame);
        }
        if self.length == INPUT_QUEUE_LENGTH {
            return Err(InputReplacementError::OutOfRetention);
        }
        self.append_sequential(frame, input, InputProvenance::Predicted);
        Ok(())
    }

    /// The cell at a ring position is in use, for a later frame.
    spec fn keeps(&self, position: int, frame: Frame) -> bool {
        self.age(position) < self.length && self.inputs@[position].frame > frame
    }

    /// Whether `frame` is the next one and there is room for it once the frames
    /// up to `trim_through` are given up.
    pub fn can_append_after_trim(&self, frame: Frame, trim_through: Frame) -> (r: bool)
        requires
            self.wf(),
            frame >= 0 && !self@.first_frame ==> self@.last_added_frame < i32::MAX,
        ensures
            r == (frame >= 0 && self@.is_next(frame) && self@.entries_after(trim_through).len()
                < INPUT_QUEUE_LENGTH),
    {
        if frame < 0 || (!self.first_frame && frame != self.last_added_frame + 1) {
            return false;
        }
        let mut retained_after_trim: usize = 0;
        let ghost mut gap: int = 0;
        for offset in 0..INPUT_QUEUE_LENGTH
            invariant
                self.wf(),
                retained_after_trim <= offset,
                retained_after_trim == offset ==> forall|p: int|
                    0 <= p < offset ==> #[trigger] self.keeps(p, trim_through),
                retained_after_trim < offset ==> 0 <= gap < offset && !self.keeps(
                    gap,
                    trim_through,
                ),
        {
            if self.retained_index(offset) && self.inputs[offset].frame > trim_through {
                retained_after_trim += 1;
            } else {
                proof {
                    gap = offset as int;
                }
            }
        }
        proof {
            let keep = |entry: QueueEntry<T::Input>| entry.frame > trim_through;
            lemma_filter_all(self@.entries, keep);
            if retained_after_trim == INPUT_QUEUE_LENGTH {
                assert(self.keeps(Self::before(self.tail as int), trim_through));
                assert forall|i: int| 0 <= i < self@.len() implies keep(
                    #[trigger] self@.entries[i],
                ) by {
                    assert(self.keeps(wrap(self.tail + i), trim_through));
                }
            } else if self.length == INPUT_QUEUE_LENGTH {
                self.lemma_cell(gap);
                assert(!keep(self@.entries[self.age(gap)]));
            }
        }
        retained_after_trim < INPUT_QUEUE_LENGTH
    }

    /// The input of `frame` and how much it can be relied upon, if the queue still
    /// holds it.
    pub fn current_input(&self, frame: Frame) -> (r: Option<(T::Input, InputStatus)>)
        requires
            self.wf(),
        ensures
            r == self@.visible(frame),
            // The status follows from where the input came from, whatever the frame.
            self@.lookup(frame) is None ==> r is None,
            self@.lookup(frame) matches Some(entry) ==> r == Some(
                (
                    entry.slot.input,
                    match entry.slot.provenance {
                        InputProvenance::Predicted => InputStatus::Predicted,
                        InputProvenance::Authoritative => InputStatus::Confirmed,
                    },
                ),
            ),
    {
        let slot = match self.slot_state(frame) {
            Some(slot) => slot,
            None => {
                return None;
            },
        };
        let status = match slot.provenance {
            InputProvenance::Predicted => InputStatus::Predicted,
            InputProvenance::Authoritative => InputStatus::Confirmed,
        };
        Some((slot.input, status))
    }

    /// Returns a `PlayerInput`, but only if the input for the requested frame is
    /// confirmed. In contrast to `input()`, this will not return a prediction if
    /// there is no confirmed input for the frame.
    pub fn confirmed_input(&self, requested_frame: Frame) -> (r: PlayerInput<T::Input>)
        requires
            self.wf(),
            self@.holds(requested_frame),
            self@.lookup(requested_frame)->0.slot.provenance == InputProvenance::Authoritative,
        ensures
            r == (PlayerInput {
                frame: requested_frame,
                input: self@.lookup(requested_frame)->0.input,
            }),
    {
        let offset: usize = requested_frame as usize % INPUT_QUEUE_LENGTH;
        proof {
            self.lemma_tail();
            self.lemma_cell(offset as int);
        }
        self.inputs[offset]
    }
}

/// How much an input can be relied upon, by where it came from.
pub open spec fn status_of(provenance: InputProvenance) -> InputStatus {
    match provenance {
        InputProvenance::Predicted => InputStatus::Predicted,
        InputProvenance::Authoritative => InputStatus::Confirmed,
    }
}

} // verus!
