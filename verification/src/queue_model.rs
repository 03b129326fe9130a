//! The mathematical picture of an input queue: a run of consecutive frames,
//! oldest first, and what is known about predictions.

use vstd::prelude::*;
use vstd::std_specs::cmp::PartialEqSpec;
use crate::config::{Frame, InputStatus, NULL_FRAME};
use crate::frame_info::PlayerInput;
use crate::input_queue::{status_of, INPUT_QUEUE_LENGTH};
use crate::versioned_input::{
    replacement_verdict, InputProvenance, InputReplacementError, InputReplacementResult,
    InputTransition, VersionedInput,
};

verus! {

/// A ring position, for an `x` that is at most one lap ahead.
pub open spec fn wrap(x: int) -> int {
    if x < INPUT_QUEUE_LENGTH {
        x
    } else {
        x - INPUT_QUEUE_LENGTH
    }
}

/// The same input for all frames of a range, the last one included.
pub open spec fn repeated<I>(input: I, from: int, to: int) -> Seq<PlayerInput<I>> {
    Seq::new(
        if from <= to {
            (to - from + 1) as nat
        } else {
            0
        },
        |i: int| PlayerInput { frame: (from + i) as Frame, input },
    )
}

/// One cell of the queue.
#[verifier::ext_equal]
pub struct QueueEntry<I> {
    /// The frame of the input, or `NULL_FRAME`.
    pub frame: Frame,
    /// The input.
    pub input: I,
    /// The input with its provenance and revision.
    pub slot: VersionedInput<I>,
    /// The last replacement that was made in the cell.
    pub transition: Option<InputTransition<I>>,
}

impl<I: PartialEq + Default> QueueEntry<I> {
    /// An input that has just been added.
    pub open spec fn fresh(frame: Frame, input: I, provenance: InputProvenance) -> Self {
        QueueEntry {
            frame,
            input,
            slot: VersionedInput { input, provenance, revision: 0 },
            transition: None,
        }
    }

    /// The cell holds no frame, and no trace of a slot or of a replacement.
    pub open spec fn is_vacant(self) -> bool {
        &&& self.frame == NULL_FRAME
        &&& self.slot.provenance == InputProvenance::Authoritative
        &&& self.slot.revision == 0
        &&& call_ensures(I::default, (), self.slot.input)
        &&& self.transition is None
    }

    /// The slot holds the input, and the recorded replacement is the one that
    /// led to the slot as it is.
    pub open spec fn is_consistent(self) -> bool {
        &&& self.slot.input == self.input
        &&& self.transition matches Some(t) ==> {
            &&& t.replacement == self.slot
            &&& t.replacement.provenance == InputProvenance::Authoritative
            &&& t.expected.revision + 1 == t.replacement.revision
        }
    }

    /// The cell after its input was replaced by `input`.
    pub open spec fn replaced(self, expected: VersionedInput<I>, input: I) -> Self {
        let replacement = VersionedInput {
            input,
            provenance: InputProvenance::Authoritative,
            revision: (self.slot.revision + 1) as u64,
        };
        QueueEntry {
            frame: self.frame,
            input,
            slot: replacement,
            transition: Some(InputTransition { expected, replacement }),
        }
    }
}

/// An input queue.
#[verifier::ext_equal]
pub struct QueueState<I> {
    /// The cells in use, oldest first.
    pub entries: Seq<QueueEntry<I>>,
    /// The ring position of the next cell to be used.
    pub head: int,
    /// What stands in the cell before `head`: the input added last. Its frame
    /// is `NULL_FRAME` once the cell is no longer in use.
    pub latest: PlayerInput<I>,
    pub first_frame: bool,
    pub last_added_frame: Frame,
    pub last_user_frame: Frame,
    pub first_incorrect_frame: Frame,
    pub last_requested_frame: Frame,
    pub frame_delay: usize,
    pub prediction: PlayerInput<I>,
}

impl<I: PartialEq + Default> QueueState<I> {
    /// The number of cells in use.
    pub open spec fn len(self) -> nat {
        self.entries.len()
    }

    /// The frame that the cell `i` holds, as no frame is missing.
    pub open spec fn frame_of(self, i: int) -> int {
        self.last_added_frame - (self.len() - 1 - i)
    }

    /// What is true of every queue. The cells in use hold consecutive frames, up
    /// to the one added last.
    pub open spec fn valid(self) -> bool {
        &&& 0 <= self.head < INPUT_QUEUE_LENGTH
        &&& self.len() <= INPUT_QUEUE_LENGTH
        &&& forall|i: int|
            0 <= i < self.len() ==> self.entry_is_valid(i, #[trigger] self.entries[i])
        &&& if self.len() == 0 {
            self.latest.frame == NULL_FRAME
        } else {
            &&& self.latest.frame == self.entries.last().frame
            &&& self.latest.input == self.entries.last().input
        }
        &&& self.first_frame ==> {
            &&& self.head == 0
            &&& self.last_added_frame == NULL_FRAME
            &&& self.len() == 0
        }
    }

    pub open spec fn entry_is_valid(self, i: int, entry: QueueEntry<I>) -> bool {
        entry.is_consistent() && entry.frame == self.frame_of(i)
    }

    /// The frame in the oldest cell.
    pub open spec fn front_frame(self) -> Frame {
        if self.len() == 0 {
            NULL_FRAME
        } else {
            self.entries[0].frame
        }
    }

    /// The ring position of the oldest cell.
    pub open spec fn tail(self) -> int {
        wrap(self.head + INPUT_QUEUE_LENGTH - self.len())
    }

    /// How far behind the oldest cell the cell for `frame` is: frames are looked
    /// up by their number, modulo the length of the ring.
    pub open spec fn index_of(self, frame: int) -> int {
        wrap(frame % (INPUT_QUEUE_LENGTH as int) + INPUT_QUEUE_LENGTH - self.tail())
    }

    /// Whether the cell in which `frame` is looked up is in use and holds it.
    pub open spec fn holds(self, frame: Frame) -> bool {
        &&& 0 <= frame
        &&& self.index_of(frame as int) < self.len()
        &&& self.entries[self.index_of(frame as int)].frame == frame
    }

    /// The cell that holds `frame`.
    pub open spec fn lookup(self, frame: Frame) -> Option<QueueEntry<I>> {
        if self.holds(frame) {
            Some(self.entries[self.index_of(frame as int)])
        } else {
            None
        }
    }

    /// The input of `frame` as the game gets it, if the queue holds it.
    pub open spec fn visible(self, frame: Frame) -> Option<(I, InputStatus)> {
        match self.lookup(frame) {
            Some(entry) => Some((entry.slot.input, status_of(entry.slot.provenance))),
            None => None,
        }
    }

    /// Whether `frame` is the one to be added next. A queue takes any frame as
    /// its first.
    pub open spec fn is_next(self, frame: Frame) -> bool {
        self.first_frame || frame == self.last_added_frame + 1
    }

    /// An input is added.
    pub open spec fn append(self, frame: Frame, input: I, provenance: InputProvenance) -> Self {
        QueueState {
            entries: self.entries.push(QueueEntry::fresh(frame, input, provenance)),
            head: wrap(self.head + 1),
            latest: PlayerInput { frame, input },
            first_frame: false,
            last_added_frame: frame,
            ..self
        }
    }

    /// The oldest `k` cells are given up.
    pub open spec fn drop_front(self, k: int) -> Self {
        QueueState {
            entries: self.entries.skip(k),
            latest: if k == self.len() {
                PlayerInput { frame: NULL_FRAME, input: self.latest.input }
            } else {
                self.latest
            },
            ..self
        }
    }

    /// How a request to replace the input of `frame` is answered.
    pub open spec fn replace_verdict(
        self,
        frame: Frame,
        expected: VersionedInput<I>,
        input: I,
    ) -> Result<InputReplacementResult, InputReplacementError> {
        if frame < 0 {
            Err(InputReplacementError::InvalidFrame)
        } else {
            match self.lookup(frame) {
                None => Err(InputReplacementError::OutOfRetention),
                Some(entry) => replacement_verdict(entry.slot, entry.transition, expected, input),
            }
        }
    }

    /// The input of `frame` is replaced. Where that changes it, `frame` counts
    /// as predicted wrongly.
    pub open spec fn replace(self, frame: Frame, expected: VersionedInput<I>, input: I) -> Self {
        let i = self.index_of(frame as int);
        let changed = !self.entries[i].slot.input.eq_spec(&input);
        QueueState {
            entries: self.entries.update(i, self.entries[i].replaced(expected, input)),
            latest: if i == self.len() - 1 {
                PlayerInput { frame: self.latest.frame, input }
            } else {
                self.latest
            },
            first_incorrect_frame: if changed && (self.first_incorrect_frame == NULL_FRAME || frame
                < self.first_incorrect_frame) {
                frame
            } else {
                self.first_incorrect_frame
            },
            ..self
        }
    }

    /// `r` is the answer to a request to replace the input of `frame`, and `next`
    /// what the queue is after it. All of it is fixed if `==` on inputs does what
    /// its specification says; the rest holds in any case.
    pub open spec fn replace_answer(
        self,
        frame: Frame,
        expected: VersionedInput<I>,
        input: I,
        r: Result<InputReplacementResult, InputReplacementError>,
        next: Self,
    ) -> bool {
        let done = self.replace(frame, expected, input);
        &&& I::obeys_eq_spec() ==> r == self.replace_verdict(frame, expected, input)
        &&& r == Err::<InputReplacementResult, _>(InputReplacementError::InvalidFrame) <==> frame
            < 0
        &&& r == Err::<InputReplacementResult, _>(InputReplacementError::OutOfRetention) <==> frame
            >= 0 && !self.holds(frame)
        &&& r matches Err(error) ==> {
            ||| error == InputReplacementError::InvalidFrame
            ||| error == InputReplacementError::OutOfRetention
            ||| error == InputReplacementError::ExpectedStateMismatch
            ||| error == InputReplacementError::Conflict
            ||| error == InputReplacementError::RevisionOverflow && self.lookup(
                frame,
            )->0.slot.revision == u64::MAX
        }
        &&& r == Ok::<_, InputReplacementError>(InputReplacementResult::Replaced) ==> {
            &&& self.holds(frame)
            &&& self.lookup(frame)->0.slot.revision < u64::MAX
            &&& I::obeys_eq_spec() ==> next == done
            &&& next == (QueueState { first_incorrect_frame: next.first_incorrect_frame, ..done })
            &&& next.first_incorrect_frame == frame || next.first_incorrect_frame
                == self.first_incorrect_frame
        }
        &&& r != Ok::<_, InputReplacementError>(InputReplacementResult::Replaced) ==> next == self
    }

    /// The cells whose frame comes after `frame`.
    pub open spec fn entries_after(self, frame: Frame) -> Seq<QueueEntry<I>> {
        self.entries.filter(|entry: QueueEntry<I>| entry.frame > frame)
    }

    /// All cells up to `frame` are given up.
    pub open spec fn trim(self, frame: Frame) -> Self {
        if frame < 0 {
            self
        } else {
            QueueState {
                entries: self.entries_after(frame),
                latest: if self.entries_after(frame).len() == 0 {
                    PlayerInput { frame: NULL_FRAME, input: self.latest.input }
                } else {
                    self.latest
                },
                ..self
            }
        }
    }

    /// The frame up to which a request to discard frames goes: nothing that was
    /// requested last, or later, is discarded.
    pub open spec fn discard_limit(self, frame: Frame) -> Frame {
        if self.last_requested_frame != NULL_FRAME && self.last_requested_frame < frame {
            self.last_requested_frame
        } else {
            frame
        }
    }

    /// The number of cells that a request to discard frames gives up, where there
    /// are any: all but the newest one if the limit reaches so far, else those
    /// before the limit.
    pub open spec fn discard_count(self, frame: Frame) -> int {
        let limit = self.discard_limit(frame);
        if limit >= self.last_added_frame {
            self.len() - 1
        } else if limit <= self.front_frame() {
            0
        } else {
            limit - self.front_frame()
        }
    }

    /// The frames before the limit are given up, but never the newest one.
    pub open spec fn discard(self, frame: Frame) -> Self {
        if frame < 0 || self.len() == 0 {
            self
        } else {
            self.drop_front(self.discard_count(frame))
        }
    }

    /// How far behind the oldest cell a requested frame is, by the frames' numbers.
    pub open spec fn distance(self, frame: Frame) -> int {
        frame - self.front_frame()
    }

    /// The input on which a prediction for `frame` is based: the one added last,
    /// if there is one and `frame` is not the very first.
    pub open spec fn prediction_basis(self, frame: Frame) -> Option<PlayerInput<I>> {
        if frame == 0 || self.last_added_frame == NULL_FRAME {
            None
        } else {
            Some(self.latest)
        }
    }

    /// The frame that a new prediction, made when `frame` is requested, is for.
    pub open spec fn predicted_frame(self, frame: Frame) -> int {
        match self.prediction_basis(frame) {
            Some(basis) => basis.frame + 1,
            None => self.prediction.frame + 1,
        }
    }

    /// Whether the input of `frame` may be asked for. No prediction is known to
    /// be wrong, the frame has not been given up, and a prediction that has to be
    /// made is for a frame.
    pub open spec fn can_serve(self, frame: Frame) -> bool {
        &&& self.first_incorrect_frame == NULL_FRAME
        &&& frame >= self.front_frame()
        &&& self.distance(frame) >= self.len() && self.prediction.frame < 0 ==> {
            &&& self.predicted_frame(frame) != NULL_FRAME
            &&& self.predicted_frame(frame) <= i32::MAX
        }
    }

    /// The true `input` of the predicted frame has become known. The first frame
    /// that was predicted wrongly is remembered. Predicting ends once the frame
    /// requested last has been reached without a mistake; else it goes on with
    /// the next frame.
    pub open spec fn observe(self, input: I) -> Self {
        if self.prediction.frame == NULL_FRAME {
            self
        } else {
            let wrong = !self.prediction.input.eq_spec(&input);
            let first_incorrect_frame = if self.first_incorrect_frame == NULL_FRAME && wrong {
                self.prediction.frame
            } else {
                self.first_incorrect_frame
            };
            let done = self.prediction.frame == self.last_requested_frame && first_incorrect_frame
                == NULL_FRAME;
            QueueState {
                first_incorrect_frame,
                prediction: PlayerInput {
                    frame: if done {
                        NULL_FRAME
                    } else {
                        (self.prediction.frame + 1) as Frame
                    },
                    input: self.prediction.input,
                },
                ..self
            }
        }
    }

    /// The true input of `frame` is added.
    pub open spec fn confirm(self, frame: Frame, input: I) -> Self {
        self.append(frame, input, InputProvenance::Authoritative).observe(input)
    }

    /// Whether the true input of `frame` can be added: it is the next frame, the
    /// one before it is still there, there is room, and a prediction, if one was
    /// made, is for this frame.
    pub open spec fn can_confirm(self, frame: Frame) -> bool {
        &&& self.is_next(frame)
        &&& frame == 0 || self.latest.frame == frame - 1
        &&& self.len() < INPUT_QUEUE_LENGTH
        &&& self.prediction.frame != NULL_FRAME ==> self.prediction.frame == frame && frame
            < i32::MAX
    }

    /// The same input is added for all frames of a range.
    pub open spec fn fill(self, input: I, from: int, to: int) -> Self
        decreases to - from,
    {
        if from >= to {
            self
        } else {
            self.fill(input, from, to - 1).confirm((to - 1) as Frame, input)
        }
    }

    /// The frame that the next input has to be for.
    pub open spec fn expected_frame(self) -> int {
        if self.first_frame {
            0
        } else {
            self.latest.frame + 1
        }
    }

    /// The frame for which an input submitted for `frame` is used.
    pub open spec fn delayed(self, frame: Frame) -> int {
        frame + (self.frame_delay as i32)
    }

    /// Whether `count` inputs can be added: the input added last is still there,
    /// there is room, and a prediction, if one was made, is for the next frame.
    pub open spec fn ready_for(self, count: int) -> bool {
        count > 0 ==> {
            &&& self.first_frame || self.latest.frame == self.last_added_frame
            &&& self.len() + count <= INPUT_QUEUE_LENGTH
            &&& self.prediction.frame != NULL_FRAME ==> {
                &&& self.prediction.frame == self.expected_frame()
                &&& self.expected_frame() + count <= i32::MAX
            }
        }
    }

    /// Whether an input for `frame` can be taken from the user: the frame it is
    /// used for, and the one after the input added last, are frame numbers, and
    /// the inputs up to it can be added.
    pub open spec fn can_take(self, frame: Frame, count: int) -> bool {
        &&& self.expected_frame() <= i32::MAX
        &&& i32::MIN <= self.delayed(frame) <= i32::MAX
        &&& self.ready_for(count)
    }

    /// Whether the user submits the frame after the one submitted last.
    pub open spec fn is_next_user_frame(self, frame: Frame) -> bool {
        self.last_user_frame == NULL_FRAME || frame == self.last_user_frame + 1
    }

    /// The user submits an input; the frame for which it is used, or `NULL_FRAME`
    /// if it is dropped. It is dropped if it is not the next one, and if there is
    /// an input for its frame already. Frames left out are filled with the input
    /// added last.
    pub open spec fn add(self, input: PlayerInput<I>) -> (Frame, Self) {
        let target = self.delayed(input.frame);
        let taken = QueueState { last_user_frame: input.frame, ..self };
        if !self.is_next_user_frame(input.frame) {
            (NULL_FRAME, self)
        } else if self.expected_frame() > target {
            (NULL_FRAME, taken)
        } else {
            let filled = taken.fill(self.latest.input, self.expected_frame(), target);
            if target == NULL_FRAME {
                (NULL_FRAME, filled)
            } else {
                (target as Frame, filled.confirm(target as Frame, input.input))
            }
        }
    }

    /// The last frame that has an input, or for which one was reported to bridge a
    /// gap. With the delay as it is, the user's next input is used right after the
    /// frame of their last one; a user who has not submitted any goes on where the
    /// queue ends.
    pub open spec fn bridged_through(self) -> int {
        if self.last_user_frame != NULL_FRAME && self.last_added_frame < self.delayed(
            self.last_user_frame,
        ) {
            self.delayed(self.last_user_frame)
        } else {
            self.last_added_frame as int
        }
    }

    /// The last frame before the one for which the user's next input is used if the
    /// delay becomes longer. Where they have not submitted any, the end of the queue
    /// moves by as much as the delay does.
    pub open spec fn gap_end(self, delay: usize) -> int {
        if self.last_user_frame == NULL_FRAME {
            self.last_added_frame + ((delay - self.frame_delay) as i32)
        } else {
            self.last_user_frame + (delay as i32)
        }
    }

    /// The inputs that bridge the gap which a longer delay opens: the one added
    /// last, for each frame that has none yet.
    pub open spec fn bridge(self, delay: usize) -> Seq<PlayerInput<I>> {
        if delay <= self.frame_delay || self.last_added_frame == NULL_FRAME {
            Seq::empty()
        } else {
            repeated(self.latest.input, self.bridged_through() + 1, self.gap_end(delay))
        }
    }

    /// Both agree in everything but which predictions proved wrong.
    pub open spec fn same_but_verdicts(self, other: Self) -> bool {
        self == (QueueState {
            first_incorrect_frame: self.first_incorrect_frame,
            prediction: PlayerInput { frame: self.prediction.frame, input: other.prediction.input },
            ..other
        })
    }

    /// What does not depend on predictions after a range of frames was filled.
    pub proof fn lemma_fill(self, input: I, from: int, to: int)
        requires
            self.ready_for(to - from),
            from == self.expected_frame(),
            from <= to <= i32::MAX + 1,
        ensures
            ({
                let filled = self.fill(input, from, to);
                &&& filled.len() == self.len() + (to - from)
                &&& from < to ==> {
                    &&& !filled.first_frame
                    &&& filled.last_added_frame == to - 1
                    &&& filled.latest.frame == to - 1
                    &&& filled.latest.input == input
                }
                &&& self.prediction.frame == from ==> filled.prediction.frame == NULL_FRAME
                    || filled.prediction.frame == to
                &&& self.prediction.frame == NULL_FRAME ==> filled.prediction == self.prediction
                    && filled.first_incorrect_frame == self.first_incorrect_frame
            }),
        decreases to - from,
    {
        if from < to {
            self.lemma_fill(input, from, to - 1);
        }
    }

    pub proof fn lemma_append_valid(self, frame: Frame, input: I, provenance: InputProvenance)
        requires
            self.valid(),
            self.is_next(frame),
            self.len() < INPUT_QUEUE_LENGTH,
        ensures
            self.append(frame, input, provenance).valid(),
    {
        let next = self.append(frame, input, provenance);
        assert forall|i: int| 0 <= i < next.len() implies next.entry_is_valid(
            i,
            #[trigger] next.entries[i],
        ) by {
            if i < self.len() {
                assert(self.entry_is_valid(i, self.entries[i]));
            }
        }
    }

    pub proof fn lemma_drop_front_valid(self, k: int)
        requires
            self.valid(),
            0 <= k <= self.len(),
        ensures
            self.drop_front(k).valid(),
    {
        let next = self.drop_front(k);
        assert forall|i: int| 0 <= i < next.len() implies next.entry_is_valid(
            i,
            #[trigger] next.entries[i],
        ) by {
            assert(self.entry_is_valid(i + k, self.entries[i + k]));
        }
    }

    /// The cells up to a frame are the oldest ones; the number of them.
    pub proof fn lemma_trim(self, frame: Frame) -> (k: int)
        requires
            self.valid(),
            frame >= 0,
        ensures
            0 <= k <= self.len(),
            forall|i: int| 0 <= i < k ==> (#[trigger] self.entries[i]).frame <= frame,
            forall|i: int| k <= i < self.len() ==> (#[trigger] self.entries[i]).frame > frame,
            self.entries_after(frame) == self.entries.skip(k),
            self.trim(frame) == self.drop_front(k),
            self.trim(frame).valid(),
    {
        let n = self.len() as int;
        let reach = frame - self.last_added_frame + n;
        let k = if reach < 0 {
            0
        } else if reach > n {
            n
        } else {
            reach
        };
        assert forall|i: int| 0 <= i < n implies ((#[trigger] self.entries[i]).frame <= frame
            <==> i < k) by {
            assert(self.entry_is_valid(i, self.entries[i]));
        }
        lemma_filter_suffix(self.entries, |entry: QueueEntry<I>| entry.frame > frame, k);
        self.lemma_drop_front_valid(k);
        assert(self.trim(frame) =~= self.drop_front(k));
        k
    }
}

/// Filtering keeps the length only where it drops nothing.
pub proof fn lemma_filter_all<A>(s: Seq<A>, keep: spec_fn(A) -> bool)
    ensures
        s.filter(keep).len() == s.len() <==> forall|i: int| 0 <= i < s.len() ==> keep(#[trigger] s[i]),
        s.filter(keep).len() <= s.len(),
    decreases s.len(),
{
    reveal(Seq::filter);
    if s.len() > 0 {
        let init = s.drop_last();
        lemma_filter_all(init, keep);
        if s.filter(keep).len() == s.len() {
            assert forall|i: int| 0 <= i < s.len() implies keep(#[trigger] s[i]) by {
                if i < init.len() {
                    assert(s[i] == init[i]);
                }
            }
        }
        if forall|i: int| 0 <= i < s.len() ==> keep(#[trigger] s[i]) {
            assert forall|i: int| 0 <= i < init.len() implies keep(#[trigger] init[i]) by {
                assert(init[i] == s[i]);
            }
            assert(keep(s[s.len() - 1]));
        }
    }
}

/// Where exactly the elements from `k` on satisfy a predicate, filtering drops
/// the first `k`.
pub proof fn lemma_filter_suffix<A>(s: Seq<A>, keep: spec_fn(A) -> bool, k: int)
    requires
        0 <= k <= s.len(),
        forall|i: int| 0 <= i < s.len() ==> (keep(#[trigger] s[i]) <==> k <= i),
    ensures
        s.filter(keep) == s.skip(k),
    decreases s.len(),
{
    reveal(Seq::filter);
    if s.len() > 0 {
        let init = s.drop_last();
        let j = if k < s.len() {
            k
        } else {
            k - 1
        };
        assert forall|i: int| 0 <= i < init.len() implies (keep(#[trigger] init[i]) <==> j <= i) by {
            assert(init[i] == s[i]);
        }
        lemma_filter_suffix(init, keep, j);
        assert(keep(s[s.len() - 1]) <==> k <= s.len() - 1);
        if k < s.len() {
            assert(s.skip(k) =~= init.skip(k).push(s.last()));
        } else {
            assert(s.skip(k) =~= init.skip(j));
        }
    } else {
        assert(s.skip(k) =~= s);
    }
}

} // verus!
