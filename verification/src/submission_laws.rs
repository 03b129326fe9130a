//! What holds of a queue to which a player's inputs are submitted, and from which
//! they are requested, frame after frame.

use vstd::prelude::*;
use vstd::std_specs::cmp::PartialEqSpec;
use crate::config::{Frame, InputPredictor, PredictRepeatLast, NULL_FRAME};
use crate::frame_info::PlayerInput;
use crate::input_queue::INPUT_QUEUE_LENGTH;
use crate::queue_laws::{law_lookup, law_replace_reads_back, law_trim};
use crate::queue_model::{QueueEntry, QueueState};
use crate::versioned_input::{
    InputProvenance, InputReplacementError, InputReplacementResult, VersionedInput,
};

verus! {

impl<I: PartialEq + Default> QueueState<I> {
    /// The queue of a player whose inputs started with frame 0. No frame is
    /// missing, the input added last is still there, and a prediction, if one is
    /// being used, is for the frame after it.
    pub open spec fn regular(self) -> bool {
        &&& self.valid()
        &&& self.aligned()
        &&& self.last_added_frame >= NULL_FRAME
        &&& self.first_frame <==> self.last_added_frame == NULL_FRAME
        &&& self.latest.frame == self.last_added_frame
        &&& self.front_frame() >= NULL_FRAME
        &&& self.prediction.frame == NULL_FRAME || self.prediction.frame == self.last_added_frame
            + 1
    }
}

/// An aligned queue holds exactly the frames from the oldest one to the one added
/// last, one after the other.
pub proof fn law_consecutive_frames<I: PartialEq + Default>(q: QueueState<I>, frame: Frame)
    requires
        q.valid(),
        q.aligned(),
        frame >= 0,
    ensures
        forall|i: int|
            0 <= i < q.len() ==> (#[trigger] q.entries[i]).frame == q.front_frame() + i,
        q.len() > 0 ==> q.front_frame() + q.len() - 1 == q.last_added_frame,
        q.holds(frame) <==> q.len() > 0 && q.front_frame() <= frame <= q.last_added_frame,
{
    assert forall|i: int| 0 <= i < q.len() implies (#[trigger] q.entries[i]).frame
        == q.front_frame() + i by {
        assert(q.entry_is_valid(0, q.entries[0]));
        assert(q.entry_is_valid(i, q.entries[i]));
    }
    law_lookup(q, frame);
    if q.len() > 0 && q.front_frame() <= frame <= q.last_added_frame {
        assert(q.entries[frame - q.front_frame()].frame == frame);
    }
}

/// A queue to which nothing was added yet is regular.
pub proof fn law_empty_is_regular<I: PartialEq + Default>(q: QueueState<I>)
    requires
        q.valid(),
        q.first_frame,
        q.prediction.frame == NULL_FRAME,
    ensures
        q.regular(),
{
}

/// In a regular queue, any frame that was not given up can be asked for, as long
/// as no prediction is known to be wrong. A frame up to the one added last is
/// served from the queue, whether or not later ones are being predicted. The first
/// frame that cannot be is predicted as the one after it.
pub proof fn law_served<I: PartialEq + Default>(q: QueueState<I>, frame: Frame)
    requires
        q.regular(),
        q.first_incorrect_frame == NULL_FRAME,
        q.front_frame() <= frame,
        0 <= frame,
        q.last_added_frame < i32::MAX,
    ensures
        q.can_serve(frame),
        q.distance(frame) < q.len() <==> frame <= q.last_added_frame,
        q.distance(frame) < q.len() ==> q.lookup(frame) == Some(q.entries[q.distance(frame)]),
        q.distance(frame) >= q.len() && q.prediction.frame < 0 ==> q.predicted_frame(frame)
            == q.last_added_frame + 1,
{
    law_consecutive_frames(q, frame);
    law_lookup(q, frame);
    if q.distance(frame) < q.len() {
        assert(q.entries[q.distance(frame)].frame == frame);
    }
}

/// Starting to predict keeps a queue regular.
pub proof fn law_predicting_keeps_regular<I: PartialEq + Default>(
    q: QueueState<I>,
    frame: Frame,
    prediction: PlayerInput<I>,
)
    requires
        q.regular(),
        q.can_serve(frame),
        frame >= 0,
        q.prediction.frame < 0,
        q.distance(frame) >= q.len(),
        prediction.frame == q.predicted_frame(frame),
    ensures
        (QueueState { last_requested_frame: frame, prediction, ..q }).regular(),
{
    let next = QueueState { last_requested_frame: frame, prediction, ..q };
    law_consecutive_frames(q, frame);
    lemma_same_entries(q, next);
}

/// Changes outside the cells do not make cells invalid.
proof fn lemma_same_entries<I: PartialEq + Default>(q: QueueState<I>, next: QueueState<I>)
    requires
        q.valid(),
        next.entries == q.entries,
        next.head == q.head,
        next.latest == q.latest,
        next.first_frame == q.first_frame,
        next.last_added_frame == q.last_added_frame,
    ensures
        next.valid(),
{
    assert forall|i: int| 0 <= i < next.len() implies next.entry_is_valid(
        i,
        #[trigger] next.entries[i],
    ) by {
        assert(q.entry_is_valid(i, q.entries[i]));
    }
}

/// Replacing an input, adding the next one while nothing is being predicted, asking
/// for a frame that needs no new prediction, changing the delay and forgetting
/// predictions all keep a queue regular.
pub proof fn law_other_operations_keep_regular<I: PartialEq + Default>(
    q: QueueState<I>,
    frame: Frame,
    input: I,
    provenance: InputProvenance,
    expected: VersionedInput<I>,
    delay: usize,
)
    requires
        q.regular(),
    ensures
        q.replace_verdict(frame, expected, input) == Ok::<_, InputReplacementError>(
            InputReplacementResult::Replaced,
        ) ==> q.replace(frame, expected, input).regular(),
        q.prediction.frame == NULL_FRAME && frame == q.last_added_frame + 1 && q.len()
            < INPUT_QUEUE_LENGTH ==> q.append(frame, input, provenance).regular(),
        (QueueState { last_requested_frame: frame, ..q }).regular(),
        (QueueState { frame_delay: delay, ..q }).regular(),
        (QueueState {
            prediction: PlayerInput { frame: NULL_FRAME, input: q.prediction.input },
            first_incorrect_frame: NULL_FRAME,
            last_requested_frame: NULL_FRAME,
            ..q
        }).regular(),
{
    if q.replace_verdict(frame, expected, input) == Ok::<_, InputReplacementError>(
        InputReplacementResult::Replaced,
    ) {
        law_replace_reads_back(q, frame, expected, input);
    }
    if q.is_next(frame) && q.len() < INPUT_QUEUE_LENGTH {
        q.lemma_append_valid(frame, input, provenance);
    }
    lemma_same_entries(q, QueueState { last_requested_frame: frame, ..q });
    lemma_same_entries(q, QueueState { frame_delay: delay, ..q });
    lemma_same_entries(
        q,
        QueueState {
            prediction: PlayerInput { frame: NULL_FRAME, input: q.prediction.input },
            first_incorrect_frame: NULL_FRAME,
            last_requested_frame: NULL_FRAME,
            ..q
        },
    );
}

/// No operation makes a hole between the frames of a queue, or moves them away from
/// where they are looked up: not adding the next input, with or without a look at
/// the prediction, not replacing one, nor giving up frames, even all of them. A
/// first frame has to be a multiple of the length of the ring.
pub proof fn law_frames_stay_consecutive<I: PartialEq + Default>(
    q: QueueState<I>,
    frame: Frame,
    input: I,
    provenance: InputProvenance,
    expected: VersionedInput<I>,
)
    requires
        q.valid(),
        q.aligned(),
    ensures
        q.is_next(frame) && q.len() < INPUT_QUEUE_LENGTH && (q.first_frame ==> frame % 128 == 0)
            ==> {
            &&& q.append(frame, input, provenance).valid()
            &&& q.append(frame, input, provenance).aligned()
            &&& q.confirm(frame, input).valid()
            &&& q.confirm(frame, input).aligned()
        },
        q.replace_verdict(frame, expected, input) == Ok::<_, InputReplacementError>(
            InputReplacementResult::Replaced,
        ) ==> {
            &&& q.replace(frame, expected, input).valid()
            &&& q.replace(frame, expected, input).aligned()
        },
        q.trim(frame).valid(),
        q.trim(frame).aligned(),
        q.discard(frame).valid(),
        q.discard(frame).aligned(),
{
    if q.is_next(frame) && q.len() < INPUT_QUEUE_LENGTH && (q.first_frame ==> frame % 128 == 0) {
        let appended = q.append(frame, input, InputProvenance::Authoritative);
        q.lemma_append_valid(frame, input, provenance);
        q.lemma_append_valid(frame, input, InputProvenance::Authoritative);
        lemma_same_entries(appended, q.confirm(frame, input));
    }
    if q.replace_verdict(frame, expected, input) == Ok::<_, InputReplacementError>(
        InputReplacementResult::Replaced,
    ) {
        law_replace_reads_back(q, frame, expected, input);
    }
    if frame >= 0 {
        law_trim(q, frame);
        if q.len() > 0 {
            assert(q.entry_is_valid(0, q.entries[0]));
            q.lemma_drop_front_valid(q.discard_count(frame));
        }
    }
}

/// What is known of requests and predictions, and the delay, do not concern the
/// frames of a queue.
pub proof fn law_bookkeeping_keeps_frames<I: PartialEq + Default>(
    q: QueueState<I>,
    next: QueueState<I>,
)
    requires
        q.valid(),
        q.aligned(),
        next == (QueueState {
            last_user_frame: next.last_user_frame,
            first_incorrect_frame: next.first_incorrect_frame,
            last_requested_frame: next.last_requested_frame,
            frame_delay: next.frame_delay,
            prediction: next.prediction,
            ..q
        }),
    ensures
        next.valid(),
        next.aligned(),
{
    lemma_same_entries(q, next);
}

/// Filling a range of frames leaves no hole.
proof fn lemma_fill_consecutive<I: PartialEq + Default>(
    q: QueueState<I>,
    input: I,
    from: int,
    to: int,
)
    requires
        q.valid(),
        q.aligned(),
        q.ready_for(to - from),
        from == q.expected_frame(),
        from <= to <= i32::MAX,
    ensures
        q.fill(input, from, to).valid(),
        q.fill(input, from, to).aligned(),
    decreases to - from,
{
    if from < to {
        let filled = q.fill(input, from, to - 1);
        lemma_fill_consecutive(q, input, from, to - 1);
        q.lemma_fill(input, from, to - 1);
        filled.lemma_append_valid((to - 1) as Frame, input, InputProvenance::Authoritative);
        lemma_same_entries(
            filled.append((to - 1) as Frame, input, InputProvenance::Authoritative),
            q.fill(input, from, to),
        );
    }
}

/// Submitting an input leaves no hole between the frames of a queue either,
/// whatever becomes of the input.
pub proof fn law_submitting_keeps_frames_consecutive<I: PartialEq + Default>(
    q: QueueState<I>,
    input: PlayerInput<I>,
)
    requires
        q.valid(),
        q.aligned(),
        q.is_next_user_frame(input.frame) ==> q.can_take(
            input.frame,
            q.delayed(input.frame) - q.expected_frame() + 1,
        ),
    ensures
        q.add(input).1.valid(),
        q.add(input).1.aligned(),
{
    let taken = QueueState { last_user_frame: input.frame, ..q };
    lemma_same_entries(q, taken);
    let target = q.delayed(input.frame);
    if q.is_next_user_frame(input.frame) && q.expected_frame() <= target {
        let filled = taken.fill(q.latest.input, q.expected_frame(), target);
        lemma_fill_consecutive(taken, q.latest.input, q.expected_frame(), target);
        taken.lemma_fill(q.latest.input, q.expected_frame(), target);
        filled.lemma_append_valid(
            target as Frame,
            input.input,
            InputProvenance::Authoritative,
        );
        lemma_same_entries(
            filled.append(target as Frame, input.input, InputProvenance::Authoritative),
            filled.confirm(target as Frame, input.input),
        );
    }
}

/// Adding the next input keeps a queue regular.
proof fn lemma_confirm_regular<I: PartialEq + Default>(q: QueueState<I>, frame: Frame, input: I)
    requires
        q.regular(),
        q.can_confirm(frame),
        frame == q.last_added_frame + 1,
    ensures
        q.confirm(frame, input).regular(),
{
    let appended = q.append(frame, input, InputProvenance::Authoritative);
    q.lemma_append_valid(frame, input, InputProvenance::Authoritative);
    lemma_same_entries(appended, q.confirm(frame, input));
}

/// Filling a range of frames keeps a queue regular, and adds a cell for each frame.
proof fn lemma_fill_regular<I: PartialEq + Default>(q: QueueState<I>, input: I, from: int, to: int)
    requires
        q.regular(),
        q.ready_for(to - from),
        from == q.expected_frame(),
        from <= to <= i32::MAX,
    ensures
        q.fill(input, from, to).regular(),
        q.fill(input, from, to).entries == q.entries + Seq::new(
            (to - from) as nat,
            |i: int|
                QueueEntry::fresh((from + i) as Frame, input, InputProvenance::Authoritative),
        ),
    decreases to - from,
{
    let added = Seq::new(
        (to - from) as nat,
        |i: int| QueueEntry::fresh((from + i) as Frame, input, InputProvenance::Authoritative),
    );
    if from < to {
        lemma_fill_regular(q, input, from, to - 1);
        q.lemma_fill(input, from, to - 1);
        lemma_confirm_regular(q.fill(input, from, to - 1), (to - 1) as Frame, input);
        assert(q.fill(input, from, to).entries =~= q.entries + added);
    } else {
        assert(q.entries =~= q.entries + added);
    }
}

/// Submitting an input keeps a queue regular, whatever becomes of the input.
pub proof fn law_submitting_keeps_regular<I: PartialEq + Default>(
    q: QueueState<I>,
    input: PlayerInput<I>,
)
    requires
        q.regular(),
        q.is_next_user_frame(input.frame) ==> q.can_take(
            input.frame,
            q.delayed(input.frame) - q.expected_frame() + 1,
        ),
    ensures
        q.add(input).1.regular(),
{
    let taken = QueueState { last_user_frame: input.frame, ..q };
    lemma_same_entries(q, taken);
    let target = q.delayed(input.frame);
    if q.is_next_user_frame(input.frame) && q.expected_frame() <= target {
        lemma_fill_regular(taken, q.latest.input, q.expected_frame(), target);
        taken.lemma_fill(q.latest.input, q.expected_frame(), target);
        lemma_confirm_regular(
            taken.fill(q.latest.input, q.expected_frame(), target),
            target as Frame,
            input.input,
        );
    }
}

/// What becomes of an input that is the next one of the user. If its frame, with
/// the delay, comes after the one added last, it is used for that frame, and the
/// frames between are filled with the input added last. Else it is dropped.
pub proof fn law_submitted<I: PartialEq + Default>(q: QueueState<I>, input: PlayerInput<I>)
    requires
        q.regular(),
        q.is_next_user_frame(input.frame),
        q.can_take(input.frame, q.delayed(input.frame) - q.expected_frame() + 1),
    ensures
        ({
            let (used, next) = q.add(input);
            let target = q.delayed(input.frame);
            &&& next.last_user_frame == input.frame
            &&& target > q.last_added_frame ==> {
                &&& used == target
                &&& next.last_added_frame == target
                &&& next.len() == q.len() + (target - q.last_added_frame)
                &&& next.latest == (PlayerInput { frame: used, input: input.input })
                &&& next.entries == (q.entries + Seq::new(
                    (target - q.last_added_frame - 1) as nat,
                    |i: int|
                        QueueEntry::fresh(
                            (q.last_added_frame + 1 + i) as Frame,
                            q.latest.input,
                            InputProvenance::Authoritative,
                        ),
                )).push(QueueEntry::fresh(used, input.input, InputProvenance::Authoritative))
            }
            &&& target <= q.last_added_frame ==> {
                &&& used == NULL_FRAME
                &&& next == (QueueState { last_user_frame: input.frame, ..q })
            }
        }),
{
    let taken = QueueState { last_user_frame: input.frame, ..q };
    lemma_same_entries(q, taken);
    let target = q.delayed(input.frame);
    assert(q.expected_frame() == q.last_added_frame + 1);
    if q.expected_frame() <= target {
        lemma_fill_regular(taken, q.latest.input, q.expected_frame(), target);
        taken.lemma_fill(q.latest.input, q.expected_frame(), target);
        let between = |i: int|
            QueueEntry::fresh(
                (q.expected_frame() + i) as Frame,
                q.latest.input,
                InputProvenance::Authoritative,
            );
        let after_last = |i: int|
            QueueEntry::fresh(
                (q.last_added_frame + 1 + i) as Frame,
                q.latest.input,
                InputProvenance::Authoritative,
            );
        assert(Seq::new((target - q.expected_frame()) as nat, between) =~= Seq::new(
            (target - q.last_added_frame - 1) as nat,
            after_last,
        ));
        lemma_fill_user_frame(taken, q.latest.input, q.expected_frame(), target);
    }
}

/// Filling does not concern what the user submitted.
proof fn lemma_fill_user_frame<I: PartialEq + Default>(
    q: QueueState<I>,
    input: I,
    from: int,
    to: int,
)
    ensures
        q.fill(input, from, to).last_user_frame == q.last_user_frame,
        q.fill(input, from, to).frame_delay == q.frame_delay,
        q.fill(input, from, to).last_requested_frame == q.last_requested_frame,
    decreases to - from,
{
    if from < to {
        lemma_fill_user_frame(q, input, from, to - 1);
    }
}

/// In a regular queue the next input can be taken as soon as there is room up to
/// the frame it is used for.
pub proof fn law_room_suffices<I: PartialEq + Default>(q: QueueState<I>, frame: Frame)
    requires
        q.regular(),
        q.last_added_frame < i32::MAX,
        i32::MIN <= q.delayed(frame) <= i32::MAX,
        q.prediction.frame != NULL_FRAME ==> q.delayed(frame) < i32::MAX,
        q.len() + (q.delayed(frame) - q.last_added_frame) <= INPUT_QUEUE_LENGTH,
    ensures
        q.can_take(frame, q.delayed(frame) - q.expected_frame() + 1),
{
}

/// As long as the delay stays as it is, each next input of the user is used for
/// the next frame, and nothing is filled in.
pub proof fn law_steady_submission<I: PartialEq + Default>(q: QueueState<I>, input: PlayerInput<I>)
    requires
        q.regular(),
        q.last_user_frame != NULL_FRAME,
        q.delayed(q.last_user_frame) == q.last_added_frame,
        input.frame == q.last_user_frame + 1,
        q.last_added_frame < i32::MAX,
        q.prediction.frame != NULL_FRAME ==> q.last_added_frame + 1 < i32::MAX,
        q.len() < INPUT_QUEUE_LENGTH,
    ensures
        ({
            let (used, next) = q.add(input);
            &&& used == q.last_added_frame + 1
            &&& next.entries == q.entries.push(
                QueueEntry::fresh(used, input.input, InputProvenance::Authoritative),
            )
            &&& next.regular()
            &&& next.delayed(next.last_user_frame) == next.last_added_frame
        }),
{
    law_room_suffices(q, input.frame);
    law_submitting_keeps_regular(q, input);
    law_submitted(q, input);
    let target = q.delayed(input.frame);
    let taken = QueueState { last_user_frame: input.frame, ..q };
    lemma_fill_user_frame(taken, q.latest.input, q.expected_frame(), target);
    assert(q.add(input).1.entries =~= q.entries.push(
        QueueEntry::fresh(q.add(input).0, input.input, InputProvenance::Authoritative),
    ));
}

/// The first input, for frame 0, is used for the frame that the delay says; the
/// frames before it are filled with a blank input.
pub proof fn law_first_submission<I: PartialEq + Default>(q: QueueState<I>, input: PlayerInput<I>)
    requires
        q.regular(),
        q.first_frame,
        q.last_user_frame == NULL_FRAME,
        input.frame == 0,
        q.frame_delay + 1 <= INPUT_QUEUE_LENGTH,
    ensures
        ({
            let (used, next) = q.add(input);
            &&& used == q.frame_delay
            &&& next.last_added_frame == q.frame_delay
            &&& next.entries == Seq::new(
                q.frame_delay as nat,
                |i: int|
                    QueueEntry::fresh(i as Frame, q.latest.input, InputProvenance::Authoritative),
            ).push(QueueEntry::fresh(used, input.input, InputProvenance::Authoritative))
            &&& next.regular()
            &&& next.delayed(next.last_user_frame) == next.last_added_frame
        }),
{
    law_room_suffices(q, input.frame);
    law_submitting_keeps_regular(q, input);
    law_submitted(q, input);
    let target = q.delayed(input.frame);
    let taken = QueueState { last_user_frame: input.frame, ..q };
    lemma_fill_user_frame(taken, q.latest.input, q.expected_frame(), target);
    assert(q.add(input).1.entries =~= Seq::new(
        q.frame_delay as nat,
        |i: int| QueueEntry::fresh(i as Frame, q.latest.input, InputProvenance::Authoritative),
    ).push(QueueEntry::fresh(q.add(input).0, input.input, InputProvenance::Authoritative)));
}

/// Where the input added last was submitted under the delay as it is, or the user has
/// not submitted any, a longer delay reports as many frames as it is longer, right
/// after the one added last and each with its input.
pub proof fn law_reported_fills<I: PartialEq + Default>(q: QueueState<I>, delay: usize)
    requires
        q.last_user_frame == NULL_FRAME || q.delayed(q.last_user_frame) == q.last_added_frame,
        q.last_added_frame != NULL_FRAME,
        q.frame_delay < delay <= i32::MAX,
        q.last_added_frame + (delay - q.frame_delay) <= i32::MAX,
    ensures
        q.bridge(delay).len() == delay - q.frame_delay,
        forall|i: int|
            0 <= i < delay - q.frame_delay ==> #[trigger] q.bridge(delay)[i] == (PlayerInput {
                frame: (q.last_added_frame + 1 + i) as Frame,
                input: q.latest.input,
            }),
{
}

/// After the delay was made longer, the frames that are filled before the next input
/// are the ones that were reported when the delay changed, with the same inputs. A
/// user who has not submitted any input goes on where the queue ends. If frames were
/// left over from a still longer delay, and the next input is dropped, none were
/// reported.
pub proof fn law_longer_delay<I: PartialEq + Default>(
    q: QueueState<I>,
    delay: usize,
    input: PlayerInput<I>,
)
    requires
        q.regular(),
        NULL_FRAME < q.last_added_frame < i32::MAX,
        q.frame_delay < delay <= i32::MAX,
        if q.last_user_frame == NULL_FRAME {
            input.frame == q.last_added_frame + 1 - q.frame_delay
        } else {
            &&& q.delayed(q.last_user_frame) <= q.last_added_frame
            &&& input.frame == q.last_user_frame + 1
        },
        input.frame + delay <= i32::MAX,
        q.prediction.frame != NULL_FRAME ==> input.frame + delay < i32::MAX,
        q.len() + (input.frame + delay - q.last_added_frame) <= INPUT_QUEUE_LENGTH,
    ensures
        ({
            let longer = QueueState { frame_delay: delay, ..q };
            let (used, next) = longer.add(input);
            &&& next.regular()
            &&& input.frame + delay > q.last_added_frame ==> {
                &&& used == input.frame + delay
                &&& next.entries == (q.entries + q.bridge(delay).map_values(
                    |fill: PlayerInput<I>|
                        QueueEntry::fresh(fill.frame, fill.input, InputProvenance::Authoritative),
                )).push(QueueEntry::fresh(used, input.input, InputProvenance::Authoritative))
            }
            &&& input.frame + delay <= q.last_added_frame ==> {
                &&& used == NULL_FRAME
                &&& q.bridge(delay).len() == 0
                &&& next == (QueueState { last_user_frame: input.frame, ..longer })
            }
        }),
{
    let longer = QueueState { frame_delay: delay, ..q };
    lemma_same_entries(q, longer);
    law_room_suffices(longer, input.frame);
    law_submitting_keeps_regular(longer, input);
    law_submitted(longer, input);
    if input.frame + delay > q.last_added_frame {
        let filled = Seq::new(
            (longer.delayed(input.frame) - q.last_added_frame - 1) as nat,
            |i: int|
                QueueEntry::fresh(
                    (q.last_added_frame + 1 + i) as Frame,
                    q.latest.input,
                    InputProvenance::Authoritative,
                ),
        );
        assert(filled =~= q.bridge(delay).map_values(
            |fill: PlayerInput<I>|
                QueueEntry::fresh(fill.frame, fill.input, InputProvenance::Authoritative),
        ));
    }
}

/// Once the user has submitted an input, making the delay longer in two steps
/// reports the same frames, one after the other, as making it longer at once: none
/// is left out, and none comes twice.
pub proof fn law_successive_delays<I: PartialEq + Default>(
    q: QueueState<I>,
    delay: usize,
    longer: usize,
)
    requires
        q.last_user_frame != NULL_FRAME,
        q.frame_delay <= delay <= longer <= i32::MAX,
    ensures
        q.bridge(delay) + (QueueState { frame_delay: delay, ..q }).bridge(longer) == q.bridge(
            longer,
        ),
{
    assert(q.bridge(delay) + (QueueState { frame_delay: delay, ..q }).bridge(longer) =~= q.bridge(
        longer,
    ));
}

/// After the delay was made shorter, the next input is dropped, as its frame has
/// an input already. Only what the user submitted last changes, so that the inputs
/// after it catch up with the one added last.
pub proof fn law_shorter_delay<I: PartialEq + Default>(
    q: QueueState<I>,
    delay: usize,
    input: PlayerInput<I>,
)
    requires
        q.regular(),
        q.last_user_frame != NULL_FRAME,
        q.delayed(q.last_user_frame) == q.last_added_frame,
        delay < q.frame_delay <= i32::MAX,
        input.frame == q.last_user_frame + 1,
        q.last_user_frame >= 0,
        q.last_added_frame < i32::MAX,
    ensures
        ({
            let shorter = QueueState { frame_delay: delay, ..q };
            &&& shorter.add(input) == (
                NULL_FRAME,
                QueueState { last_user_frame: input.frame, ..shorter },
            )
            &&& q.last_added_frame - shorter.delayed(q.last_user_frame) == q.frame_delay - delay
        }),
{
}

/// How a true input bears on a prediction. The first mistake is remembered and
/// stays. Predicting ends when the frame requested last was predicted right.
pub proof fn law_mistake<I: PartialEq + Default>(q: QueueState<I>, frame: Frame, input: I)
    requires
        q.can_confirm(frame),
        q.prediction.frame != NULL_FRAME,
        frame + 1 != NULL_FRAME,
    ensures
        ({
            let next = q.confirm(frame, input);
            &&& q.first_incorrect_frame != NULL_FRAME ==> next.first_incorrect_frame
                == q.first_incorrect_frame
            &&& q.first_incorrect_frame == NULL_FRAME && q.prediction.input.eq_spec(&input)
                ==> next.first_incorrect_frame == NULL_FRAME
            &&& q.first_incorrect_frame == NULL_FRAME && !q.prediction.input.eq_spec(&input)
                ==> next.first_incorrect_frame == frame
            &&& next.prediction.frame == NULL_FRAME <==> frame == q.last_requested_frame
                && next.first_incorrect_frame == NULL_FRAME
            &&& next.prediction.input == q.prediction.input
        }),
{
}

/// The repeating predictor predicts the input it is given.
pub proof fn law_repeat_last<I>(previous: I, predicted: I)
    requires
        call_ensures(<PredictRepeatLast as InputPredictor<I>>::predict, (previous,), predicted),
    ensures
        predicted == previous,
{
}

/// Discarding frames gives up exactly those that lie before the given frame, before the
/// frame requested last and before the newest one. It leaves an empty queue empty, and a regular one regular.
pub proof fn law_discard<I: PartialEq + Default>(q: QueueState<I>, frame: Frame, other: Frame)
    requires
        q.valid(),
        q.aligned(),
        other >= 0,
    ensures
        ({
            let next = q.discard(frame);
            &&& next.valid()
            &&& next.aligned()
            &&& next.latest == q.latest
            &&& next.len() == 0 <==> q.len() == 0
            &&& next.lookup(other) == (if other < frame && (q.last_requested_frame
                != NULL_FRAME ==> other < q.last_requested_frame) && other < q.last_added_frame {
                None
            } else {
                q.lookup(other)
            })
            &&& q.regular() ==> next.regular()
        }),
{
    if frame >= 0 && q.len() > 0 {
        let k = q.discard_count(frame);
        let next = q.drop_front(k);
        assert(q.entry_is_valid(0, q.entries[0]));
        assert(0 <= k < q.len());
        q.lemma_drop_front_valid(k);
        assert(next.entries[0] == q.entries[k]);
        law_consecutive_frames(q, other);
        law_consecutive_frames(next, other);
        law_lookup(q, other);
        law_lookup(next, other);
        if next.holds(other) {
            let i = next.index_of(other as int);
            assert(next.entries[i] == q.entries[i + k]);
        }
    }
}

} // verus!
