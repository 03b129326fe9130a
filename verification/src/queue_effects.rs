//! What each operation does to a queue, told by nothing but its cells, its marks and
//! the arguments.

use vstd::prelude::*;
use vstd::std_specs::cmp::PartialEqSpec;
use crate::config::{Config, Frame, InputPredictor, InputStatus, PredictRepeatLast, NULL_FRAME};
use crate::frame_info::PlayerInput;
use crate::input_queue::{InputQueue, INPUT_QUEUE_LENGTH};
use crate::queue_laws::{law_lookup, law_lookup_needs_alignment};
use crate::queue_model::{lemma_filter_suffix, QueueEntry, QueueState};
use crate::versioned_input::{
    InputProvenance, InputReplacementError, InputReplacementResult, InputTransition,
    VersionedInput,
};

verus! {

/// How the ring of a queue is read: the cells in use follow each other from the tail
/// to the head, and the marks are the fields of the same name.
pub proof fn law_ring<T: Config>(queue: InputQueue<T>)
    requires
        queue.wf(),
    ensures
        queue@.entries.len() == queue.length,
        queue.head == (queue.tail + queue.length) % (INPUT_QUEUE_LENGTH as int),
        forall|i: int|
            0 <= i < queue.length ==> {
                let p = (queue.tail + i) % (INPUT_QUEUE_LENGTH as int);
                let entry = #[trigger] queue@.entries[i];
                &&& entry.frame == queue.inputs@[p].frame
                &&& entry.input == queue.inputs@[p].input
                &&& entry.slot == queue.slots@[p]
                &&& entry.transition == queue.last_transitions@[p]
            },
        queue@.head == queue.head,
        queue@.latest == queue.inputs@[(queue.head + INPUT_QUEUE_LENGTH - 1) % (
        INPUT_QUEUE_LENGTH as int)],
        queue@.first_frame == queue.first_frame,
        queue@.last_added_frame == queue.last_added_frame,
        queue@.last_user_frame == queue.last_user_frame,
        queue@.first_incorrect_frame == queue.first_incorrect_frame,
        queue@.last_requested_frame == queue.last_requested_frame,
        queue@.frame_delay == queue.frame_delay,
        queue@.prediction == queue.prediction,
{
}

/// The cells of a queue hold consecutive frames, up to the one added last. Each holds
/// the same input twice, and remembers only a replacement that led to it.
pub proof fn law_cells<I: PartialEq + Default>(q: QueueState<I>)
    requires
        q.valid(),
    ensures
        q.entries.len() <= INPUT_QUEUE_LENGTH,
        0 <= q.head < INPUT_QUEUE_LENGTH,
        forall|i: int|
            0 <= i < q.entries.len() ==> {
                let entry = #[trigger] q.entries[i];
                &&& entry.frame == q.last_added_frame - (q.entries.len() - 1 - i)
                &&& entry.slot.input == entry.input
                &&& entry.transition matches Some(t) ==> {
                    &&& t.replacement == entry.slot
                    &&& entry.slot.provenance == InputProvenance::Authoritative
                    &&& t.expected.revision + 1 == entry.slot.revision
                }
            },
        q.entries.len() > 0 ==> {
            &&& q.latest.frame == q.last_added_frame
            &&& q.latest.input == q.entries[q.entries.len() - 1].input
        },
        q.entries.len() == 0 ==> q.latest.frame == NULL_FRAME,
        q.first_frame ==> q.entries.len() == 0 && q.last_added_frame == NULL_FRAME,
{
    assert forall|i: int| 0 <= i < q.entries.len() implies {
        let entry = #[trigger] q.entries[i];
        &&& entry.frame == q.last_added_frame - (q.entries.len() - 1 - i)
        &&& entry.slot.input == entry.input
        &&& entry.transition matches Some(t) ==> {
            &&& t.replacement == entry.slot
            &&& entry.slot.provenance == InputProvenance::Authoritative
            &&& t.expected.revision + 1 == entry.slot.revision
        }
    } by {
        assert(q.entry_is_valid(i, q.entries[i]));
    }
    if q.entries.len() > 0 {
        assert(q.entry_is_valid(q.len() - 1, q.entries[q.len() - 1]));
    }
}

/// What is found for a frame is the cell that holds it. Where frames stand at their
/// ring positions, every cell with a frame number is found; else none is.
pub proof fn law_found<I: PartialEq + Default>(q: QueueState<I>)
    requires
        q.valid(),
    ensures
        forall|frame: Frame|
            #[trigger] q.lookup(frame) is Some ==> frame >= 0 && exists|i: int|
                0 <= i < q.entries.len() && #[trigger] q.entries[i] == q.lookup(frame)->0
                    && q.entries[i].frame == frame,
        forall|frame: Frame| #[trigger] q.holds(frame) <==> q.lookup(frame) is Some,
        (q.last_added_frame + 1 - q.head) % (INPUT_QUEUE_LENGTH as int) == 0 ==> forall|i: int|
            0 <= i < q.entries.len() && #[trigger] q.entries[i].frame >= 0 ==> q.lookup(
                q.entries[i].frame,
            ) == Some(q.entries[i]),
        (q.last_added_frame + 1 - q.head) % (INPUT_QUEUE_LENGTH as int) != 0 ==> forall|
            frame: Frame,
        | #[trigger] q.lookup(frame) is None,
{
    if q.aligned() {
        assert forall|i: int| 0 <= i < q.entries.len() && #[trigger] q.entries[i].frame
            >= 0 implies q.lookup(q.entries[i].frame) == Some(q.entries[i]) by {
            law_lookup(q, q.entries[i].frame);
        }
    } else {
        assert forall|frame: Frame| #[trigger] q.lookup(frame) is None by {
            law_lookup_needs_alignment(q, frame);
        }
    }
}

/// What the game is shown for a frame is the input in the cell that is found for it:
/// as predicted exactly if it came from no one, whether the frame is the newest one or
/// not.
pub proof fn law_shown<I: PartialEq + Default>(q: QueueState<I>, frame: Frame)
    ensures
        q.lookup(frame) is None ==> q.visible(frame) is None,
        q.lookup(frame) matches Some(entry) ==> {
            &&& q.visible(frame) matches Some((input, status)) && {
                &&& input == entry.slot.input
                &&& status == InputStatus::Predicted <==> entry.slot.provenance
                    == InputProvenance::Predicted
                &&& status == InputStatus::Confirmed <==> entry.slot.provenance
                    == InputProvenance::Authoritative
            }
        },
{
}

/// Adding the next input, and giving up earlier frames, do not change what the game is
/// shown for the frames that stay.
pub proof fn law_shown_stays<I: PartialEq + Default>(
    q: QueueState<I>,
    frame: Frame,
    input: I,
    provenance: InputProvenance,
    other: Frame,
)
    requires
        q.valid(),
        (q.last_added_frame + 1 - q.head) % (INPUT_QUEUE_LENGTH as int) == 0,
    ensures
        frame == q.last_added_frame + 1 && q.entries.len() < INPUT_QUEUE_LENGTH && other != frame
            ==> q.append(frame, input, provenance).visible(other) == q.visible(other),
        other > frame ==> q.trim(frame).visible(other) == q.visible(other),
        other >= frame ==> q.discard(frame).visible(other) == q.visible(other),
        q.last_requested_frame != NULL_FRAME && other >= q.last_requested_frame ==> q.discard(
            frame,
        ).visible(other) == q.visible(other),
        other >= q.last_added_frame ==> q.discard(frame).visible(other) == q.visible(other),
{
    if frame == q.last_added_frame + 1 && q.entries.len() < INPUT_QUEUE_LENGTH && other != frame {
        let next = q.append(frame, input, provenance);
        q.lemma_append_valid(frame, input, provenance);
        assert(next.aligned());
        if other >= 0 {
            law_lookup(q, other);
            law_lookup(next, other);
            if q.holds(other) {
                let i = q.index_of(other as int);
                assert(next.entries[i] == q.entries[i]);
            }
            if next.holds(other) {
                let i = next.index_of(other as int);
                assert(next.entries[i] == q.entries[i]);
            }
        }
    }
    let k = law_trim_effect(q, frame);
    if other > frame {
        lemma_suffix_lookup(q, q.trim(frame), k, other);
    }
    let k = law_discard_effect(q, frame);
    law_cells(q);
    if other >= frame || (q.last_requested_frame != NULL_FRAME && other >= q.last_requested_frame)
        || other >= q.last_added_frame {
        lemma_suffix_lookup(q, q.discard(frame), k, other);
    }
}

/// What is found in the cells that stay is found as before.
proof fn lemma_suffix_lookup<I: PartialEq + Default>(
    q: QueueState<I>,
    next: QueueState<I>,
    k: int,
    frame: Frame,
)
    requires
        q.valid(),
        q.aligned(),
        next.valid(),
        next.head == q.head,
        next.last_added_frame == q.last_added_frame,
        0 <= k <= q.entries.len(),
        next.entries == q.entries.skip(k),
        forall|i: int| 0 <= i < k ==> (#[trigger] q.entries[i]).frame != frame,
    ensures
        next.lookup(frame) == q.lookup(frame),
{
    if frame >= 0 {
        law_lookup(q, frame);
        law_lookup(next, frame);
        if q.holds(frame) {
            let i = q.index_of(frame as int);
            assert(i >= k);
            assert(next.entries[i - k] == q.entries[i]);
        }
        if next.holds(frame) {
            let i = next.index_of(frame as int);
            assert(next.entries[i] == q.entries[i + k]);
        }
    }
}

/// Which frame can be added: any as the first one, else the one after the last.
pub proof fn law_next<I: PartialEq + Default>(q: QueueState<I>, frame: Frame)
    ensures
        q.first_frame ==> q.is_next(frame),
        !q.first_frame ==> (q.is_next(frame) <==> frame == q.last_added_frame + 1),
{
}

/// Adding an input puts it behind all others, as it was given and never revised, and
/// changes nothing else.
pub proof fn law_append_effect<I: PartialEq + Default>(
    q: QueueState<I>,
    frame: Frame,
    input: I,
    provenance: InputProvenance,
)
    requires
        0 <= q.head < INPUT_QUEUE_LENGTH,
    ensures
        q.append(frame, input, provenance) == (QueueState {
            entries: q.entries.push(
                QueueEntry {
                    frame,
                    input,
                    slot: VersionedInput { input, provenance, revision: 0 },
                    transition: None,
                },
            ),
            head: (q.head + 1) % (INPUT_QUEUE_LENGTH as int),
            latest: PlayerInput { frame, input },
            first_frame: false,
            last_added_frame: frame,
            ..q
        }),
{
}

/// Trimming gives up the cells up to a frame, those and no others, and changes nothing
/// else; the number of them. The input added last is remembered even if its cell is
/// given up.
pub proof fn law_trim_effect<I: PartialEq + Default>(q: QueueState<I>, frame: Frame) -> (k: int)
    requires
        q.valid(),
    ensures
        0 <= k <= q.entries.len(),
        frame < 0 ==> k == 0,
        forall|i: int| 0 <= i < k ==> (#[trigger] q.entries[i]).frame <= frame,
        frame >= 0 ==> forall|i: int|
            k <= i < q.entries.len() ==> (#[trigger] q.entries[i]).frame > frame,
        q.trim(frame) == (QueueState {
            entries: q.entries.skip(k),
            latest: PlayerInput {
                frame: if k == q.entries.len() {
                    NULL_FRAME
                } else {
                    q.last_added_frame
                },
                input: q.latest.input,
            },
            ..q
        }),
        q.trim(frame).valid(),
{
    law_cells(q);
    if frame < 0 {
        assert(q.entries.skip(0) =~= q.entries);
        assert(q.latest == PlayerInput { frame: q.latest.frame, input: q.latest.input });
        0
    } else {
        q.lemma_trim(frame)
    }
}

/// The cells that are left when those up to a frame are given up are exactly the ones
/// with a later frame; the number of those that are not.
pub proof fn law_later_cells<I: PartialEq + Default>(q: QueueState<I>, frame: Frame) -> (k: int)
    requires
        q.valid(),
    ensures
        0 <= k <= q.entries.len(),
        forall|i: int| 0 <= i < k ==> (#[trigger] q.entries[i]).frame <= frame,
        forall|i: int| k <= i < q.entries.len() ==> (#[trigger] q.entries[i]).frame > frame,
        q.entries_after(frame) == q.entries.skip(k),
{
    law_cells(q);
    let n = q.entries.len() as int;
    let reach = frame - q.last_added_frame + n;
    let k = if reach < 0 {
        0
    } else if reach > n {
        n
    } else {
        reach
    };
    assert forall|i: int| 0 <= i < n implies ((#[trigger] q.entries[i]).frame > frame <==> k
        <= i) by {}
    lemma_filter_suffix(q.entries, |entry: QueueEntry<I>| entry.frame > frame, k);
    k
}

/// Discarding up to a frame gives up the cells that lie before that frame, before the
/// frame requested last and before the newest one: all of those and no others, so it
/// never gives up a frame that was not to be discarded. The number of them. Nothing
/// else changes.
pub proof fn law_discard_effect<I: PartialEq + Default>(q: QueueState<I>, frame: Frame) -> (k: int)
    requires
        q.valid(),
    ensures
        0 <= k <= q.entries.len(),
        frame < 0 ==> k == 0,
        forall|i: int|
            0 <= i < k ==> {
                &&& (#[trigger] q.entries[i]).frame < frame
                &&& q.last_requested_frame != NULL_FRAME ==> q.entries[i].frame
                    < q.last_requested_frame
                &&& q.entries[i].frame < q.last_added_frame
            },
        frame >= 0 ==> forall|i: int|
            k <= i < q.entries.len() ==> {
                ||| (#[trigger] q.entries[i]).frame >= frame
                ||| q.last_requested_frame != NULL_FRAME && q.entries[i].frame
                    >= q.last_requested_frame
                ||| q.entries[i].frame == q.last_added_frame
            },
        q.discard(frame) == (QueueState { entries: q.entries.skip(k), ..q }),
        q.discard(frame).valid(),
{
    law_cells(q);
    assert(q.entries.skip(0) =~= q.entries);
    if frame < 0 || q.entries.len() == 0 {
        0
    } else {
        let k = q.discard_count(frame);
        q.lemma_drop_front_valid(k);
        k
    }
}

/// Discarding up to a frame leaves that frame, and all later ones, to be found as
/// before; so it does with the frame requested last and all later ones, and with the
/// newest one. What lies before all three is no longer found.
pub proof fn law_discard_keeps<I: PartialEq + Default>(q: QueueState<I>, frame: Frame, other: Frame)
    requires
        q.valid(),
        (q.last_added_frame + 1 - q.head) % (INPUT_QUEUE_LENGTH as int) == 0,
    ensures
        other >= frame ==> q.discard(frame).lookup(other) == q.lookup(other),
        q.last_requested_frame != NULL_FRAME && other >= q.last_requested_frame ==> q.discard(
            frame,
        ).lookup(other) == q.lookup(other),
        other >= q.last_added_frame ==> q.discard(frame).lookup(other) == q.lookup(other),
        0 <= other < frame && (q.last_requested_frame != NULL_FRAME ==> other
            < q.last_requested_frame) && other < q.last_added_frame ==> q.discard(frame).lookup(
            other,
        ) is None,
{
    let next = q.discard(frame);
    let k = law_discard_effect(q, frame);
    law_cells(q);
    if other >= frame || (q.last_requested_frame != NULL_FRAME && other >= q.last_requested_frame)
        || other >= q.last_added_frame {
        lemma_suffix_lookup(q, next, k, other);
    } else if other >= 0 && next.holds(other) {
        let i = next.index_of(other as int);
        assert(next.entries[i] == q.entries[i + k]);
    }
}

/// How a request to replace the input in a cell is answered, and what it does. `same`
/// says that the cell is as expected, `known` that it has the new input already, from
/// its player, and `retried` that the last replacement started from the same
/// expectation and still stands. Where the input is replaced, the cell holds the new one
/// as one that its player gave, revised once more, and remembers the replacement; its
/// frame becomes the first wrong one if the input changed and no earlier frame is wrong.
#[verifier::spinoff_prover]
#[verifier::rlimit(40)]
pub proof fn law_replace_effect<I: PartialEq + Default>(
    q: QueueState<I>,
    i: int,
    expected: VersionedInput<I>,
    input: I,
    r: Result<InputReplacementResult, InputReplacementError>,
    next: QueueState<I>,
)
    requires
        q.valid(),
        (q.last_added_frame + 1 - q.head) % (INPUT_QUEUE_LENGTH as int) == 0,
        0 <= i < q.entries.len(),
        q.entries[i].frame >= 0,
        I::obeys_eq_spec(),
        q.replace_answer(q.entries[i].frame, expected, input, r, next),
    ensures
        ({
            let entry = q.entries[i];
            let slot = entry.slot;
            let same = slot.input.eq_spec(&expected.input) && slot.provenance
                == expected.provenance && slot.revision == expected.revision;
            let known = slot.input.eq_spec(&input) && slot.provenance
                == InputProvenance::Authoritative;
            let retried = match entry.transition {
                Some(t) => {
                    &&& t.expected.input.eq_spec(&expected.input)
                    &&& t.expected.provenance == expected.provenance
                    &&& t.expected.revision == expected.revision
                    &&& slot.input.eq_spec(&slot.input)
                },
                None => false,
            };
            let replacement = VersionedInput {
                input,
                provenance: InputProvenance::Authoritative,
                revision: (slot.revision + 1) as u64,
            };
            &&& r == Ok::<_, InputReplacementError>(InputReplacementResult::Replaced) <==> same
                && !known && slot.revision < u64::MAX
            &&& r == Err::<InputReplacementResult, _>(InputReplacementError::RevisionOverflow)
                <==> same && !known && slot.revision == u64::MAX
            &&& r == Ok::<_, InputReplacementError>(InputReplacementResult::RetryNoOp)
                <==> retried && known
            &&& r == Err::<InputReplacementResult, _>(InputReplacementError::ExpectedStateMismatch)
                <==> !same && !known && !(retried && !input.eq_spec(&slot.input))
            &&& r == Err::<InputReplacementResult, _>(InputReplacementError::Conflict) <==> {
                ||| known && !retried
                ||| !known && retried && !input.eq_spec(&slot.input)
            }
            &&& r != Ok::<_, InputReplacementError>(InputReplacementResult::Replaced) ==> next == q
            &&& r == Ok::<_, InputReplacementError>(InputReplacementResult::Replaced) ==> {
                &&& next.entries == q.entries.update(
                    i,
                    QueueEntry {
                        frame: entry.frame,
                        input,
                        slot: replacement,
                        transition: Some(InputTransition { expected, replacement }),
                    },
                )
                &&& next.latest == (if i == q.entries.len() - 1 {
                    PlayerInput { frame: entry.frame, input }
                } else {
                    q.latest
                })
                &&& next.first_incorrect_frame == (if slot.input.eq_spec(&input)
                    || q.first_incorrect_frame != NULL_FRAME && q.first_incorrect_frame
                    <= entry.frame {
                    q.first_incorrect_frame
                } else {
                    entry.frame
                })
                &&& next == (QueueState {
                    entries: next.entries,
                    latest: next.latest,
                    first_incorrect_frame: next.first_incorrect_frame,
                    ..q
                })
            }
        }),
{
    law_cells(q);
    law_lookup(q, q.entries[i].frame);
    assert(q.entries[i].frame == q.entries[i].frame);
    let j = q.index_of(q.entries[i].frame as int);
    assert(q.entries[j].frame == q.entries[i].frame);
    assert(i == j);
}

/// What has no frame number, and what is in no cell, cannot be replaced.
pub proof fn law_nothing_to_replace<I: PartialEq + Default>(
    q: QueueState<I>,
    frame: Frame,
    expected: VersionedInput<I>,
    input: I,
    r: Result<InputReplacementResult, InputReplacementError>,
    next: QueueState<I>,
)
    requires
        q.replace_answer(frame, expected, input, r, next),
        frame < 0 || forall|i: int|
            0 <= i < q.entries.len() ==> (#[trigger] q.entries[i]).frame != frame,
        q.valid(),
    ensures
        frame < 0 ==> r == Err::<InputReplacementResult, _>(InputReplacementError::InvalidFrame),
        frame >= 0 ==> r == Err::<InputReplacementResult, _>(InputReplacementError::OutOfRetention),
        next == q,
{
    if q.holds(frame) {
        assert(q.entries[q.index_of(frame as int)].frame == frame);
    }
}

/// When the input of a frame may be asked for: as long as no prediction is known to be
/// wrong, and the frame does not come before the oldest cell. Where a prediction has to
/// be made for it, the one after its basis has to be a frame.
pub proof fn law_when_served<I: PartialEq + Default>(q: QueueState<I>, frame: Frame)
    ensures
        ({
            let oldest = if q.entries.len() == 0 {
                NULL_FRAME
            } else {
                q.entries[0].frame
            };
            let made_for = if frame == 0 || q.last_added_frame == NULL_FRAME {
                q.prediction.frame + 1
            } else {
                q.latest.frame + 1
            };
            &&& q.distance(frame) == frame - oldest
            &&& q.predicted_frame(frame) == made_for
            &&& q.can_serve(frame) <==> {
                &&& q.first_incorrect_frame == NULL_FRAME
                &&& frame >= oldest
                &&& frame - oldest < q.entries.len() || q.prediction.frame >= 0 || (made_for
                    != NULL_FRAME && made_for <= i32::MAX)
            }
        }),
{
}

/// A new prediction is made from the input added last, that is from the one in the
/// newest cell, whatever was requested before; for frame 0, and where nothing was added
/// yet, from none. The one that repeats its basis therefore gives the input added last.
pub proof fn law_predicted_from_the_newest<I: PartialEq + Default>(q: QueueState<I>, frame: Frame)
    requires
        q.valid(),
    ensures
        frame == 0 || q.last_added_frame == NULL_FRAME ==> q.prediction_basis(frame) is None,
        frame != 0 && q.last_added_frame != NULL_FRAME ==> {
            &&& q.prediction_basis(frame) is Some
            &&& q.prediction_basis(frame)->0.input == q.latest.input
            &&& q.entries.len() > 0 ==> {
                let newest = q.entries[q.entries.len() - 1];
                &&& newest.frame == q.last_added_frame
                &&& q.prediction_basis(frame)->0.frame == newest.frame
                &&& q.prediction_basis(frame)->0.input == newest.input
                &&& q.prediction_basis(frame)->0.input == newest.slot.input
                &&& forall|predicted: I|
                    #[trigger] call_ensures(
                        <PredictRepeatLast as InputPredictor<I>>::predict,
                        (q.prediction_basis(frame)->0.input,),
                        predicted,
                    ) ==> predicted == newest.input
            }
        },
        forall|requested: Frame, prediction: PlayerInput<I>|
            (#[trigger] (QueueState {
                last_requested_frame: requested,
                prediction,
                ..q
            }).prediction_basis(frame)) == q.prediction_basis(frame),
{
    law_cells(q);
}

/// What the arrival of the true input of a frame does: it is added behind all others.
/// While predictions are being used, and none is known to be wrong, the frame is the
/// first wrong one if its input is not the predicted one. Predicting ends if no
/// prediction is known to be wrong and the frame is the one requested last; else it goes
/// on with the next frame.
pub proof fn law_confirm_effect<I: PartialEq + Default>(q: QueueState<I>, frame: Frame, input: I)
    requires
        0 <= q.head < INPUT_QUEUE_LENGTH,
        q.prediction.frame != NULL_FRAME ==> q.prediction.frame == frame && 0 <= frame < i32::MAX,
    ensures
        ({
            let next = q.confirm(frame, input);
            &&& next == (QueueState {
                entries: q.entries.push(
                    QueueEntry {
                        frame,
                        input,
                        slot: VersionedInput {
                            input,
                            provenance: InputProvenance::Authoritative,
                            revision: 0,
                        },
                        transition: None,
                    },
                ),
                head: (q.head + 1) % (INPUT_QUEUE_LENGTH as int),
                latest: PlayerInput { frame, input },
                first_frame: false,
                last_added_frame: frame,
                first_incorrect_frame: next.first_incorrect_frame,
                prediction: next.prediction,
                ..q
            })
            &&& q.prediction.frame == NULL_FRAME ==> {
                &&& next.first_incorrect_frame == q.first_incorrect_frame
                &&& next.prediction == q.prediction
            }
            &&& q.prediction.frame != NULL_FRAME ==> {
                &&& next.prediction.input == q.prediction.input
                &&& next.first_incorrect_frame == (if q.first_incorrect_frame == NULL_FRAME
                    && !q.prediction.input.eq_spec(&input) {
                    frame
                } else {
                    q.first_incorrect_frame
                })
                &&& next.prediction.frame == (if next.first_incorrect_frame == NULL_FRAME && frame
                    == q.last_requested_frame {
                    NULL_FRAME as int
                } else {
                    frame + 1
                })
            }
        }),
{
}

/// When the true input of a frame can be added.
pub proof fn law_when_confirmed<I: PartialEq + Default>(q: QueueState<I>, frame: Frame)
    ensures
        q.can_confirm(frame) <==> {
            &&& q.first_frame || frame == q.last_added_frame + 1
            &&& frame == 0 || q.latest.frame == frame - 1
            &&& q.entries.len() < INPUT_QUEUE_LENGTH
            &&& q.prediction.frame == NULL_FRAME || (q.prediction.frame == frame && frame
                < i32::MAX)
        },
{
}

/// What filling a range of frames does to the cells and marks that predictions do not
/// concern.
proof fn lemma_fill_cells<I: PartialEq + Default>(q: QueueState<I>, input: I, from: int, to: int)
    requires
        from <= to,
        i32::MIN <= from,
        to <= i32::MAX,
        0 <= q.head < INPUT_QUEUE_LENGTH,
    ensures
        ({
            let next = q.fill(input, from, to);
            &&& next.entries.len() == q.entries.len() + (to - from)
            &&& 0 <= next.head < INPUT_QUEUE_LENGTH
            &&& next.head == (q.head + (to - from)) % (INPUT_QUEUE_LENGTH as int)
            &&& forall|i: int|
                0 <= i < q.entries.len() ==> #[trigger] next.entries[i] == q.entries[i]
            &&& forall|i: int|
                q.entries.len() <= i < next.entries.len() ==> #[trigger] next.entries[i] == (
                QueueEntry {
                    frame: (from + (i - q.entries.len())) as Frame,
                    input,
                    slot: VersionedInput {
                        input,
                        provenance: InputProvenance::Authoritative,
                        revision: 0,
                    },
                    transition: None,
                })
            &&& from == to ==> next == q
            &&& from < to ==> {
                &&& next.latest == (PlayerInput { frame: (to - 1) as Frame, input })
                &&& next.last_added_frame == to - 1
                &&& !next.first_frame
            }
            &&& next.last_user_frame == q.last_user_frame
            &&& next.last_requested_frame == q.last_requested_frame
            &&& next.frame_delay == q.frame_delay
            &&& next.prediction.input == q.prediction.input
            &&& q.prediction.frame == NULL_FRAME ==> {
                &&& next.prediction.frame == NULL_FRAME
                &&& next.first_incorrect_frame == q.first_incorrect_frame
            }
            &&& q.first_incorrect_frame != NULL_FRAME ==> next.first_incorrect_frame
                == q.first_incorrect_frame
        }),
    decreases to - from,
{
    if from < to {
        lemma_fill_cells(q, input, from, to - 1);
    }
}

/// How filling a range of frames bears on predictions.
proof fn lemma_fill_verdict<I: PartialEq + Default>(q: QueueState<I>, input: I, from: int, to: int)
    requires
        0 <= from <= to <= i32::MAX,
        q.prediction.frame == from,
        0 <= q.head < INPUT_QUEUE_LENGTH,
    ensures
        ({
            let next = q.fill(input, from, to);
            let right = q.first_incorrect_frame == NULL_FRAME && q.prediction.input.eq_spec(
                &input,
            );
            &&& next.first_incorrect_frame == (if q.first_incorrect_frame == NULL_FRAME && from < to
                && !right {
                from
            } else {
                q.first_incorrect_frame as int
            })
            &&& next.prediction.frame == (if right && from <= q.last_requested_frame < to {
                NULL_FRAME as int
            } else {
                to
            })
        }),
    decreases to - from,
{
    if from < to {
        lemma_fill_verdict(q, input, from, to - 1);
        lemma_fill_cells(q, input, from, to - 1);
    }
}

/// When an input can be taken from the user: the frame it is used for, and the one after
/// the input added last, have to be frame numbers. If cells are to be added, the input
/// added last must still be there, there has to be room, and a prediction, if one is
/// being used, has to be for the next frame.
pub proof fn law_when_taken<I: PartialEq + Default>(q: QueueState<I>, frame: Frame, count: int)
    ensures
        ({
            let first = if q.first_frame {
                0
            } else {
                q.latest.frame + 1
            };
            &&& q.expected_frame() == first
            &&& q.delayed(frame) == frame + (q.frame_delay as i32)
            &&& q.ready_for(count) <==> {
                ||| count <= 0
                ||| {
                    &&& q.first_frame || q.latest.frame == q.last_added_frame
                    &&& q.entries.len() + count <= INPUT_QUEUE_LENGTH
                    &&& q.prediction.frame == NULL_FRAME || (q.prediction.frame == first && first
                        + count <= i32::MAX)
                }
            }
            &&& q.can_take(frame, count) <==> {
                &&& first <= i32::MAX
                &&& i32::MIN <= frame + (q.frame_delay as i32) <= i32::MAX
                &&& q.ready_for(count)
            }
            &&& q.is_next_user_frame(frame) <==> q.last_user_frame == NULL_FRAME || frame
                == q.last_user_frame + 1
        }),
{
}

/// What becomes of a submitted input. Unless it is the user's first one, or the one after
/// their last, nothing happens. Else, with the delay, it is used for a frame. If that one
/// comes before the next frame of the queue, the input is dropped, and only remembered
/// as submitted. Else one cell is added for each frame from the next one on, up to the
/// one for which the input is used: that cell holds the input, and the ones before it
/// the input added last so far.
#[verifier::spinoff_prover]
#[verifier::rlimit(40)]
pub proof fn law_submission_effect<I: PartialEq + Default>(
    q: QueueState<I>,
    input: PlayerInput<I>,
)
    requires
        0 <= q.head < INPUT_QUEUE_LENGTH,
        input.frame + (q.frame_delay as i32) <= i32::MAX,
        input.frame + (q.frame_delay as i32) != NULL_FRAME,
    ensures
        ({
            let (used, next) = q.add(input);
            let n = q.entries.len() as int;
            let target = input.frame + (q.frame_delay as i32);
            let first = if q.first_frame {
                0
            } else {
                q.latest.frame + 1
            };
            if q.last_user_frame != NULL_FRAME && input.frame != q.last_user_frame + 1 {
                used == NULL_FRAME && next == q
            } else if target < first {
                used == NULL_FRAME && next == (QueueState { last_user_frame: input.frame, ..q })
            } else {
                &&& used == target
                &&& next.entries.len() == n + (target - first + 1)
                &&& forall|i: int| 0 <= i < n ==> #[trigger] next.entries[i] == q.entries[i]
                &&& forall|i: int|
                    n <= i < next.entries.len() ==> {
                        let entry = #[trigger] next.entries[i];
                        &&& entry.frame == first + (i - n)
                        &&& entry.input == (if first + (i - n) == target {
                            input.input
                        } else {
                            q.latest.input
                        })
                        &&& entry.slot.input == entry.input
                        &&& entry.slot.provenance == InputProvenance::Authoritative
                        &&& entry.slot.revision == 0
                        &&& entry.transition is None
                    }
                &&& next.head == (q.head + (target - first + 1)) % (INPUT_QUEUE_LENGTH as int)
                &&& next.latest == (PlayerInput { frame: used, input: input.input })
                &&& next.last_added_frame == target
                &&& !next.first_frame
                &&& next.last_user_frame == input.frame
                &&& next.last_requested_frame == q.last_requested_frame
                &&& next.frame_delay == q.frame_delay
                &&& next.prediction.input == q.prediction.input
            }
        }),
{
    let taken = QueueState { last_user_frame: input.frame, ..q };
    let target = q.delayed(input.frame);
    if q.is_next_user_frame(input.frame) && q.expected_frame() <= target {
        lemma_fill_cells(taken, q.latest.input, q.expected_frame(), target);
    }
}

/// How a submission that is used bears on predictions, be it the very first one or a
/// later one. Where none is being used, nothing is found out. A frame that is known to
/// be wrong already stays the first one. Else the first wrong frame is the first one
/// among those added, fills included, whose input is not the predicted one; there is
/// none only if all of them have the predicted input. Frames after the one requested
/// last, if that one is among those added, do not count: nothing was predicted for
/// them. Predicting ends if the frame requested last is among those added, and no frame
/// is known to be wrong; else it goes on after the last frame added.
#[verifier::spinoff_prover]
#[verifier::rlimit(40)]
pub proof fn law_submission_verdict<I: PartialEq + Default>(
    q: QueueState<I>,
    input: PlayerInput<I>,
)
    requires
        0 <= q.head < INPUT_QUEUE_LENGTH,
        q.last_user_frame == NULL_FRAME || input.frame == q.last_user_frame + 1,
        input.frame + (q.frame_delay as i32) <= i32::MAX,
        input.frame + (q.frame_delay as i32) != NULL_FRAME,
        input.frame + (q.frame_delay as i32) >= if q.first_frame {
            0
        } else {
            q.latest.frame + 1
        },
        q.prediction.frame != NULL_FRAME ==> {
            &&& q.prediction.frame == if q.first_frame {
                0
            } else {
                q.latest.frame + 1
            }
            &&& q.prediction.frame >= 0
            &&& input.frame + (q.frame_delay as i32) < i32::MAX
        },
    ensures
        ({
            let next = q.add(input).1;
            let n = q.entries.len() as int;
            let guess = q.prediction.input;
            let first = q.prediction.frame;
            let requested = q.last_requested_frame;
            let last = input.frame + (q.frame_delay as i32);
            if q.prediction.frame == NULL_FRAME {
                &&& next.first_incorrect_frame == q.first_incorrect_frame
                &&& next.prediction.frame == NULL_FRAME
            } else if q.first_incorrect_frame != NULL_FRAME {
                &&& next.first_incorrect_frame == q.first_incorrect_frame
                &&& next.prediction.frame == last + 1
            } else {
                &&& next.first_incorrect_frame == NULL_FRAME ==> forall|i: int|
                    n <= i < next.entries.len() && !(first <= requested < (
                    #[trigger] next.entries[i]).frame) ==> guess.eq_spec(&next.entries[i].input)
                &&& next.first_incorrect_frame != NULL_FRAME ==> exists|k: int|
                    {
                        &&& n <= k < next.entries.len()
                        &&& (#[trigger] next.entries[k]).frame == next.first_incorrect_frame
                        &&& !guess.eq_spec(&next.entries[k].input)
                        &&& !(first <= requested < next.entries[k].frame)
                        &&& forall|i: int|
                            n <= i < k ==> guess.eq_spec(&(#[trigger] next.entries[i]).input)
                    }
                &&& next.prediction.frame == (if first <= requested <= last
                    && next.first_incorrect_frame == NULL_FRAME {
                    NULL_FRAME as int
                } else {
                    last + 1
                })
            }
        }),
{
    let taken = QueueState { last_user_frame: input.frame, ..q };
    let target = q.delayed(input.frame);
    let from = q.expected_frame();
    let next = q.add(input).1;
    let n = q.entries.len() as int;
    law_submission_effect(q, input);
    lemma_fill_cells(taken, q.latest.input, from, target);
    if q.prediction.frame != NULL_FRAME {
        lemma_fill_verdict(taken, q.latest.input, from, target);
        if q.first_incorrect_frame == NULL_FRAME && next.first_incorrect_frame != NULL_FRAME {
            let k = n + (next.first_incorrect_frame - from);
            assert(next.entries[k].frame == next.first_incorrect_frame);
        }
    }
}

/// What filling a range of frames does: one cell is added for each of them, with the
/// given input, and the prediction is checked against it as far as it was used.
pub proof fn law_fill_effect<I: PartialEq + Default>(q: QueueState<I>, input: I, from: int, to: int)
    requires
        from <= to,
        i32::MIN <= from,
        to <= i32::MAX,
        0 <= q.head < INPUT_QUEUE_LENGTH,
        q.prediction.frame != NULL_FRAME ==> q.prediction.frame == from && from >= 0,
    ensures
        ({
            let next = q.fill(input, from, to);
            &&& next.entries.len() == q.entries.len() + (to - from)
            &&& forall|i: int|
                0 <= i < q.entries.len() ==> #[trigger] next.entries[i] == q.entries[i]
            &&& forall|i: int|
                q.entries.len() <= i < next.entries.len() ==> {
                    let entry = #[trigger] next.entries[i];
                    &&& entry.frame == from + (i - q.entries.len())
                    &&& entry.input == input
                    &&& entry.slot.input == input
                    &&& entry.slot.provenance == InputProvenance::Authoritative
                    &&& entry.slot.revision == 0
                    &&& entry.transition is None
                }
            &&& from == to ==> next == q
            &&& from < to ==> {
                &&& next.latest == (PlayerInput { frame: (to - 1) as Frame, input })
                &&& next.last_added_frame == to - 1
                &&& !next.first_frame
            }
            &&& next.head == (q.head + (to - from)) % (INPUT_QUEUE_LENGTH as int)
            &&& next.last_user_frame == q.last_user_frame
            &&& next.last_requested_frame == q.last_requested_frame
            &&& next.frame_delay == q.frame_delay
            &&& next.prediction.input == q.prediction.input
            &&& from < to && q.prediction.frame != NULL_FRAME && q.first_incorrect_frame
                == NULL_FRAME && !q.prediction.input.eq_spec(&input) ==> {
                &&& next.first_incorrect_frame == from
                &&& next.prediction.frame == to
            }
            &&& from < to && q.prediction.frame != NULL_FRAME && q.first_incorrect_frame
                == NULL_FRAME && q.prediction.input.eq_spec(&input) ==> {
                &&& next.first_incorrect_frame == NULL_FRAME
                &&& next.prediction.frame == (if from <= q.last_requested_frame < to {
                    NULL_FRAME as int
                } else {
                    to
                })
            }
            &&& q.prediction.frame == NULL_FRAME || q.first_incorrect_frame != NULL_FRAME
                ==> next.first_incorrect_frame == q.first_incorrect_frame
            &&& q.prediction.frame == NULL_FRAME ==> next.prediction.frame == NULL_FRAME
            &&& q.prediction.frame != NULL_FRAME && q.first_incorrect_frame != NULL_FRAME
                ==> next.prediction.frame == to
        }),
{
    lemma_fill_cells(q, input, from, to);
    if q.prediction.frame != NULL_FRAME {
        lemma_fill_verdict(q, input, from, to);
    }
}

/// Which frames are reported when the delay becomes longer: all that have no input yet,
/// were not reported before, and come before the one for which the user's next input
/// will be used. They come in order, each once, with the input added last.
pub proof fn law_bridge_effect<I: PartialEq + Default>(q: QueueState<I>, delay: usize)
    requires
        q.frame_delay <= i32::MAX,
        delay <= i32::MAX,
        q.last_added_frame + (delay - q.frame_delay) <= i32::MAX,
        q.last_user_frame + delay <= i32::MAX,
    ensures
        delay <= q.frame_delay || q.last_added_frame == NULL_FRAME ==> q.bridge(delay).len() == 0,
        delay > q.frame_delay && q.last_added_frame != NULL_FRAME ==> {
            let fills = q.bridge(delay);
            let end = if q.last_user_frame == NULL_FRAME {
                q.last_added_frame + (delay - q.frame_delay)
            } else {
                q.last_user_frame + delay
            };
            &&& forall|i: int|
                0 <= i < fills.len() ==> {
                    let fill = #[trigger] fills[i];
                    &&& fill.input == q.latest.input
                    &&& q.last_added_frame < fill.frame <= end
                    &&& q.last_user_frame != NULL_FRAME ==> fill.frame > q.last_user_frame
                        + q.frame_delay
                    &&& fill.frame == fills[0].frame + i
                }
            &&& forall|frame: Frame|
                q.last_added_frame < frame <= end && (q.last_user_frame != NULL_FRAME ==> frame
                    > q.last_user_frame + q.frame_delay) ==> #[trigger] is_among(fills, frame)
        },
        q.gap_end(delay) <= i32::MAX,
{
    if delay > q.frame_delay && q.last_added_frame != NULL_FRAME {
        let fills = q.bridge(delay);
        let start = q.bridged_through() + 1;
        assert forall|frame: Frame|
            start <= frame <= q.gap_end(delay) implies #[trigger] is_among(fills, frame) by {
            assert(fills[frame - start].frame == frame);
        }
    }
}

/// Whether there is an input for a frame in a list.
pub open spec fn is_among<I>(inputs: Seq<PlayerInput<I>>, frame: Frame) -> bool {
    exists|i: int| 0 <= i < inputs.len() && (#[trigger] inputs[i]).frame == frame
}

/// Inputs with a frame, with a version, and replacements are equal if all their parts are;
/// inputs themselves as their own `==` has it.
pub proof fn law_equality<I: PartialEq>(
    a: PlayerInput<I>,
    b: PlayerInput<I>,
    v: VersionedInput<I>,
    w: VersionedInput<I>,
    s: InputTransition<I>,
    t: InputTransition<I>,
)
    ensures
        a.eq_spec(&b) <==> a.frame == b.frame && a.input.eq_spec(&b.input),
        v.eq_spec(&w) <==> v.input.eq_spec(&w.input) && v.provenance == w.provenance && v.revision
            == w.revision,
        v.same_as(w) <==> v.eq_spec(&w),
        s.eq_spec(&t) <==> s.expected.eq_spec(&t.expected) && s.replacement.eq_spec(
            &t.replacement,
        ),
        PlayerInput::<I>::obeys_eq_spec() == I::obeys_eq_spec(),
        VersionedInput::<I>::obeys_eq_spec() == I::obeys_eq_spec(),
        InputTransition::<I>::obeys_eq_spec() == I::obeys_eq_spec(),
{
}

/// Queues that agree but for verdicts have the same cells and the same marks, but
/// perhaps for which frame is wrong and which one is predicted next.
pub proof fn law_same_but_verdicts<I: PartialEq + Default>(a: QueueState<I>, b: QueueState<I>)
    requires
        a.same_but_verdicts(b),
    ensures
        a.entries == b.entries,
        a.head == b.head,
        a.latest == b.latest,
        a.first_frame == b.first_frame,
        a.last_added_frame == b.last_added_frame,
        a.last_user_frame == b.last_user_frame,
        a.last_requested_frame == b.last_requested_frame,
        a.frame_delay == b.frame_delay,
        a.prediction.input == b.prediction.input,
{
}

} // verus!
