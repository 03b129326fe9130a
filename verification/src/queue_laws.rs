//! What holds of input queues across several operations.

use vstd::prelude::*;
use vstd::std_specs::cmp::PartialEqSpec;
use crate::config::{Frame, NULL_FRAME};
use crate::input_queue::INPUT_QUEUE_LENGTH;
use crate::queue_model::{lemma_filter_all, QueueEntry, QueueState};
use crate::versioned_input::{
    InputProvenance, InputReplacementError, InputReplacementResult, VersionedInput,
};

verus! {

impl<I: PartialEq + Default> QueueState<I> {
    /// Frames stand at the ring positions where they are looked up. That is so
    /// if the first frame was a multiple of the length of the ring.
    pub open spec fn aligned(self) -> bool {
        (self.last_added_frame + 1 - self.head) % (INPUT_QUEUE_LENGTH as int) == 0
    }
}

/// A cell in use is found under its frame, if the queue is aligned.
proof fn lemma_index_of<I: PartialEq + Default>(q: QueueState<I>, i: int)
    requires
        q.valid(),
        q.aligned(),
        0 <= i < q.len(),
    ensures
        q.index_of(q.frame_of(i)) == i,
{
    let laps = (q.last_added_frame + 1 - q.head) / (INPUT_QUEUE_LENGTH as int);
    assert(q.last_added_frame + 1 - q.head == laps * 128);
    assert(q.frame_of(i) == laps * 128 + q.head - q.len() + i);
}

/// In an aligned queue a frame is found exactly if a cell in use holds it, and
/// that cell is found.
pub proof fn law_lookup<I: PartialEq + Default>(q: QueueState<I>, frame: Frame)
    requires
        q.valid(),
        q.aligned(),
        frame >= 0,
    ensures
        q.holds(frame) <==> exists|i: int| 0 <= i < q.len() && #[trigger] q.entries[i].frame == frame,
        forall|i: int|
            0 <= i < q.len() && #[trigger] q.entries[i].frame == frame ==> q.lookup(frame) == Some(
                q.entries[i],
            ),
{
    assert forall|i: int| 0 <= i < q.len() && #[trigger] q.entries[i].frame == frame implies q.lookup(
        frame,
    ) == Some(q.entries[i]) by {
        assert(q.entry_is_valid(i, q.entries[i]));
        lemma_index_of(q, i);
    }
    if q.holds(frame) {
        assert(q.entries[q.index_of(frame as int)].frame == frame);
    }
}

/// In a queue that is not aligned nothing is found.
pub proof fn law_lookup_needs_alignment<I: PartialEq + Default>(q: QueueState<I>, frame: Frame)
    requires
        q.valid(),
        !q.aligned(),
    ensures
        q.lookup(frame) is None,
{
    if q.holds(frame) {
        let i = q.index_of(frame as int);
        assert(q.entry_is_valid(i, q.entries[i]));
    }
}

/// An input that was added is found, as it was added; what else is found does not
/// change.
pub proof fn law_append_reads_back<I: PartialEq + Default>(
    q: QueueState<I>,
    frame: Frame,
    input: I,
    provenance: InputProvenance,
)
    requires
        q.valid(),
        q.aligned(),
        q.is_next(frame),
        q.len() < INPUT_QUEUE_LENGTH,
        frame >= 0,
        q.first_frame ==> frame % 128 == 0,
    ensures
        q.append(frame, input, provenance).valid(),
        q.append(frame, input, provenance).aligned(),
        q.append(frame, input, provenance).lookup(frame) == Some(
            QueueEntry::fresh(frame, input, provenance),
        ),
        forall|other: Frame|
            other != frame ==> #[trigger] q.append(frame, input, provenance).lookup(other)
                == q.lookup(other),
{
    let next = q.append(frame, input, provenance);
    q.lemma_append_valid(frame, input, provenance);
    law_lookup(next, frame);
    assert(next.entries[q.len() as int].frame == frame);
    assert forall|other: Frame| other != frame implies #[trigger] next.lookup(other) == q.lookup(
        other,
    ) by {
        if other >= 0 {
            law_lookup(next, other);
            law_lookup(q, other);
            if q.holds(other) {
                let i = q.index_of(other as int);
                assert(next.entries[i] == q.entries[i]);
            }
            if next.holds(other) {
                let i = next.index_of(other as int);
                assert(i < q.len());
                assert(next.entries[i] == q.entries[i]);
            }
        }
    }
}

/// A replaced input is found, as an authoritative one that was revised once more;
/// what else is found does not change, nor does any frame.
pub proof fn law_replace_reads_back<I: PartialEq + Default>(
    q: QueueState<I>,
    frame: Frame,
    expected: VersionedInput<I>,
    input: I,
)
    requires
        q.valid(),
        q.replace_verdict(frame, expected, input) == Ok::<_, InputReplacementError>(
            InputReplacementResult::Replaced,
        ),
    ensures
        ({
            let next = q.replace(frame, expected, input);
            &&& next.valid()
            &&& next.aligned() == q.aligned()
            &&& next.len() == q.len()
            &&& next.head == q.head
            &&& next.lookup(frame) == Some(q.lookup(frame)->0.replaced(expected, input))
            &&& next.lookup(frame)->0.slot.input == input
            &&& next.lookup(frame)->0.slot.provenance == InputProvenance::Authoritative
            &&& next.lookup(frame)->0.slot.revision == q.lookup(frame)->0.slot.revision + 1
            &&& forall|other: Frame|
                other != frame ==> #[trigger] next.lookup(other) == q.lookup(other)
        }),
{
    let next = q.replace(frame, expected, input);
    let i = q.index_of(frame as int);
    assert(q.entry_is_valid(i, q.entries[i]));
    assert forall|j: int| 0 <= j < next.len() implies next.entry_is_valid(
        j,
        #[trigger] next.entries[j],
    ) by {
        assert(q.entry_is_valid(j, q.entries[j]));
    }
    assert forall|other: Frame| other != frame implies #[trigger] next.lookup(other) == q.lookup(
        other,
    ) by {
        if next.index_of(other as int) == i {
            assert(q.entries[i].frame == frame);
        }
    }
}

/// Making the same replacement once more is a retry that changes nothing, where
/// inputs equal themselves.
pub proof fn law_exact_retry<I: PartialEq + Default>(
    q: QueueState<I>,
    frame: Frame,
    expected: VersionedInput<I>,
    input: I,
)
    requires
        q.valid(),
        q.replace_verdict(frame, expected, input) == Ok::<_, InputReplacementError>(
            InputReplacementResult::Replaced,
        ),
        expected.input.eq_spec(&expected.input),
        input.eq_spec(&input),
    ensures
        q.replace(frame, expected, input).replace_verdict(frame, expected, input) == Ok::<
            _,
            InputReplacementError,
        >(InputReplacementResult::RetryNoOp),
{
    law_replace_reads_back(q, frame, expected, input);
}

/// After a replacement, one that starts from the same state but asks for another
/// input is refused.
pub proof fn law_rival_replacement_conflicts<I: PartialEq + Default>(
    q: QueueState<I>,
    frame: Frame,
    expected: VersionedInput<I>,
    input: I,
    rival: I,
)
    requires
        q.valid(),
        q.replace_verdict(frame, expected, input) == Ok::<_, InputReplacementError>(
            InputReplacementResult::Replaced,
        ),
        expected.input.eq_spec(&expected.input),
        input.eq_spec(&input),
        !input.eq_spec(&rival),
        !rival.eq_spec(&input),
    ensures
        q.replace(frame, expected, input).replace_verdict(frame, expected, rival) == Err::<
            InputReplacementResult,
            _,
        >(InputReplacementError::Conflict),
{
    law_replace_reads_back(q, frame, expected, input);
}

/// After a replacement, one that asks for the same input but starts from another
/// state is refused, even if it starts from the state that was reached.
pub proof fn law_other_expectation_conflicts<I: PartialEq + Default>(
    q: QueueState<I>,
    frame: Frame,
    expected: VersionedInput<I>,
    input: I,
    other: VersionedInput<I>,
)
    requires
        q.valid(),
        q.replace_verdict(frame, expected, input) == Ok::<_, InputReplacementError>(
            InputReplacementResult::Replaced,
        ),
        input.eq_spec(&input),
        !expected.same_as(other),
    ensures
        q.replace(frame, expected, input).replace_verdict(frame, other, input) == Err::<
            InputReplacementResult,
            _,
        >(InputReplacementError::Conflict),
{
    law_replace_reads_back(q, frame, expected, input);
}

/// The state that a replacement reached is another one than the state it started
/// from, so naming it as expected is no retry.
pub proof fn law_reached_state_is_no_retry<I: PartialEq + Default>(
    q: QueueState<I>,
    frame: Frame,
    expected: VersionedInput<I>,
    input: I,
)
    requires
        q.valid(),
        q.replace_verdict(frame, expected, input) == Ok::<_, InputReplacementError>(
            InputReplacementResult::Replaced,
        ),
        input.eq_spec(&input),
    ensures
        !expected.same_as(q.replace(frame, expected, input).lookup(frame)->0.slot),
        q.replace(frame, expected, input).replace_verdict(
            frame,
            q.replace(frame, expected, input).lookup(frame)->0.slot,
            input,
        ) == Err::<InputReplacementResult, _>(InputReplacementError::Conflict),
{
    law_replace_reads_back(q, frame, expected, input);
    law_other_expectation_conflicts(
        q,
        frame,
        expected,
        input,
        q.replace(frame, expected, input).lookup(frame)->0.slot,
    );
}

/// When a slot is replaced, in a queue where `==` on inputs is equality: exactly
/// if it holds what is expected, does not hold the new input authoritatively yet,
/// and can be revised once more.
pub proof fn law_when_replaced<I: PartialEq + Default>(
    q: QueueState<I>,
    frame: Frame,
    expected: VersionedInput<I>,
    input: I,
)
    requires
        q.valid(),
        forall|a: I, b: I| #[trigger] a.eq_spec(&b) <==> a == b,
    ensures
        q.replace_verdict(frame, expected, input) == Ok::<_, InputReplacementError>(
            InputReplacementResult::Replaced,
        ) <==> {
            &&& q.holds(frame)
            &&& q.lookup(frame)->0.slot == expected
            &&& !(expected.input == input && expected.provenance == InputProvenance::Authoritative)
            &&& expected.revision < u64::MAX
        },
        q.replace_verdict(frame, expected, input) == Ok::<_, InputReplacementError>(
            InputReplacementResult::RetryNoOp,
        ) <==> {
            &&& q.holds(frame)
            &&& q.lookup(frame)->0.transition is Some
            &&& q.lookup(frame)->0.transition->0.expected == expected
            &&& q.lookup(frame)->0.slot.input == input
        },
{
    if q.holds(frame) {
        let i = q.index_of(frame as int);
        assert(q.entry_is_valid(i, q.entries[i]));
    }
}

/// A replacement that changes the input marks its frame as wrong, unless an
/// earlier one is; one that only confirms the input marks nothing.
pub proof fn law_earliest_mismatch<I: PartialEq + Default>(
    q: QueueState<I>,
    frame: Frame,
    expected: VersionedInput<I>,
    input: I,
)
    requires
        q.holds(frame),
    ensures
        ({
            let next = q.replace(frame, expected, input);
            if q.lookup(frame)->0.slot.input.eq_spec(&input) {
                next.first_incorrect_frame == q.first_incorrect_frame
            } else {
                &&& next.first_incorrect_frame != NULL_FRAME
                &&& next.first_incorrect_frame <= frame
                &&& next.first_incorrect_frame == frame || next.first_incorrect_frame
                    == q.first_incorrect_frame
                &&& q.first_incorrect_frame != NULL_FRAME ==> next.first_incorrect_frame
                    <= q.first_incorrect_frame
            }
        }),
{
}

/// Frames that were trimmed are not found any more, and cannot be replaced; all
/// later ones are found as before.
pub proof fn law_trim<I: PartialEq + Default>(q: QueueState<I>, frame: Frame)
    requires
        q.valid(),
        frame >= 0,
    ensures
        q.trim(frame).valid(),
        q.trim(frame).aligned() == q.aligned(),
        forall|other: Frame| other <= frame ==> #[trigger] q.trim(frame).lookup(other) is None,
        forall|other: Frame|
            other > frame ==> #[trigger] q.trim(frame).lookup(other) == q.lookup(other),
        forall|other: Frame, expected: VersionedInput<I>, input: I|
            0 <= other <= frame ==> #[trigger] q.trim(frame).replace_verdict(other, expected, input)
                == Err::<InputReplacementResult, _>(InputReplacementError::OutOfRetention),
{
    let next = q.trim(frame);
    let k = q.lemma_trim(frame);
    assert forall|other: Frame| other <= frame implies #[trigger] next.lookup(other) is None by {
        if next.holds(other) {
            let i = next.index_of(other as int);
            assert(next.entries[i] == q.entries[i + k]);
        }
    }
    assert forall|other: Frame| other > frame implies #[trigger] next.lookup(other) == q.lookup(
        other,
    ) by {
        lemma_dropped_lookup(q, k, other);
    }
}

/// What is found after the oldest cells were given up is what was found before,
/// but for the frames of those cells.
proof fn lemma_dropped_lookup<I: PartialEq + Default>(q: QueueState<I>, k: int, frame: Frame)
    requires
        q.valid(),
        0 <= k <= q.len(),
        forall|i: int| 0 <= i < k ==> (#[trigger] q.entries[i]).frame != frame,
    ensures
        q.drop_front(k).lookup(frame) == q.lookup(frame),
{
    let next = q.drop_front(k);
    q.lemma_drop_front_valid(k);
    if frame >= 0 {
        if q.aligned() {
            law_lookup(q, frame);
            law_lookup(next, frame);
            if q.holds(frame) {
                let i = q.index_of(frame as int);
                assert(i >= k);
                assert(next.entries[i - k] == q.entries[i]);
            }
            if next.holds(frame) {
                let i = next.index_of(frame as int);
                assert(next.entries[i] == q.entries[i + k]);
            }
        } else {
            law_lookup_needs_alignment(q, frame);
            law_lookup_needs_alignment(next, frame);
        }
    }
}

/// Where there is room for the next frame after trimming, it can be added once
/// that has been done. Trimming through a negative frame gives up nothing, so a full
/// queue must not hold such frames.
pub proof fn law_room_after_trim<I: PartialEq + Default>(
    q: QueueState<I>,
    frame: Frame,
    trim_through: Frame,
)
    requires
        q.valid(),
        trim_through < 0 && q.len() == INPUT_QUEUE_LENGTH ==> q.front_frame() > trim_through,
    ensures
        q.is_next(frame) && q.entries_after(trim_through).len() < INPUT_QUEUE_LENGTH <==> q.trim(
            trim_through,
        ).is_next(frame) && q.trim(trim_through).len() < INPUT_QUEUE_LENGTH,
{
    let keep = |entry: QueueEntry<I>| entry.frame > trim_through;
    lemma_filter_all(q.entries, keep);
    if trim_through < 0 && q.len() == INPUT_QUEUE_LENGTH {
        assert forall|i: int| 0 <= i < q.len() implies keep(#[trigger] q.entries[i]) by {
            assert(q.entry_is_valid(0, q.entries[0]));
            assert(q.entry_is_valid(i, q.entries[i]));
        }
    }
}

/// A full queue has room only if trimming gives up some frame.
pub proof fn law_full_queue_needs_trim<I: PartialEq + Default>(q: QueueState<I>, trim_through: Frame)
    requires
        q.valid(),
        q.len() == INPUT_QUEUE_LENGTH,
    ensures
        q.entries_after(trim_through).len() < INPUT_QUEUE_LENGTH <==> exists|i: int|
            0 <= i < q.len() && (#[trigger] q.entries[i]).frame <= trim_through,
{
    let keep = |entry: QueueEntry<I>| entry.frame > trim_through;
    lemma_filter_all(q.entries, keep);
    if exists|i: int| 0 <= i < q.len() && (#[trigger] q.entries[i]).frame <= trim_through {
        let i = choose|i: int| 0 <= i < q.len() && (#[trigger] q.entries[i]).frame <= trim_through;
        assert(!keep(q.entries[i]));
    }
}

} // verus!
