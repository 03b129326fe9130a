//! What holds of sessions across several calls.

use vstd::prelude::*;
use crate::config::{Config, Frame, InputStatus, NULL_FRAME};
use crate::input_queue::{INPUT_QUEUE_LENGTH, MAX_ROLLBACK_HISTORY_FRAMES};
use crate::queue_laws::{law_append_reads_back, law_replace_reads_back, law_trim};
use crate::queue_model::QueueState;
use crate::requests::Step;
use crate::sessions::external_session::ExternalSession;
use crate::submission_laws::law_consecutive_frames;
use crate::sync_layer::{in_step, lemma_trimmed, taken_in, trim_limit, SyncLayer};
use crate::versioned_input::{
    InputProvenance, InputReplacementError, InputReplacementResult, VersionedInput,
};

verus! {

/// Numbers less than `n` apart leave the same remainder only if they are equal.
proof fn lemma_remainders_differ(a: int, b: int, n: int)
    requires
        n > 0,
        -n < a - b < n,
        a != b,
    ensures
        a % n != b % n,
{
    vstd::arithmetic::div_mod::lemma_fundamental_div_mod(a, n);
    vstd::arithmetic::div_mod::lemma_fundamental_div_mod(b, n);
    if a % n == b % n {
        let q = a / n - b / n;
        assert(a - b == n * q) by (nonlinear_arith)
            requires
                a == n * (a / n) + a % n,
                b == n * (b / n) + b % n,
                a % n == b % n,
                q == a / n - b / n,
        ;
        assert(q == 0) by (nonlinear_arith)
            requires
                n > 0,
                -n < n * q < n,
        ;
    }
}

/// Saving the game state of a frame in its cell makes it available, and makes
/// unavailable the one that lies one frame further back than the history. All states
/// within the history stay as they are.
pub proof fn law_saving<T: Config>(layer: SyncLayer<T>, next: SyncLayer<T>, frame: Frame)
    requires
        layer.wf(),
        frame >= 0,
        next.saved_states@.len() == layer.saved_states@.len(),
        next.saved_states@[layer.cell_of(frame)].frame == frame,
        forall|i: int|
            0 <= i < layer.saved_states@.len() && i != layer.cell_of(frame)
                ==> #[trigger] next.saved_states@[i] == layer.saved_states@[i],
    ensures
        next.has_saved(frame),
        forall|other: Frame|
            0 <= other && other != frame && -layer.rollback_history_frames <= other - frame
                <= layer.rollback_history_frames ==> {
                &&& #[trigger] next.has_saved(other) == layer.has_saved(other)
                &&& next.saved_states@[next.cell_of(other)] == layer.saved_states@[layer.cell_of(
                    other,
                )]
            },
        forall|other: Frame|
            other == frame - layer.rollback_history_frames - 1 ==> !#[trigger] next.has_saved(
                other,
            ),
{
    let n = layer.saved_states@.len() as int;
    assert forall|other: Frame|
        0 <= other && other != frame && -layer.rollback_history_frames <= other - frame
            <= layer.rollback_history_frames implies {
        &&& #[trigger] next.has_saved(other) == layer.has_saved(other)
        &&& next.saved_states@[next.cell_of(other)] == layer.saved_states@[layer.cell_of(other)]
    } by {
        lemma_remainders_differ(other as int, frame as int, n);
        vstd::arithmetic::div_mod::lemma_mod_bound(other as int, n);
        assert(next.saved_states@[layer.cell_of(other)] == layer.saved_states@[layer.cell_of(
            other,
        )]);
    }
    assert forall|other: Frame| other == frame - layer.rollback_history_frames - 1 implies !(
    #[trigger] next.has_saved(other)) by {
        vstd::arithmetic::div_mod::lemma_mod_sub_multiples_vanish(frame as int, n);
        assert(-n + frame == other);
    }
}

/// Without a history no past input can be replaced.
pub proof fn law_no_history<T: Config>(layer: SyncLayer<T>, player: int, frame: Frame)
    requires
        layer.rollback_history_frames == 0,
        0 <= player < layer.num_players,
        0 <= frame < layer.current_frame,
    ensures
        layer.replace_refusal(player, frame) == Some(InputReplacementError::SnapshotOutOfRetention),
{
}

/// What the game is asked to do, request by request: for each frame from `first` on, or
/// for the current one only, to save its state and to advance; but the state of `first`
/// is loaded.
pub proof fn law_schedule<T: Config>(session: ExternalSession<T>, first: Frame, frame: Frame)
    requires
        frame >= 0,
        first == NULL_FRAME || 0 <= first < frame,
    ensures
        ({
            let schedule = session.schedule(first, frame);
            let from = if first == NULL_FRAME {
                frame
            } else {
                first
            };
            &&& schedule.len() == 2 * (frame - from + 1)
            &&& first == NULL_FRAME ==> schedule[0] == session.sync_layer.save_step(frame)
            &&& first != NULL_FRAME ==> schedule[0] == (Step::<T::Input>::Load {
                cell: session.sync_layer.cell_of(first),
                frame: first,
            })
            &&& forall|g: Frame|
                from < g <= frame ==> schedule[2 * (g - from)]
                    == #[trigger] session.sync_layer.save_step(g)
            &&& forall|g: Frame|
                from <= g <= frame ==> schedule[2 * (g - from) + 1]
                    == #[trigger] session.sync_layer.advance_step(g)
        }),
{
    if first == NULL_FRAME {
        lemma_steps(session, frame as int, frame as int);
    } else {
        lemma_steps(session, first + 1, frame as int);
        let rest = session.steps(first + 1, frame as int);
        assert forall|g: Frame| first < g <= frame implies session.schedule(first, frame)[2 * (g
            - first)] == #[trigger] session.sync_layer.save_step(g) by {
            assert(rest[2 * (g - (first + 1))] == session.sync_layer.save_step(g));
        }
        assert forall|g: Frame| first <= g <= frame implies session.schedule(first, frame)[2 * (g
            - first) + 1] == #[trigger] session.sync_layer.advance_step(g) by {
            if g > first {
                assert(rest[2 * (g - (first + 1)) + 1] == session.sync_layer.advance_step(g));
            }
        }
    }
}

proof fn lemma_steps<T: Config>(session: ExternalSession<T>, from: int, to: int)
    requires
        0 <= from <= to + 1,
        to <= i32::MAX,
    ensures
        session.steps(from, to).len() == 2 * (to - from + 1),
        forall|g: Frame|
            from <= g <= to ==> session.steps(from, to)[2 * (g - from)]
                == #[trigger] session.sync_layer.save_step(g),
        forall|g: Frame|
            from <= g <= to ==> session.steps(from, to)[2 * (g - from) + 1]
                == #[trigger] session.sync_layer.advance_step(g),
    decreases to - from + 1,
{
    if from <= to {
        lemma_steps(session, from, to - 1);
        let before = session.steps(from, to - 1);
        assert forall|g: Frame| from <= g <= to implies session.steps(from, to)[2 * (g - from)]
            == #[trigger] session.sync_layer.save_step(g) by {
            if g < to {
                assert(before[2 * (g - from)] == session.sync_layer.save_step(g));
            }
        }
        assert forall|g: Frame| from <= g <= to implies session.steps(from, to)[2 * (g - from) + 1]
            == #[trigger] session.sync_layer.advance_step(g) by {
            if g < to {
                assert(before[2 * (g - from) + 1] == session.sync_layer.advance_step(g));
            }
        }
    }
}

/// A frame whose input was found to be wrong is simulated again when the session
/// advances: the game goes back to it, or further.
pub proof fn law_wrong_frame_is_replayed<T: Config>(session: ExternalSession<T>, player: int)
    requires
        session.wf(),
        0 <= player < session.sync_layer.num_players,
        session.sync_layer.queue(player).first_incorrect_frame != NULL_FRAME,
    ensures
        ({
            let layer = session.sync_layer;
            let first = layer.earliest_incorrect(layer.num_players as nat);
            &&& 0 <= first <= layer.queue(player).first_incorrect_frame
            &&& first < layer.current_frame
            &&& layer.current_frame - first <= layer.rollback_history_frames
        }),
{
    let layer = session.sync_layer;
    let first = layer.earliest_incorrect(layer.num_players as nat);
    layer.lemma_earliest_incorrect(layer.num_players as nat);
    assert(layer.queue(player).first_incorrect_frame != NULL_FRAME);
    let p = choose|p: int|
        0 <= p < layer.num_players && (#[trigger] layer.queue(p)).first_incorrect_frame == first;
    assert(in_step(layer.queue(p), layer.current_frame, layer.rollback_history_frames as nat));
}

/// As long as no input was found to be wrong, the game only saves its state and
/// advances.
pub proof fn law_nothing_to_replay<T: Config>(session: ExternalSession<T>, frame: Frame)
    requires
        forall|p: int|
            0 <= p < session.sync_layer.num_players ==> (#[trigger] session.sync_layer.queue(
                p,
            )).first_incorrect_frame == NULL_FRAME,
    ensures
        session.sync_layer.earliest_incorrect(session.sync_layer.num_players as nat) == NULL_FRAME,
        session.schedule(NULL_FRAME, frame) == seq![
            session.sync_layer.save_step(frame),
            session.sync_layer.advance_step(frame),
        ],
{
    let layer = session.sync_layer;
    layer.lemma_earliest_incorrect(layer.num_players as nat);
    assert(session.steps(frame as int, frame - 1) =~= Seq::empty());
    assert(session.schedule(NULL_FRAME, frame) =~= seq![
        session.sync_layer.save_step(frame),
        session.sync_layer.advance_step(frame),
    ]);
}

/// Once a session has advanced, no input is known to be wrong any more.
pub proof fn law_advancing_settles<T: Config>(
    layer: SyncLayer<T>,
    next: SyncLayer<T>,
    inputs: Seq<Option<T::Input>>,
)
    requires
        next.num_players == layer.num_players,
        forall|p: int|
            0 <= p < layer.num_players ==> taken_in(
                layer.queue(p),
                layer.current_frame,
                layer.rollback_history_frames as nat,
                inputs[p],
                #[trigger] next.queue(p),
            ),
    ensures
        next.earliest_incorrect(next.num_players as nat) == NULL_FRAME,
{
    next.lemma_earliest_incorrect(next.num_players as nat);
    if next.earliest_incorrect(next.num_players as nat) != NULL_FRAME {
        let p = choose|p: int|
            0 <= p < next.num_players && (#[trigger] next.queue(p)).first_incorrect_frame
                == next.earliest_incorrect(next.num_players as nat);
        assert(next.queue(p).first_incorrect_frame == NULL_FRAME);
    }
}

/// The input that was taken in for a frame is the one that is found for it, confirmed
/// if it was given and predicted if not. The inputs of all frames within the history
/// stay as they are, and no others are found.
pub proof fn law_taken_in<I: PartialEq + Default>(
    q: QueueState<I>,
    frame: Frame,
    history: nat,
    input: Option<I>,
    next: QueueState<I>,
)
    requires
        in_step(q, frame, history),
        0 <= frame < i32::MAX,
        q.entries_after(trim_limit(frame, history)).len() < INPUT_QUEUE_LENGTH,
        taken_in(q, frame, history, input, next),
    ensures
        next.lookup(frame) is Some,
        next.lookup(frame)->0.slot.revision == 0,
        next.visible(frame) == Some(
            (
                next.latest.input,
                if input is Some {
                    InputStatus::Confirmed
                } else {
                    InputStatus::Predicted
                },
            ),
        ),
        input matches Some(given) ==> next.visible(frame) == Some((given, InputStatus::Confirmed)),
        input is None ==> call_ensures(I::default, (), next.latest.input),
        forall|other: Frame|
            other != frame ==> #[trigger] next.lookup(other) == (if 0 <= other < frame && frame
                - other <= history {
                q.lookup(other)
            } else {
                None
            }),
{
    let provenance = if input is Some {
        InputProvenance::Authoritative
    } else {
        InputProvenance::Predicted
    };
    let limit = trim_limit(frame, history);
    let trimmed = q.trim(limit);
    lemma_trimmed(q, frame, history);
    law_append_reads_back(trimmed, frame, next.latest.input, provenance);
    let appended = trimmed.append(frame, next.latest.input, provenance);
    assert forall|other: Frame| next.lookup(other) == #[trigger] appended.lookup(other) by {}
    assert forall|other: Frame| other != frame implies #[trigger] next.lookup(other) == (if 0
        <= other < frame && frame - other <= history {
        q.lookup(other)
    } else {
        None
    }) by {
        assert(next.lookup(other) == appended.lookup(other));
        assert(appended.lookup(other) == trimmed.lookup(other));
        if limit >= 0 {
            law_trim(q, limit);
        }
        if other >= 0 {
            law_consecutive_frames(q, other);
        }
    }
}

/// Two queues show the game the same inputs, but perhaps for one frame.
pub open spec fn agree_but_for<I: PartialEq + Default>(
    a: QueueState<I>,
    b: QueueState<I>,
    frame: Frame,
) -> bool {
    forall|other: Frame| other != frame ==> #[trigger] a.visible(other) == b.visible(other)
}

/// Where two queues agree, and then take in different inputs for a frame, they differ
/// in that frame only.
pub proof fn law_difference_starts<I: PartialEq + Default>(
    a: QueueState<I>,
    b: QueueState<I>,
    frame: Frame,
    history: nat,
    input_a: Option<I>,
    input_b: Option<I>,
    next_a: QueueState<I>,
    next_b: QueueState<I>,
)
    requires
        in_step(a, frame, history),
        in_step(b, frame, history),
        0 <= frame < i32::MAX,
        frame < INPUT_QUEUE_LENGTH || history < INPUT_QUEUE_LENGTH,
        agree_but_for(a, b, frame),
        taken_in(a, frame, history, input_a, next_a),
        taken_in(b, frame, history, input_b, next_b),
    ensures
        agree_but_for(next_a, next_b, frame),
{
    lemma_trimmed(a, frame, history);
    lemma_trimmed(b, frame, history);
    law_taken_in(a, frame, history, input_a, next_a);
    law_taken_in(b, frame, history, input_b, next_b);
    assert forall|other: Frame| other != frame implies #[trigger] next_a.visible(other)
        == next_b.visible(other) by {
        assert(a.visible(other) == b.visible(other));
    }
}

/// As long as two queues take in the same inputs, they go on to differ in one frame
/// only.
pub proof fn law_difference_stays<I: PartialEq + Default>(
    a: QueueState<I>,
    b: QueueState<I>,
    differing: Frame,
    frame: Frame,
    history: nat,
    input: Option<I>,
    next_a: QueueState<I>,
    next_b: QueueState<I>,
)
    requires
        in_step(a, frame, history),
        in_step(b, frame, history),
        0 <= frame < i32::MAX,
        frame < INPUT_QUEUE_LENGTH || history < INPUT_QUEUE_LENGTH,
        agree_but_for(a, b, differing),
        taken_in(a, frame, history, input, next_a),
        taken_in(b, frame, history, input, next_b),
        next_a.latest.input == next_b.latest.input,
    ensures
        agree_but_for(next_a, next_b, differing),
{
    lemma_trimmed(a, frame, history);
    lemma_trimmed(b, frame, history);
    law_taken_in(a, frame, history, input, next_a);
    law_taken_in(b, frame, history, input, next_b);
    assert forall|other: Frame| other != differing implies #[trigger] next_a.visible(other)
        == next_b.visible(other) by {
        if other != frame {
            assert(a.visible(other) == b.visible(other));
        }
    }
}

/// Replacing the input of the frame in which a queue differs from another one, by the
/// input that was given to the other one, makes them agree in all frames: from then on
/// the game cannot tell them apart.
pub proof fn law_replacement_mends<I: PartialEq + Default>(
    a: QueueState<I>,
    b: QueueState<I>,
    frame: Frame,
    expected: VersionedInput<I>,
    input: I,
)
    requires
        a.valid(),
        agree_but_for(a, b, frame),
        b.visible(frame) == Some((input, InputStatus::Confirmed)),
        a.replace_verdict(frame, expected, input) == Ok::<_, InputReplacementError>(
            InputReplacementResult::Replaced,
        ),
    ensures
        forall|other: Frame| #[trigger]
            a.replace(frame, expected, input).visible(other) == b.visible(other),
{
    law_replace_reads_back(a, frame, expected, input);
    assert forall|other: Frame| #[trigger]
        a.replace(frame, expected, input).visible(other) == b.visible(other) by {
        if other != frame {
            assert(a.replace(frame, expected, input).lookup(other) == a.lookup(other));
            assert(a.visible(other) == b.visible(other));
        }
    }
}

/// With a history that the queues are long enough for, inputs can always be taken in.
pub proof fn law_history_fits<T: Config>(layer: SyncLayer<T>)
    requires
        layer.rollback_history_frames <= MAX_ROLLBACK_HISTORY_FRAMES,
    ensures
        layer.has_room(),
{
}

/// After a replacement, the game is given the new input for that frame, as a confirmed
/// one, just as if it had been given in the first place. The inputs of all other frames
/// and players stay as they are.
pub proof fn law_replaced_input_is_used<T: Config>(
    layer: SyncLayer<T>,
    next: SyncLayer<T>,
    player: int,
    frame: Frame,
    expected: VersionedInput<T::Input>,
    input: T::Input,
)
    requires
        layer.wf(),
        next.num_players == layer.num_players,
        0 <= player < layer.num_players,
        layer.queue(player).replace_verdict(frame, expected, input) == Ok::<
            _,
            InputReplacementError,
        >(InputReplacementResult::Replaced),
        next.queue(player) == layer.queue(player).replace(frame, expected, input),
        forall|p: int|
            0 <= p < layer.num_players && p != player ==> #[trigger] next.queue(p) == layer.queue(p),
    ensures
        next.inputs_at(frame) == layer.inputs_at(frame).update(
            player,
            (input, InputStatus::Confirmed),
        ),
        forall|other: Frame|
            other != frame ==> #[trigger] next.inputs_at(other) == layer.inputs_at(other),
{
    assert(layer.input_queues@[player].wf());
    law_replace_reads_back(layer.queue(player), frame, expected, input);
    assert(next.inputs_at(frame) =~= layer.inputs_at(frame).update(
        player,
        (input, InputStatus::Confirmed),
    ));
    assert forall|other: Frame| other != frame implies #[trigger] next.inputs_at(other)
        == layer.inputs_at(other) by {
        assert(next.queue(player).lookup(other) == layer.queue(player).lookup(other));
        assert(next.inputs_at(other) =~= layer.inputs_at(other));
    }
}

} // verus!
