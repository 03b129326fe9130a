//! What the calls of a session do, told by nothing but the cells and marks of its queues,
//! the saved states and the arguments.

use vstd::prelude::*;
use vstd::std_specs::cmp::PartialEqSpec;
use crate::config::{Config, Frame, InputStatus, NULL_FRAME};
use crate::frame_info::PlayerInput;
use crate::input_queue::INPUT_QUEUE_LENGTH;
use crate::queue_effects::{law_append_effect, law_cells, law_trim_effect};
use crate::queue_laws::law_lookup;
use crate::queue_model::{lemma_filter_suffix, QueueEntry, QueueState};
use crate::requests::{steps_of, GameStateCell, GgrsRequest, Step};
use crate::sessions::external_input::{
    answer_of, reported_state, ExternalInputReplacement, ExternalInputReplacementError,
    ExternalInputState, ExternalInputStateError,
};
use crate::sessions::external_session::ExternalSession;
use crate::sessions::session_laws::{law_schedule, law_taken_in};
use crate::sync_layer::{in_step, lemma_trimmed, taken_in, trim_limit, SyncLayer};
use crate::versioned_input::{
    InputProvenance, InputReplacementError, InputReplacementResult, VersionedInput,
};

verus! {

/// The game state of a frame has its place in a ring that is one longer than the history.
/// It is saved if that place holds it, and the request to save it names the place.
pub proof fn law_saved<T: Config>(layer: SyncLayer<T>, frame: Frame)
    requires
        layer.wf(),
        frame >= 0,
    ensures
        0 <= layer.cell_of(frame) < layer.saved_states@.len(),
        layer.cell_of(frame) == frame as int % (layer.rollback_history_frames + 1),
        layer.has_saved(frame) <==> layer.saved_states@[frame as int % (
        layer.rollback_history_frames + 1)].frame == frame,
        layer.save_step(frame) == (Step::<T::Input>::Save {
            cell: frame as int % (layer.rollback_history_frames + 1),
            frame,
        }),
        layer.has_saved(frame) ==> exists|i: int|
            0 <= i < layer.saved_states@.len() && (#[trigger] layer.saved_states@[i]).frame
                == frame,
{
    let n = layer.saved_states@.len() as int;
    vstd::arithmetic::div_mod::lemma_mod_bound(frame as int, n);
    if layer.has_saved(frame) {
        assert(layer.saved_states@[layer.cell_of(frame)].frame == frame);
    }
}

/// The request to advance by a frame has the inputs of all players, by handle: for each
/// the one in the cell that is found for the frame, as predicted exactly if it came from
/// no one.
pub proof fn law_synchronized_inputs<T: Config>(layer: SyncLayer<T>, frame: Frame)
    requires
        forall|p: int|
            0 <= p < layer.num_players ==> (#[trigger] layer.queue(p)).lookup(frame) is Some,
    ensures
        layer.inputs_at(frame).len() == layer.num_players,
        forall|p: int|
            0 <= p < layer.num_players ==> {
                let slot = layer.queue(p).lookup(frame)->0.slot;
                #[trigger] layer.inputs_at(frame)[p] == (
                    slot.input,
                    if slot.provenance == InputProvenance::Predicted {
                        InputStatus::Predicted
                    } else {
                        InputStatus::Confirmed
                    },
                )
            },
        layer.advance_step(frame) == (Step::<T::Input>::Advance { inputs: layer.inputs_at(frame) }),
{
    assert forall|p: int| 0 <= p < layer.num_players implies {
        let slot = layer.queue(p).lookup(frame)->0.slot;
        #[trigger] layer.inputs_at(frame)[p] == (
            slot.input,
            if slot.provenance == InputProvenance::Predicted {
                InputStatus::Predicted
            } else {
                InputStatus::Confirmed
            },
        )
    } by {
        assert(layer.queue(p).lookup(frame) is Some);
    }
}

/// Why the input of a player for a frame cannot be replaced at all. The snapshot is to
/// blame exactly if the frame lies further back than the history, or its state is not
/// saved; an existing player's input of any other past frame is left to the queue.
pub proof fn law_refusal<T: Config>(layer: SyncLayer<T>, player: int, frame: Frame)
    requires
        layer.wf(),
        player >= 0,
    ensures
        ({
            let back = layer.current_frame - frame;
            let saved = layer.saved_states@[frame as int % (layer.rollback_history_frames
                + 1)].frame == frame;
            let refusal = layer.replace_refusal(player, frame);
            &&& refusal is None <==> player < layer.num_players && frame >= 0 && 1 <= back
                <= layer.rollback_history_frames && saved
            &&& refusal == Some(InputReplacementError::InvalidHandle) <==> player
                >= layer.num_players
            &&& refusal == Some(InputReplacementError::InvalidFrame) <==> player
                < layer.num_players && frame < 0
            &&& refusal == Some(InputReplacementError::NotPast) <==> player < layer.num_players
                && frame >= 0 && back < 1
            &&& refusal == Some(InputReplacementError::SnapshotOutOfRetention) <==> player
                < layer.num_players && frame >= 0 && back >= 1 && (back
                > layer.rollback_history_frames || !saved)
        }),
{
}

/// What a queue holds while its session is in step: the inputs of the frames before the
/// current one, as far back as the history goes, and one more.
pub proof fn law_in_step<I: PartialEq + Default>(q: QueueState<I>, frame: Frame, history: nat)
    requires
        in_step(q, frame, history),
        frame >= 0,
    ensures
        q.entries.len() == if frame <= history {
            frame as nat
        } else {
            history + 1
        },
        q.last_added_frame == frame - 1,
        forall|i: int|
            0 <= i < q.entries.len() ==> {
                &&& (#[trigger] q.entries[i]).frame == frame - q.entries.len() + i
                &&& q.lookup(q.entries[i].frame) == Some(q.entries[i])
            },
        q.prediction.frame == NULL_FRAME,
        q.first_incorrect_frame != NULL_FRAME ==> 0 <= q.first_incorrect_frame < frame && frame
            - q.first_incorrect_frame <= history,
{
    law_cells(q);
    assert forall|i: int| 0 <= i < q.entries.len() implies {
        &&& (#[trigger] q.entries[i]).frame == frame - q.entries.len() + i
        &&& q.lookup(q.entries[i].frame) == Some(q.entries[i])
    } by {
        law_lookup(q, q.entries[i].frame);
    }
}

/// A past frame within the history, whose state is saved, can be corrected: the queue of
/// an existing player has a cell for it. If that cell is as expected, does not hold the
/// new input from its player yet and can be revised, the input is replaced.
pub proof fn law_history_can_be_corrected<T: Config>(
    layer: SyncLayer<T>,
    player: int,
    frame: Frame,
    expected: VersionedInput<T::Input>,
    input: T::Input,
)
    requires
        layer.wf(),
        layer.in_step(),
        0 <= player < layer.num_players,
        frame >= 0,
        1 <= layer.current_frame - frame <= layer.rollback_history_frames,
        layer.saved_states@[frame as int % (layer.rollback_history_frames + 1)].frame == frame,
    ensures
        layer.replace_refusal(player, frame) is None,
        ({
            let q = layer.queue(player);
            let i = frame - layer.current_frame + q.entries.len();
            let slot = q.entries[i].slot;
            &&& 0 <= i < q.entries.len()
            &&& q.entries[i].frame == frame
            &&& q.lookup(frame) == Some(q.entries[i])
            &&& slot.input.eq_spec(&expected.input) && slot.provenance == expected.provenance
                && slot.revision == expected.revision && slot.revision < u64::MAX && !(
            slot.input.eq_spec(&input) && slot.provenance == InputProvenance::Authoritative)
                ==> q.replace_verdict(frame, expected, input) == Ok::<_, InputReplacementError>(
                InputReplacementResult::Replaced,
            )
        }),
{
    let q = layer.queue(player);
    let history = layer.rollback_history_frames as nat;
    assert(in_step(q, layer.current_frame, history));
    law_in_step(q, layer.current_frame, history);
    law_cells(q);
    let i = frame - layer.current_frame + q.entries.len();
    assert(q.entries[i].frame == frame);
}

/// A replacement that changes the input of a frame makes the session go back to that
/// frame, or to an earlier one that is wrong, when it advances next. One that only
/// confirms the input changes nothing about where it goes back to.
#[verifier::spinoff_prover]
#[verifier::rlimit(40)]
pub proof fn law_replacement_is_replayed<T: Config>(
    layer: SyncLayer<T>,
    next: SyncLayer<T>,
    player: int,
    frame: Frame,
    expected: VersionedInput<T::Input>,
    input: T::Input,
)
    requires
        layer.wf(),
        layer.in_step(),
        next.num_players == layer.num_players,
        0 <= player < layer.num_players,
        0 <= frame < layer.current_frame,
        layer.current_frame - frame <= layer.rollback_history_frames,
        layer.queue(player).replace_answer(
            frame,
            expected,
            input,
            Ok(InputReplacementResult::Replaced),
            next.queue(player),
        ),
        <T::Input as PartialEqSpec>::obeys_eq_spec(),
        forall|p: int|
            0 <= p < layer.num_players && p != player ==> #[trigger] next.queue(p) == layer.queue(p),
    ensures
        ({
            let q = layer.queue(player);
            let i = frame - layer.current_frame + q.entries.len();
            let n = layer.num_players as nat;
            next.earliest_incorrect(n) == (if q.entries[i].slot.input.eq_spec(&input) || (
            layer.earliest_incorrect(n) != NULL_FRAME && layer.earliest_incorrect(n) <= frame) {
                layer.earliest_incorrect(n)
            } else {
                frame
            })
        }),
{
    let q = layer.queue(player);
    let history = layer.rollback_history_frames as nat;
    let n = layer.num_players as nat;
    assert(in_step(q, layer.current_frame, history));
    law_in_step(q, layer.current_frame, history);
    let i = frame - layer.current_frame + q.entries.len();
    assert(q.entries[i].frame == frame);
    assert(next.queue(player) == q.replace(frame, expected, input));
    assert(q.entries[q.index_of(frame as int)] == q.entries[i]);
    layer.lemma_earliest_incorrect(n);
    next.lemma_earliest_incorrect(n);
    assert forall|p: int| 0 <= p < n implies in_step(
        #[trigger] layer.queue(p),
        layer.current_frame,
        history,
    ) by {}
    let old_first = layer.earliest_incorrect(n);
    let new_first = next.earliest_incorrect(n);
    let own = next.queue(player).first_incorrect_frame;
    assert(layer.queue(player).first_incorrect_frame == q.first_incorrect_frame);
    if old_first != NULL_FRAME {
        let p = choose|p: int|
            0 <= p < n && (#[trigger] layer.queue(p)).first_incorrect_frame == old_first;
        assert(next.queue(p).first_incorrect_frame == NULL_FRAME ==> false);
        assert(new_first <= next.queue(p).first_incorrect_frame);
    }
    if new_first != NULL_FRAME {
        let p = choose|p: int|
            0 <= p < n && (#[trigger] next.queue(p)).first_incorrect_frame == new_first;
        assert(p != player ==> layer.queue(p).first_incorrect_frame == new_first);
    }
}

/// The last frame that is not needed any more: the frames after it are exactly those to
/// which the session can still go back.
pub proof fn law_trim_limit(frame: Frame, history: nat, other: Frame)
    requires
        0 <= other < frame,
    ensures
        other > trim_limit(frame, history) <==> frame - other <= history,
        trim_limit(frame, history) >= NULL_FRAME,
{
}

/// Inputs can be taken in as long as each queue, without the frames to which the session
/// cannot go back any more, has room for one more.
#[verifier::spinoff_prover]
#[verifier::rlimit(40)]
pub proof fn law_room<T: Config>(layer: SyncLayer<T>)
    requires
        layer.wf(),
        layer.in_step(),
    ensures
        layer.has_room() <==> layer.num_players == 0 || layer.current_frame < INPUT_QUEUE_LENGTH
            || layer.rollback_history_frames < INPUT_QUEUE_LENGTH,
        layer.has_room() <==> forall|p: int|
            0 <= p < layer.num_players ==> (#[trigger] layer.queue(p)).entries.filter(
                |entry: QueueEntry<T::Input>| layer.current_frame - entry.frame
                    <= layer.rollback_history_frames,
            ).len() < INPUT_QUEUE_LENGTH,
{
    let history = layer.rollback_history_frames as nat;
    let near = |entry: QueueEntry<T::Input>|
        layer.current_frame - entry.frame <= layer.rollback_history_frames;
    assert forall|p: int| 0 <= p < layer.num_players implies (#[trigger] layer.queue(
        p,
    )).entries.filter(near).len() == if layer.current_frame <= history {
        layer.current_frame as nat
    } else {
        history
    } by {
        let q = layer.queue(p);
        assert(in_step(q, layer.current_frame, history));
        law_in_step(q, layer.current_frame, history);
        let k: int = if layer.current_frame <= history {
            0
        } else {
            1
        };
        assert forall|i: int| 0 <= i < q.entries.len() implies (near(#[trigger] q.entries[i])
            <==> k <= i) by {}
        lemma_filter_suffix(q.entries, near, k);
    }
    if layer.num_players > 0 {
        assert(layer.queue(0).entries.filter(near).len() <= layer.queue(0).entries.len());
    }
}

/// What taking in the input of a frame does to a queue. The cell that lies further back
/// than the history, if there is one, is given up. A cell for the frame is added behind
/// all others, never revised: as from the player if there is an input, and as predicted
/// with the default one if not. No frame is known to be wrong any more. Nothing else
/// changes.
pub proof fn law_taken_in_effect<I: PartialEq + Default>(
    q: QueueState<I>,
    frame: Frame,
    history: nat,
    input: Option<I>,
    next: QueueState<I>,
)
    requires
        in_step(q, frame, history),
        0 <= frame < i32::MAX,
        frame < INPUT_QUEUE_LENGTH || history < INPUT_QUEUE_LENGTH,
        taken_in(q, frame, history, input, next),
    ensures
        ({
            let k: int = if frame <= history {
                0
            } else {
                1
            };
            let used = next.latest.input;
            &&& match input {
                Some(given) => used == given,
                None => call_ensures(I::default, (), used),
            }
            &&& next == (QueueState {
                entries: q.entries.skip(k).push(
                    QueueEntry {
                        frame,
                        input: used,
                        slot: VersionedInput {
                            input: used,
                            provenance: if input is Some {
                                InputProvenance::Authoritative
                            } else {
                                InputProvenance::Predicted
                            },
                            revision: 0,
                        },
                        transition: None,
                    },
                ),
                head: (q.head + 1) % (INPUT_QUEUE_LENGTH as int),
                latest: PlayerInput { frame, input: used },
                first_frame: false,
                last_added_frame: frame,
                first_incorrect_frame: NULL_FRAME,
                last_requested_frame: NULL_FRAME,
                ..q
            })
        }),
{
    law_in_step(q, frame, history);
    law_cells(q);
    let limit = trim_limit(frame, history);
    let k = law_trim_effect(q, limit);
    let provenance = if input is Some {
        InputProvenance::Authoritative
    } else {
        InputProvenance::Predicted
    };
    law_append_effect(q.trim(limit), frame, next.latest.input, provenance);
    if history < frame {
        assert(q.entries[0].frame == limit);
        if k > 1 {
            assert(q.entries[1].frame > limit);
        }
    }
}

/// Taking in the input of a frame does not change what the game is shown for the frames
/// of the history.
pub proof fn law_history_is_shown_unchanged<I: PartialEq + Default>(
    q: QueueState<I>,
    frame: Frame,
    history: nat,
    input: Option<I>,
    next: QueueState<I>,
    other: Frame,
)
    requires
        in_step(q, frame, history),
        0 <= frame < i32::MAX,
        frame < INPUT_QUEUE_LENGTH || history < INPUT_QUEUE_LENGTH,
        taken_in(q, frame, history, input, next),
        0 <= other < frame,
        frame - other <= history,
    ensures
        next.visible(other) == q.visible(other),
        ({
            let entry = q.entries[other - frame + q.entries.len()];
            &&& entry.frame == other
            &&& next.visible(other) == Some(
                (
                    entry.slot.input,
                    if entry.slot.provenance == InputProvenance::Predicted {
                        InputStatus::Predicted
                    } else {
                        InputStatus::Confirmed
                    },
                ),
            )
        }),
{
    lemma_trimmed(q, frame, history);
    law_taken_in(q, frame, history, input, next);
    law_in_step(q, frame, history);
    let i = other - frame + q.entries.len();
    assert(q.entries[i].frame == other);
    assert(next.lookup(other) == q.lookup(other));
}

/// The order of the requests, by their positions.
proof fn lemma_order<T: Config>(session: ExternalSession<T>, first: Frame, frame: Frame)
    requires
        session.sync_layer.wf(),
        frame >= 0,
        first == NULL_FRAME || 0 <= first < frame,
    ensures
        ({
            let ring = session.sync_layer.rollback_history_frames + 1;
            let requests = session.schedule(first, frame);
            let from = if first == NULL_FRAME {
                frame
            } else {
                first
            };
            &&& requests.len() == 2 * (frame - from + 1)
            &&& requests[0] == (if first == NULL_FRAME {
                Step::<T::Input>::Save { cell: frame as int % ring, frame }
            } else {
                Step::<T::Input>::Load { cell: first as int % ring, frame: first }
            })
            &&& forall|k: int|
                0 < k < requests.len() && k % 2 == 0 ==> #[trigger] requests[k] == (Step::<
                    T::Input,
                >::Save { cell: (from + k / 2) % ring, frame: (from + k / 2) as Frame })
            &&& forall|k: int|
                0 < k < requests.len() && k % 2 == 1 ==> #[trigger] requests[k] == (Step::<
                    T::Input,
                >::Advance { inputs: session.sync_layer.inputs_at((from + k / 2) as Frame) })
        }),
{
    let requests = session.schedule(first, frame);
    let from = if first == NULL_FRAME {
        frame
    } else {
        first
    };
    let ring = session.sync_layer.rollback_history_frames + 1;
    law_schedule(session, first, frame);
    assert forall|k: int| 0 < k < requests.len() && k % 2 == 0 implies #[trigger] requests[k] == (
    Step::<T::Input>::Save { cell: (from + k / 2) % ring, frame: (from + k / 2) as Frame }) by {
        let g = (from + k / 2) as Frame;
        assert(2 * (g - from) == k);
        assert(requests[2 * (g - from)] == session.sync_layer.save_step(g));
    }
    assert forall|k: int| 0 < k < requests.len() && k % 2 == 1 implies #[trigger] requests[k] == (
    Step::<T::Input>::Advance { inputs: session.sync_layer.inputs_at((from + k / 2) as Frame) })
        by {
        let g = (from + k / 2) as Frame;
        assert(2 * (g - from) + 1 == k);
        assert(requests[2 * (g - from) + 1] == session.sync_layer.advance_step(g));
    }
}

/// What the game is shown for the frame that was taken in.
proof fn lemma_current_shown<I: PartialEq + Default>(
    q: QueueState<I>,
    frame: Frame,
    history: nat,
    input: Option<I>,
    next: QueueState<I>,
)
    requires
        in_step(q, frame, history),
        0 <= frame < i32::MAX,
        frame < INPUT_QUEUE_LENGTH || history < INPUT_QUEUE_LENGTH,
        taken_in(q, frame, history, input, next),
    ensures
        match input {
            Some(given) => next.visible(frame)->0 == (given, InputStatus::Confirmed),
            None => {
                let shown = next.visible(frame)->0;
                shown.1 == InputStatus::Predicted && call_ensures(I::default, (), shown.0)
            },
        },
{
    lemma_trimmed(q, frame, history);
    law_taken_in(q, frame, history, input, next);
}

/// What the game is asked to do when a session advances, request by request. If a frame
/// was wrong, its state is loaded; else the current one is saved. Then every frame from
/// there on is simulated, and the state before it saved, except for the one that was
/// loaded. A past frame is simulated with the inputs in its cells, and those that no one
/// gave are predicted ones, however far back they lie. The current frame is simulated
/// with the inputs that were given, as confirmed, and the default as predicted where
/// there is none.
#[verifier::spinoff_prover]
#[verifier::rlimit(40)]
pub proof fn law_requests<T: Config>(
    before: ExternalSession<T>,
    after: ExternalSession<T>,
    inputs: Seq<Option<T::Input>>,
    first: Frame,
)
    requires
        before.wf(),
        before.sync_layer.current_frame < i32::MAX,
        before.sync_layer.num_players == 0 || before.sync_layer.current_frame < INPUT_QUEUE_LENGTH
            || before.sync_layer.rollback_history_frames < INPUT_QUEUE_LENGTH,
        inputs.len() == before.sync_layer.num_players,
        after.sync_layer == (SyncLayer {
            current_frame: (before.sync_layer.current_frame + 1) as Frame,
            input_queues: after.sync_layer.input_queues,
            ..before.sync_layer
        }),
        forall|p: int|
            0 <= p < before.sync_layer.num_players ==> taken_in(
                before.sync_layer.queue(p),
                before.sync_layer.current_frame,
                before.sync_layer.rollback_history_frames as nat,
                inputs[p],
                #[trigger] after.sync_layer.queue(p),
            ),
        first == NULL_FRAME || (0 <= first < before.sync_layer.current_frame
            && before.sync_layer.current_frame - first
            <= before.sync_layer.rollback_history_frames),
        after.sync_layer.wf(),
    ensures
        ({
            let frame = before.sync_layer.current_frame;
            let ring = before.sync_layer.rollback_history_frames + 1;
            let players = before.sync_layer.num_players;
            let requests = after.schedule(first, frame);
            let from = if first == NULL_FRAME {
                frame
            } else {
                first
            };
            &&& requests.len() == 2 * (frame - from + 1)
            &&& requests[0] == (if first == NULL_FRAME {
                Step::<T::Input>::Save { cell: frame as int % ring, frame }
            } else {
                Step::<T::Input>::Load { cell: first as int % ring, frame: first }
            })
            &&& forall|k: int|
                0 < k < requests.len() && k % 2 == 0 ==> #[trigger] requests[k] == (Step::<
                    T::Input,
                >::Save { cell: (from + k / 2) % ring, frame: (from + k / 2) as Frame })
            &&& forall|k: int|
                0 < k < requests.len() && k % 2 == 1 ==> (#[trigger] requests[k]) is Advance
                    && requests[k]->inputs.len() == players
            &&& forall|k: int, p: int|
                0 < k < requests.len() - 1 && k % 2 == 1 && 0 <= p < players ==> {
                    let q = before.sync_layer.queue(p);
                    let entry = q.entries[from + k / 2 - frame + q.entries.len()];
                    &&& entry.frame == from + k / 2
                    &&& #[trigger] requests[k]->inputs[p] == (
                        entry.slot.input,
                        if entry.slot.provenance == InputProvenance::Predicted {
                            InputStatus::Predicted
                        } else {
                            InputStatus::Confirmed
                        },
                    )
                }
            &&& forall|p: int|
                0 <= p < players ==> {
                    let shown = #[trigger] requests[requests.len() - 1]->inputs[p];
                    match inputs[p] {
                        Some(given) => shown == (given, InputStatus::Confirmed),
                        None => shown.1 == InputStatus::Predicted && call_ensures(
                            <T::Input as Default>::default,
                            (),
                            shown.0,
                        ),
                    }
                }
        }),
{
    let frame = before.sync_layer.current_frame;
    let history = before.sync_layer.rollback_history_frames as nat;
    let ring = history + 1;
    let players = before.sync_layer.num_players;
    let requests = after.schedule(first, frame);
    let from = if first == NULL_FRAME {
        frame
    } else {
        first
    };
    let layer = after.sync_layer;
    lemma_order(after, first, frame);
    assert forall|k: int, p: int|
        0 < k < requests.len() - 1 && k % 2 == 1 && 0 <= p < players implies {
        let q = before.sync_layer.queue(p);
        let entry = q.entries[from + k / 2 - frame + q.entries.len()];
        &&& entry.frame == from + k / 2
        &&& #[trigger] requests[k]->inputs[p] == (
            entry.slot.input,
            if entry.slot.provenance == InputProvenance::Predicted {
                InputStatus::Predicted
            } else {
                InputStatus::Confirmed
            },
        )
    } by {
        let g = (from + k / 2) as Frame;
        assert(requests[k] == (Step::<T::Input>::Advance { inputs: layer.inputs_at(g) }));
        let q = before.sync_layer.queue(p);
        assert(in_step(q, frame, history));
        law_history_is_shown_unchanged(q, frame, history, inputs[p], layer.queue(p), g);
    }
    let last = requests.len() - 1;
    assert(requests[last] == (Step::<T::Input>::Advance { inputs: layer.inputs_at(frame) }));
    assert forall|p: int| 0 <= p < players implies {
        let shown = #[trigger] requests[last]->inputs[p];
        match inputs[p] {
            Some(given) => shown == (given, InputStatus::Confirmed),
            None => shown.1 == InputStatus::Predicted && call_ensures(
                <T::Input as Default>::default,
                (),
                shown.0,
            ),
        }
    } by {
        let q = before.sync_layer.queue(p);
        assert(in_step(q, frame, history));
        lemma_current_shown(q, frame, history, inputs[p], layer.queue(p));
    }
}

/// The picture of a request tells all of it, and the one of a list tells all its
/// requests, in order.
pub proof fn law_request_pictures<T: Config>(
    requests: Seq<GgrsRequest<T>>,
    cell: GameStateCell,
    frame: Frame,
    inputs: Vec<(T::Input, InputStatus)>,
)
    ensures
        (GgrsRequest::<T>::SaveGameState { cell, frame })@ == (Step::<T::Input>::Save {
            cell: cell.index as int,
            frame,
        }),
        (GgrsRequest::<T>::LoadGameState { cell, frame })@ == (Step::<T::Input>::Load {
            cell: cell.index as int,
            frame,
        }),
        (GgrsRequest::<T>::AdvanceFrame { inputs })@ == (Step::<T::Input>::Advance {
            inputs: inputs@,
        }),
        steps_of(requests).len() == requests.len(),
        forall|i: int| 0 <= i < requests.len() ==> #[trigger] steps_of(requests)[i] == requests[i]@,
{
}

/// What is said of the input of a player for a frame: what stands in the cell with that
/// frame, or why there is none.
pub proof fn law_input_answer<T: Config>(session: ExternalSession<T>, player: int, frame: Frame)
    requires
        session.wf(),
        player >= 0,
    ensures
        ({
            let answer = session.input_answer(player, frame);
            let frame_now = session.sync_layer.current_frame;
            let q = session.sync_layer.queue(player);
            let held = 0 <= frame < frame_now && frame_now - frame
                <= session.sync_layer.rollback_history_frames + 1;
            &&& answer == Err::<ExternalInputState<T::Input>, _>(
                ExternalInputStateError::InvalidHandle,
            ) <==> player >= session.sync_layer.num_players
            &&& answer == Err::<ExternalInputState<T::Input>, _>(
                ExternalInputStateError::InvalidFrame,
            ) <==> player < session.sync_layer.num_players && frame < 0
            &&& answer == Err::<ExternalInputState<T::Input>, _>(
                ExternalInputStateError::Unavailable,
            ) <==> player < session.sync_layer.num_players && frame >= 0 && !held
            &&& player < session.sync_layer.num_players && held ==> {
                let entry = q.entries[frame - frame_now + q.entries.len()];
                &&& entry.frame == frame
                &&& answer == Ok::<_, ExternalInputStateError>(
                    ExternalInputState { slot: entry.slot },
                )
            }
        }),
{
    if player < session.sync_layer.num_players && frame >= 0 {
        let q = session.sync_layer.queue(player);
        let history = session.sync_layer.rollback_history_frames as nat;
        let frame_now = session.sync_layer.current_frame;
        assert(in_step(q, frame_now, history));
        law_in_step(q, frame_now, history);
        law_lookup(q, frame);
        let i = frame - frame_now + q.entries.len();
        if 0 <= i < q.entries.len() {
            assert(q.entries[i].frame == frame);
        }
        if q.holds(frame) {
            assert(q.entries[q.index_of(frame as int)].frame == frame);
        }
    }
}

/// Each error of a session stands for the cause of the same kind, and no two for the
/// same one. An accepted replacement is told apart from a retry, and both tell the state
/// that they carry.
pub proof fn law_answers<I>(
    error: ExternalInputReplacementError,
    state: ExternalInputState<I>,
)
    ensures
        error.cause() == InputReplacementError::InvalidHandle <==> error
            == ExternalInputReplacementError::InvalidHandle,
        error.cause() == InputReplacementError::InvalidFrame <==> error
            == ExternalInputReplacementError::InvalidFrame,
        error.cause() == InputReplacementError::NotPast <==> error
            == ExternalInputReplacementError::NotPast,
        error.cause() == InputReplacementError::Finalized <==> error
            == ExternalInputReplacementError::Finalized,
        error.cause() == InputReplacementError::SnapshotOutOfRetention <==> error
            == ExternalInputReplacementError::SnapshotUnavailable,
        error.cause() == InputReplacementError::OutOfRetention <==> error
            == ExternalInputReplacementError::InputUnavailable,
        error.cause() == InputReplacementError::ExpectedStateMismatch <==> error
            == ExternalInputReplacementError::ExpectedStateMismatch,
        error.cause() == InputReplacementError::Conflict <==> error
            == ExternalInputReplacementError::Conflict,
        error.cause() == InputReplacementError::RevisionOverflow <==> error
            == ExternalInputReplacementError::RevisionOverflow,
        answer_of(Err::<ExternalInputReplacement<I>, _>(error)) == Err::<
            InputReplacementResult,
            _,
        >(error.cause()),
        answer_of(
            Ok::<_, ExternalInputReplacementError>(ExternalInputReplacement::Replaced(state)),
        ) == Ok::<_, InputReplacementError>(InputReplacementResult::Replaced),
        answer_of(
            Ok::<_, ExternalInputReplacementError>(ExternalInputReplacement::RetryNoOp(state)),
        ) == Ok::<_, InputReplacementError>(InputReplacementResult::RetryNoOp),
        reported_state(ExternalInputReplacement::Replaced(state)) == state.slot,
        reported_state(ExternalInputReplacement::RetryNoOp(state)) == state.slot,
{
}

} // verus!
