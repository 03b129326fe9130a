//! The input queue of a single player.

use ggrs::config::{Config, Frame, InputStatus, PredictRepeatLast, NULL_FRAME};
use ggrs::frame_info::PlayerInput;
use ggrs::input_queue::{InputQueue, INPUT_QUEUE_LENGTH};
use ggrs::versioned_input::{
    InputProvenance, InputReplacementError, InputReplacementResult, VersionedInput,
};

#[derive(Debug, Copy, Clone, PartialEq, Default)]
struct TestInput {
    inp: u8,
}

struct TestConfig;

impl Config for TestConfig {
    type Input = TestInput;
    type InputPredictor = PredictRepeatLast;
    type State = Vec<u8>;
    type Address = ();
}

#[test]
fn test_add_input_wrong_frame() {
    let mut queue = InputQueue::<TestConfig>::new();
    let input = PlayerInput::new(0, TestInput { inp: 0 });
    assert_eq!(queue.add_input(input), 0); // fine
    let input_wrong_frame = PlayerInput::new(3, TestInput { inp: 0 });
    assert_eq!(queue.add_input(input_wrong_frame), NULL_FRAME); // input dropped
}

#[test]
fn test_add_input_twice() {
    let mut queue = InputQueue::<TestConfig>::new();
    let input = PlayerInput::new(0, TestInput { inp: 0 });
    assert_eq!(queue.add_input(input), 0); // fine
    assert_eq!(queue.add_input(input), NULL_FRAME); // input dropped
}

#[test]
fn test_add_input_sequentially() {
    let mut queue = InputQueue::<TestConfig>::new();
    for i in 0..10 {
        let input = PlayerInput::new(i, TestInput { inp: 0 });
        queue.add_input(input);
        assert_eq!(queue.last_added_frame, i);
        assert_eq!(queue.length, (i + 1) as usize);
    }
}

#[test]
fn test_input_sequentially() {
    let mut queue = InputQueue::<TestConfig>::new();
    for i in 0..10 {
        let input = PlayerInput::new(i, TestInput { inp: i as u8 });
        queue.add_input(input);
        assert_eq!(queue.last_added_frame, i);
        assert_eq!(queue.length, (i + 1) as usize);
        let (input_in_queue, _status) = queue.input(i);
        assert_eq!(input_in_queue.inp, i as u8);
    }
}

#[test]
fn test_delayed_inputs() {
    let mut queue = InputQueue::<TestConfig>::new();
    let delay: i32 = 2;
    queue.set_frame_delay(delay as usize);
    for i in 0..10 {
        let input = PlayerInput::new(i, TestInput { inp: i as u8 });
        queue.add_input(input);
        assert_eq!(queue.last_added_frame, i + delay);
        assert_eq!(queue.length, (i + delay + 1) as usize);
        let (input_in_queue, _status) = queue.input(i);
        let correct_input = std::cmp::max(0, i - delay) as u8;
        assert_eq!(input_in_queue.inp, correct_input);
    }
}

#[test]
fn test_prediction_returned_for_missing_frame() {
    let mut queue = InputQueue::<TestConfig>::new();
    let input = PlayerInput::new(0, TestInput { inp: 42 });
    queue.add_input(input);
    // frame 1 has not been added yet — should get a prediction
    let (_inp, status) = queue.input(1);
    assert_eq!(status, InputStatus::Predicted);
}

#[test]
fn test_prediction_repeats_last_input() {
    let mut queue = InputQueue::<TestConfig>::new();
    let input = PlayerInput::new(0, TestInput { inp: 77 });
    queue.add_input(input);
    // prediction should repeat the last real input
    let (predicted, _status) = queue.input(1);
    assert_eq!(predicted.inp, 77);
}

#[test]
fn shared_append_preserves_sequential_submission_and_prediction_mismatch() {
    let mut queue = InputQueue::<TestConfig>::new();
    assert_eq!(
        queue.add_input(PlayerInput::new(0, TestInput { inp: 5 })),
        0
    );
    assert_eq!(queue.input(1).0.inp, 5);
    assert_eq!(
        queue.add_input(PlayerInput::new(2, TestInput { inp: 99 })),
        NULL_FRAME
    );
    assert_eq!(
        queue.add_input(PlayerInput::new(1, TestInput { inp: 99 })),
        1
    );
    assert_eq!(queue.first_incorrect_frame(), 1);
}

#[test]
fn full_queue_requires_trim_before_shared_append() {
    let mut queue = InputQueue::<TestConfig>::new();
    for frame in 0..INPUT_QUEUE_LENGTH as Frame {
        assert_eq!(
            queue.add_input(PlayerInput::new(frame, TestInput { inp: 1 })),
            frame
        );
    }
    assert_eq!(queue.length, INPUT_QUEUE_LENGTH);
    assert!(!queue.can_append_after_trim(INPUT_QUEUE_LENGTH as Frame, -1));
    assert!(queue.can_append_after_trim(INPUT_QUEUE_LENGTH as Frame, 0));

    queue.trim_external_through(0);
    assert!(queue.can_append_after_trim(INPUT_QUEUE_LENGTH as Frame, 0));
    queue.append_sequential(
        INPUT_QUEUE_LENGTH as Frame,
        TestInput { inp: 9 },
        InputProvenance::Authoritative,
    );
    assert_eq!(
        queue.current_input(INPUT_QUEUE_LENGTH as Frame),
        Some((TestInput { inp: 9 }, InputStatus::Confirmed))
    );
}

#[test]
fn test_confirmed_input_after_prediction_no_mismatch() {
    let mut queue = InputQueue::<TestConfig>::new();
    queue.add_input(PlayerInput::new(0, TestInput { inp: 5 }));
    // trigger prediction for frame 1
    queue.input(1);
    // now add the real input for frame 1 matching the prediction
    queue.add_input(PlayerInput::new(1, TestInput { inp: 5 }));
    assert_eq!(queue.first_incorrect_frame(), NULL_FRAME);
}

#[test]
fn test_first_incorrect_frame_tracked_on_mismatch() {
    let mut queue = InputQueue::<TestConfig>::new();
    queue.add_input(PlayerInput::new(0, TestInput { inp: 5 }));
    // trigger prediction for frame 1 (predicts inp=5)
    queue.input(1);
    // add real input for frame 1 that differs from prediction
    queue.add_input(PlayerInput::new(1, TestInput { inp: 99 }));
    assert_eq!(queue.first_incorrect_frame(), 1);
}

#[test]
fn test_reset_prediction_clears_state() {
    let mut queue = InputQueue::<TestConfig>::new();
    queue.add_input(PlayerInput::new(0, TestInput { inp: 5 }));
    queue.input(1);
    queue.add_input(PlayerInput::new(1, TestInput { inp: 99 }));
    assert_eq!(queue.first_incorrect_frame(), 1);

    queue.reset_prediction();

    assert_eq!(queue.first_incorrect_frame(), NULL_FRAME);
    assert_eq!(queue.last_requested_frame, NULL_FRAME);
}

#[test]
fn test_confirmed_input_returns_correct_value() {
    let mut queue = InputQueue::<TestConfig>::new();
    for i in 0..6 {
        queue.add_input(PlayerInput::new(i, TestInput { inp: i as u8 * 10 }));
    }
    let confirmed = queue.confirmed_input(3);
    assert_eq!(confirmed.frame, 3);
    assert_eq!(confirmed.input.inp, 30);
}

#[test]
fn test_discard_confirmed_frames_reduces_length() {
    let mut queue = InputQueue::<TestConfig>::new();
    for i in 0..10 {
        queue.add_input(PlayerInput::new(i, TestInput { inp: i as u8 }));
    }
    let len_before = queue.length;
    queue.discard_confirmed_frames(5);
    assert!(queue.length < len_before);
}

#[test]
fn test_increase_delay_mid_session_does_not_drop_next_input() {
    let mut queue = InputQueue::<TestConfig>::new();
    // Add a few frames with no delay
    for i in 0..5_i32 {
        let result = queue.add_input(PlayerInput::new(i, TestInput { inp: i as u8 }));
        assert_ne!(result, NULL_FRAME, "frame {i} should be accepted");
    }

    // Increase delay from 0 to 2
    queue.set_frame_delay(2);

    // The next sequential game frame (5) must still be accepted
    let result = queue.add_input(PlayerInput::new(5, TestInput { inp: 5 }));
    assert_ne!(
        result, NULL_FRAME,
        "first input after delay increase should not be dropped"
    );
}

#[test]
fn test_increase_delay_fills_with_last_input() {
    let mut queue = InputQueue::<TestConfig>::new();
    // Add frames 0-4 with no delay; the last submitted input has inp=4
    for i in 0..5_i32 {
        queue.add_input(PlayerInput::new(i, TestInput { inp: i as u8 }));
    }

    // Increase delay from 0 to 2; the fills should be stamped with the last known input
    let fills = queue.set_frame_delay(2);

    assert_eq!(fills.len(), 2);
    // Both fill frames carry the last input value (inp=4)
    assert!(fills.iter().all(|f| f.input.inp == 4));
    // Frames are consecutive starting right after last_added_frame (4)
    assert_eq!(fills[0].frame, 5);
    assert_eq!(fills[1].frame, 6);
}

#[test]
fn test_decrease_delay_mid_session_continues_sequentially() {
    let mut queue = InputQueue::<TestConfig>::new();
    queue.set_frame_delay(3);
    for i in 0..5_i32 {
        let result = queue.add_input(PlayerInput::new(i, TestInput { inp: i as u8 }));
        assert_ne!(result, NULL_FRAME, "frame {i} should be accepted");
    }

    // Decrease delay from 3 to 1
    queue.set_frame_delay(1);

    // Some inputs will be dropped (the ones that would land before last_added_frame),
    // but eventually the queue accepts sequential inputs again
    let mut accepted = 0;
    for i in 5..10_i32 {
        let result = queue.add_input(PlayerInput::new(i, TestInput { inp: i as u8 }));
        if result != NULL_FRAME {
            accepted += 1;
        }
    }
    assert!(
        accepted > 0,
        "at least some inputs after delay decrease should be accepted"
    );
}

#[test]
fn test_queue_wraps_around_without_panic() {
    let mut queue = InputQueue::<TestConfig>::new();
    // INPUT_QUEUE_LENGTH is 128. Add frames in batches, discarding confirmed frames
    // between batches to keep the queue from filling up. This exercises the circular
    // index wraparound path.
    for i in 0..200_i32 {
        let result = queue.add_input(PlayerInput::new(i, TestInput { inp: i as u8 }));
        assert_ne!(result, NULL_FRAME, "frame {i} should have been accepted");
        // discard every 64 frames so the queue never exceeds INPUT_QUEUE_LENGTH
        if i > 0 && i % 64 == 0 {
            queue.discard_confirmed_frames(i - 1);
        }
    }
}

#[test]
fn exact_retry_uses_recorded_transition() {
    let mut queue = InputQueue::<TestConfig>::new();
    queue
        .materialize_predicted(0, TestInput::default())
        .unwrap();
    let predicted = queue.slot_state(0).unwrap();
    assert_ne!(
        predicted,
        VersionedInput {
            input: TestInput::default(),
            provenance: InputProvenance::Authoritative,
            revision: 0,
        }
    );

    let authoritative = queue
        .replace_past_slot(0, predicted, TestInput::default())
        .unwrap();
    assert_eq!(authoritative, InputReplacementResult::Replaced);
    let replacement = queue.slot_state(0).unwrap();
    assert_eq!(replacement.provenance, InputProvenance::Authoritative);
    assert_eq!(replacement.revision, 1);
    assert_eq!(queue.first_incorrect_frame(), NULL_FRAME);
    let transition = queue.last_transitions[0];
    assert_eq!(
        queue.replace_past_slot(0, predicted, TestInput::default()),
        Ok(InputReplacementResult::RetryNoOp)
    );
    assert_eq!(queue.slot_state(0), Some(replacement));
    assert_eq!(queue.last_transitions[0], transition);
    assert_eq!(queue.first_incorrect_frame(), NULL_FRAME);
}

#[test]
fn same_expected_with_different_replacement_is_conflict() {
    let mut queue = InputQueue::<TestConfig>::new();
    queue
        .materialize_predicted(0, TestInput { inp: 1 })
        .unwrap();
    let old = queue.slot_state(0).unwrap();
    queue
        .replace_past_slot(0, old, TestInput { inp: 2 })
        .unwrap();
    let before_slot = queue.slot_state(0);
    let before_revision = before_slot.unwrap().revision;
    let before_transition = queue.last_transitions[0];
    let before_mismatch = queue.first_incorrect_frame();
    assert_eq!(
        queue.replace_past_slot(0, old, TestInput { inp: 3 }),
        Err(InputReplacementError::Conflict)
    );
    assert_eq!(queue.slot_state(0), before_slot);
    assert_eq!(queue.slot_state(0).unwrap().revision, before_revision);
    assert_eq!(queue.last_transitions[0], before_transition);
    assert_eq!(queue.first_incorrect_frame(), before_mismatch);
}

#[test]
fn current_state_is_not_a_historical_retry() {
    let mut queue = InputQueue::<TestConfig>::new();
    queue
        .materialize_predicted(0, TestInput { inp: 1 })
        .unwrap();
    let old = queue.slot_state(0).unwrap();
    queue
        .replace_past_slot(0, old, TestInput { inp: 2 })
        .unwrap();
    let current = queue.slot_state(0).unwrap();
    assert_eq!(
        queue.replace_past_slot(0, current, TestInput { inp: 2 }),
        Err(InputReplacementError::Conflict)
    );
    assert_eq!(queue.slot_state(0), Some(current));
}

#[test]
fn same_target_with_different_expected_is_conflict() {
    let mut queue = InputQueue::<TestConfig>::new();
    queue
        .materialize_predicted(0, TestInput { inp: 1 })
        .unwrap();
    let old = queue.slot_state(0).unwrap();
    queue
        .replace_past_slot(0, old, TestInput { inp: 2 })
        .unwrap();
    let wrong_expected = VersionedInput {
        input: TestInput { inp: 1 },
        provenance: InputProvenance::Authoritative,
        revision: old.revision,
    };
    assert_eq!(
        queue.replace_past_slot(0, wrong_expected, TestInput { inp: 2 }),
        Err(InputReplacementError::Conflict)
    );
}

#[test]
fn authoritative_revision_marks_earliest_mismatch() {
    let mut queue = InputQueue::<TestConfig>::new();
    queue
        .materialize_predicted(0, TestInput { inp: 0 })
        .unwrap();
    let old0 = queue.slot_state(0).unwrap();
    queue
        .replace_past_slot(0, old0, TestInput { inp: 1 })
        .unwrap();
    queue
        .materialize_predicted(1, TestInput { inp: 1 })
        .unwrap();
    let old1 = queue.slot_state(1).unwrap();
    queue
        .replace_past_slot(1, old1, TestInput { inp: 1 })
        .unwrap();
    assert_eq!(queue.first_incorrect_frame(), 0);
    let current1 = queue.slot_state(1).unwrap();
    queue
        .replace_past_slot(1, current1, TestInput { inp: 2 })
        .unwrap();
    assert_eq!(queue.first_incorrect_frame(), 0);

    let mut fresh = InputQueue::<TestConfig>::new();
    fresh
        .materialize_predicted(0, TestInput { inp: 1 })
        .unwrap();
    let old = fresh.slot_state(0).unwrap();
    fresh
        .replace_past_slot(0, old, TestInput { inp: 1 })
        .unwrap();
    fresh.reset_prediction();
    let current = fresh.slot_state(0).unwrap();
    fresh
        .replace_past_slot(0, current, TestInput { inp: 2 })
        .unwrap();
    assert_eq!(fresh.first_incorrect_frame(), 0);
}

#[test]
fn trimming_full_queue_retains_newest_slot_and_drops_old_metadata() {
    let mut queue = InputQueue::<TestConfig>::new();
    for frame in 0..INPUT_QUEUE_LENGTH as Frame {
        queue
            .materialize_predicted(frame, TestInput { inp: frame as u8 })
            .unwrap();
    }
    queue.discard_confirmed_frames((INPUT_QUEUE_LENGTH - 1) as Frame);
    assert!(queue
        .slot_state((INPUT_QUEUE_LENGTH - 1) as Frame)
        .is_some());
    assert!(queue.slot_state(0).is_none());
    assert_eq!(queue.length, 1);
    assert_eq!(queue.tail, InputQueue::<TestConfig>::prev_pos(queue.head));
}

#[test]
fn external_trim_removes_logical_slots_and_transitions() {
    let mut queue = InputQueue::<TestConfig>::new();
    for frame in 0..3 {
        queue
            .materialize_predicted(frame, TestInput { inp: frame as u8 })
            .unwrap();
    }
    let old = queue.slot_state(0).unwrap();
    queue
        .replace_past_slot(0, old, TestInput { inp: 9 })
        .unwrap();
    queue.trim_external_through(1);
    assert!(queue.slot_state(0).is_none());
    assert!(queue.slot_state(1).is_none());
    assert!(queue.slot_state(2).is_some());
    assert_eq!(queue.length, 1);
    assert_eq!(queue.last_transitions[0], None);
    assert_eq!(queue.last_transitions[1], None);
    assert_eq!(
        queue.replace_past_slot(0, old, TestInput { inp: 4 }),
        Err(InputReplacementError::OutOfRetention)
    );
}

#[test]
fn full_queue_retained_slot_replaces_in_place() {
    let mut queue = InputQueue::<TestConfig>::new();
    for frame in 0..INPUT_QUEUE_LENGTH as Frame {
        queue
            .materialize_predicted(frame, TestInput { inp: frame as u8 })
            .unwrap();
    }
    let old = queue.slot_state(127).unwrap();
    let before = (queue.head, queue.tail, queue.length);
    assert_eq!(
        queue.replace_past_slot(127, old, TestInput { inp: 9 }),
        Ok(InputReplacementResult::Replaced)
    );
    assert_eq!((queue.head, queue.tail, queue.length), before);
}

#[test]
fn invalid_frames_are_atomic() {
    let mut queue = InputQueue::<TestConfig>::new();
    let before_inputs = queue.inputs.clone();
    let before_slots = queue.slots.clone();
    let before_transitions = queue.last_transitions.clone();
    let before = (
        queue.head,
        queue.tail,
        queue.length,
        queue.first_incorrect_frame,
    );
    assert_eq!(queue.slot_state(NULL_FRAME), None);
    assert_eq!(queue.slot_state(-2), None);
    assert_eq!(
        queue.materialize_predicted(NULL_FRAME, TestInput::default()),
        Err(InputReplacementError::InvalidFrame)
    );
    assert_eq!(
        queue.materialize_predicted(-2, TestInput::default()),
        Err(InputReplacementError::InvalidFrame)
    );
    let expected = VersionedInput {
        input: TestInput::default(),
        provenance: InputProvenance::Predicted,
        revision: 0,
    };
    assert_eq!(
        queue.replace_past_slot(NULL_FRAME, expected, TestInput::default()),
        Err(InputReplacementError::InvalidFrame)
    );
    assert_eq!(
        queue.replace_past_slot(-2, expected, TestInput::default()),
        Err(InputReplacementError::InvalidFrame)
    );
    assert_eq!(
        (
            queue.head,
            queue.tail,
            queue.length,
            queue.first_incorrect_frame
        ),
        before
    );
    assert_eq!(queue.inputs, before_inputs);
    assert_eq!(queue.slots, before_slots);
    assert_eq!(queue.last_transitions, before_transitions);
}

#[test]
fn revision_overflow_is_atomic() {
    let mut queue = InputQueue::<TestConfig>::new();
    queue
        .materialize_predicted(0, TestInput { inp: 1 })
        .unwrap();
    queue.slots[0].revision = u64::MAX;
    let expected = queue.slot_state(0).unwrap();
    let before_inputs = queue.inputs.clone();
    let before_slots = queue.slots.clone();
    let before_transitions = queue.last_transitions.clone();
    let before = (
        queue.head,
        queue.tail,
        queue.length,
        queue.first_incorrect_frame,
    );
    assert_eq!(
        queue.replace_past_slot(0, expected, TestInput { inp: 2 }),
        Err(InputReplacementError::RevisionOverflow)
    );
    assert_eq!(queue.inputs, before_inputs);
    assert_eq!(queue.slots, before_slots);
    assert_eq!(queue.last_transitions, before_transitions);
    assert_eq!(
        (
            queue.head,
            queue.tail,
            queue.length,
            queue.first_incorrect_frame
        ),
        before
    );
}

#[test]
fn predicted_and_authoritative_default_are_distinct() {
    let mut queue = InputQueue::<TestConfig>::new();
    queue
        .materialize_predicted(0, TestInput::default())
        .unwrap();
    let predicted = queue.slot_state(0).unwrap();
    queue
        .replace_past_slot(0, predicted, TestInput::default())
        .unwrap();
    let authoritative = queue.slot_state(0).unwrap();
    assert_eq!(predicted.input, authoritative.input);
    assert_ne!(predicted.provenance, authoritative.provenance);
    assert_eq!(predicted.revision + 1, authoritative.revision);
    assert_eq!(queue.first_incorrect_frame(), NULL_FRAME);
}
