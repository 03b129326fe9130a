//! Properties of input queues, on concrete values.

use ggrs::config::{Config, Frame, InputPredictor, InputStatus, PredictRepeatLast, NULL_FRAME};
use ggrs::frame_info::PlayerInput;
use ggrs::input_queue::{InputQueue, INPUT_QUEUE_LENGTH, MAX_ROLLBACK_HISTORY_FRAMES};
use ggrs::versioned_input::{
    InputProvenance, InputReplacementError, InputReplacementResult, InputTransition,
    VersionedInput,
};

struct Repeating;

impl Config for Repeating {
    type Input = u8;
    type InputPredictor = PredictRepeatLast;
    type State = ();
    type Address = ();
}

struct AddOne;

impl InputPredictor<u8> for AddOne {
    fn predict(previous: u8) -> u8 {
        previous + 1
    }
}

struct Counting;

impl Config for Counting {
    type Input = u8;
    type InputPredictor = AddOne;
    type State = ();
    type Address = ();
}

fn filled(frames: Frame) -> InputQueue<Repeating> {
    let mut queue = InputQueue::new();
    for frame in 0..frames {
        assert_eq!(queue.add_input(PlayerInput::new(frame, frame as u8)), frame);
    }
    queue
}

fn authoritative(input: u8, revision: u64) -> VersionedInput<u8> {
    VersionedInput {
        input,
        provenance: InputProvenance::Authoritative,
        revision,
    }
}

#[test]
fn lengths_fit_together() {
    assert_eq!(INPUT_QUEUE_LENGTH, 128);
    assert_eq!(MAX_ROLLBACK_HISTORY_FRAMES, 127);
}

#[test]
fn player_inputs_compare_by_frame_and_input() {
    assert_eq!(PlayerInput::new(3, 7u8), PlayerInput { frame: 3, input: 7 });
    assert_ne!(PlayerInput::new(3, 7u8), PlayerInput::new(4, 7u8));
    assert_ne!(PlayerInput::new(3, 7u8), PlayerInput::new(3, 8u8));
    assert!(PlayerInput::new(3, 7u8).input_matches(&PlayerInput::new(4, 7u8)));
    assert!(!PlayerInput::new(3, 7u8).input_matches(&PlayerInput::new(3, 8u8)));
    assert_eq!(PlayerInput::<u8>::blank_input(5), PlayerInput::new(5, 0));
}

#[test]
fn versioned_inputs_compare_by_all_fields() {
    let input = authoritative(4, 2);
    assert_eq!(input, input.clone());
    assert_ne!(input, authoritative(5, 2));
    assert_ne!(input, authoritative(4, 3));
    assert_ne!(
        input,
        VersionedInput {
            provenance: InputProvenance::Predicted,
            ..input
        }
    );
    let transition = InputTransition {
        expected: input,
        replacement: authoritative(9, 3),
    };
    assert_eq!(transition, transition.clone());
    assert_ne!(
        transition,
        InputTransition {
            expected: authoritative(9, 3),
            ..transition
        }
    );
}

#[test]
fn added_inputs_are_found_and_others_stay() {
    let mut queue = InputQueue::<Repeating>::new();
    queue.append_sequential(0, 10, InputProvenance::Authoritative);
    queue.append_sequential(1, 11, InputProvenance::Predicted);
    assert_eq!(queue.slot_state(0), Some(authoritative(10, 0)));
    assert_eq!(queue.current_input(0), Some((10, InputStatus::Confirmed)));
    assert_eq!(queue.current_input(1), Some((11, InputStatus::Predicted)));
    assert_eq!(queue.current_input(2), None);
    assert_eq!(queue.current_input(128), None);
    assert_eq!(queue.current_input(NULL_FRAME), None);
}

#[test]
fn first_frame_has_to_be_a_multiple_of_the_ring_to_be_found() {
    let mut queue = InputQueue::<Repeating>::new();
    assert_eq!(queue.materialize_predicted(5, 1), Ok(()));
    assert_eq!(queue.last_added_frame, 5);
    assert_eq!(queue.slot_state(5), None);
    assert_eq!(
        queue.replace_past_slot(5, authoritative(1, 0), 2),
        Err(InputReplacementError::OutOfRetention)
    );

    let mut queue = InputQueue::<Repeating>::new();
    assert_eq!(queue.materialize_predicted(256, 1), Ok(()));
    assert_eq!(queue.current_input(256), Some((1, InputStatus::Predicted)));
    assert_eq!(queue.current_input(0), None);
}

#[test]
fn only_the_next_frame_can_be_materialized() {
    let mut queue = filled(3);
    let before = queue.inputs.clone();
    assert_eq!(
        queue.materialize_predicted(2, 9),
        Err(InputReplacementError::InvalidFrame)
    );
    assert_eq!(
        queue.materialize_predicted(4, 9),
        Err(InputReplacementError::InvalidFrame)
    );
    assert_eq!(queue.inputs, before);
    assert_eq!(queue.materialize_predicted(3, 9), Ok(()));
    assert_eq!(queue.current_input(3), Some((9, InputStatus::Predicted)));
}

#[test]
fn full_queue_takes_nothing_until_it_is_trimmed() {
    let mut queue = filled(128);
    assert_eq!(
        queue.materialize_predicted(128, 9),
        Err(InputReplacementError::OutOfRetention)
    );
    assert!(!queue.can_append_after_trim(128, -1));
    assert!(!queue.can_append_after_trim(128, -5));
    assert!(queue.can_append_after_trim(128, 3));
    assert!(!queue.can_append_after_trim(129, 3));
    assert!(!queue.can_append_after_trim(-1, 3));
    queue.trim_external_through(3);
    assert_eq!(queue.length, 124);
    assert_eq!(queue.materialize_predicted(128, 9), Ok(()));
    assert_eq!(queue.current_input(128), Some((9, InputStatus::Predicted)));
    assert_eq!(queue.current_input(0), None);
    assert_eq!(queue.current_input(4), Some((4, InputStatus::Confirmed)));
}

#[test]
fn trimming_gives_up_earlier_frames_only() {
    let mut queue = filled(6);
    queue.trim_external_through(-1);
    assert_eq!(queue.length, 6);
    queue.trim_external_through(2);
    assert_eq!(queue.length, 3);
    for frame in 0..3 {
        assert_eq!(queue.slot_state(frame), None);
    }
    for frame in 3..6 {
        assert_eq!(queue.slot_state(frame), Some(authoritative(frame as u8, 0)));
    }
    queue.trim_external_through(2);
    assert_eq!(queue.length, 3);
    queue.trim_external_through(100);
    assert_eq!(queue.length, 0);
    assert_eq!(queue.tail, queue.head);
    assert_eq!(queue.last_added_frame, 5);
    queue.append_sequential(6, 60, InputProvenance::Authoritative);
    assert_eq!(queue.slot_state(6), Some(authoritative(60, 0)));
}

#[test]
fn replacement_reads_back_and_leaves_the_rest() {
    let mut queue = filled(3);
    assert_eq!(
        queue.replace_past_slot(1, authoritative(1, 0), 77),
        Ok(InputReplacementResult::Replaced)
    );
    assert_eq!(queue.slot_state(1), Some(authoritative(77, 1)));
    assert_eq!(queue.confirmed_input(1), PlayerInput::new(1, 77));
    assert_eq!(queue.slot_state(0), Some(authoritative(0, 0)));
    assert_eq!(queue.slot_state(2), Some(authoritative(2, 0)));
    assert_eq!(queue.first_incorrect_frame(), 1);
    assert_eq!(
        queue.last_transitions[1],
        Some(InputTransition {
            expected: authoritative(1, 0),
            replacement: authoritative(77, 1),
        })
    );
    assert_eq!(
        queue.replace_past_slot(1, authoritative(77, 1), 78),
        Ok(InputReplacementResult::Replaced)
    );
    assert_eq!(queue.slot_state(1), Some(authoritative(78, 2)));
}

#[test]
fn refused_replacements_change_nothing() {
    let mut queue = filled(2);
    let before = queue.slots.clone();
    assert_eq!(
        queue.replace_past_slot(1, authoritative(9, 0), 5),
        Err(InputReplacementError::ExpectedStateMismatch)
    );
    assert_eq!(
        queue.replace_past_slot(1, authoritative(9, 0), 1),
        Err(InputReplacementError::Conflict)
    );
    assert_eq!(
        queue.replace_past_slot(1, authoritative(1, 0), 1),
        Err(InputReplacementError::Conflict)
    );
    assert_eq!(
        queue.replace_past_slot(2, authoritative(1, 0), 1),
        Err(InputReplacementError::OutOfRetention)
    );
    assert_eq!(
        queue.replace_past_slot(-1, authoritative(1, 0), 1),
        Err(InputReplacementError::InvalidFrame)
    );
    assert_eq!(queue.slots, before);
    assert_eq!(queue.first_incorrect_frame(), NULL_FRAME);
}

#[test]
fn earlier_mismatch_takes_precedence() {
    let mut queue = filled(4);
    queue.replace_past_slot(2, authoritative(2, 0), 50).unwrap();
    assert_eq!(queue.first_incorrect_frame(), 2);
    queue.replace_past_slot(3, authoritative(3, 0), 51).unwrap();
    assert_eq!(queue.first_incorrect_frame(), 2);
    queue.replace_past_slot(0, authoritative(0, 0), 52).unwrap();
    assert_eq!(queue.first_incorrect_frame(), 0);
}

#[test]
fn discarding_keeps_the_frame_it_names_and_the_newest() {
    let mut queue = filled(10);
    queue.discard_confirmed_frames(-1);
    assert_eq!(queue.length, 10);
    queue.discard_confirmed_frames(4);
    assert_eq!(queue.length, 6);
    assert_eq!(queue.slot_state(3), None);
    assert_eq!(queue.last_transitions[3], None);
    assert_eq!(queue.slot_state(4), Some(authoritative(4, 0)));
    queue.discard_confirmed_frames(2);
    assert_eq!(queue.length, 6);
    queue.discard_confirmed_frames(50);
    assert_eq!(queue.length, 1);
    assert_eq!(queue.slot_state(9), Some(authoritative(9, 0)));
    assert_eq!(queue.slot_state(8), None);
}

#[test]
fn discarding_stops_at_the_frame_requested_last() {
    let mut queue = filled(10);
    assert_eq!(queue.input(3), (3, InputStatus::Confirmed));
    queue.discard_confirmed_frames(7);
    assert_eq!(queue.length, 7);
    assert_eq!(queue.slot_state(2), None);
    assert_eq!(queue.slot_state(3), Some(authoritative(3, 0)));
}

#[test]
fn discarding_from_an_empty_queue_changes_nothing() {
    let mut queue = InputQueue::<Repeating>::new();
    queue.discard_confirmed_frames(0);
    assert_eq!((queue.head, queue.tail, queue.length), (0, 0, 0));
    assert_eq!(queue.slot_state(127), None);
    assert_eq!(queue.add_input(PlayerInput::new(0, 6)), 0);
    assert_eq!((queue.head, queue.tail, queue.length), (1, 0, 1));
    assert_eq!(queue.input(0), (6, InputStatus::Confirmed));
    assert_eq!(queue.slot_state(0), Some(authoritative(6, 0)));
}

#[test]
fn discarding_after_everything_was_trimmed_changes_nothing() {
    let mut queue = filled(6);
    queue.trim_external_through(9);
    queue.discard_confirmed_frames(3);
    queue.discard_confirmed_frames(50);
    assert_eq!((queue.head, queue.tail, queue.length), (6, 6, 0));
    assert_eq!(queue.last_added_frame, 5);
    queue.append_sequential(6, 60, InputProvenance::Authoritative);
    assert_eq!(queue.length, 1);
    assert_eq!(queue.slot_state(6), Some(authoritative(60, 0)));
    assert_eq!(queue.slot_state(5), None);
}

#[test]
fn frames_stay_consecutive_while_some_are_trimmed_and_discarded() {
    let mut queue = filled(100);
    queue.trim_external_through(19);
    queue.discard_confirmed_frames(40);
    for frame in 100..150 {
        assert_eq!(
            queue.add_input(PlayerInput::new(frame, frame as u8)),
            frame
        );
    }
    assert_eq!(queue.length, 110);
    assert_eq!(queue.slot_state(39), None);
    for frame in 40..150 {
        assert_eq!(
            queue.confirmed_input(frame),
            PlayerInput::new(frame, frame as u8)
        );
    }
    assert_eq!(queue.slot_state(150), None);
}

#[test]
fn unchanged_delay_uses_each_input_for_the_next_frame() {
    let mut queue = InputQueue::<Repeating>::new();
    assert!(queue.set_frame_delay(3).is_empty());
    assert_eq!(queue.add_input(PlayerInput::new(0, 40)), 3);
    assert_eq!(queue.length, 4);
    for frame in 0..3 {
        assert_eq!(queue.confirmed_input(frame), PlayerInput::new(frame, 0));
    }
    assert_eq!(queue.add_input(PlayerInput::new(1, 41)), 4);
    assert_eq!(queue.length, 5);
    assert_eq!(queue.confirmed_input(3), PlayerInput::new(3, 40));
    assert_eq!(queue.confirmed_input(4), PlayerInput::new(4, 41));
}

#[test]
fn reported_fills_are_the_frames_filled_in() {
    let mut queue = filled(5);
    let fills = queue.set_frame_delay(3);
    assert_eq!(
        fills,
        vec![
            PlayerInput::new(5, 4),
            PlayerInput::new(6, 4),
            PlayerInput::new(7, 4)
        ]
    );
    assert_eq!(queue.add_input(PlayerInput::new(5, 90)), 8);
    for fill in fills {
        assert_eq!(queue.confirmed_input(fill.frame), fill);
    }
    assert_eq!(queue.confirmed_input(8), PlayerInput::new(8, 90));
}

#[test]
fn fills_of_successive_delays_follow_each_other() {
    let mut queue = filled(5);
    assert_eq!(
        queue.set_frame_delay(2),
        vec![PlayerInput::new(5, 4), PlayerInput::new(6, 4)]
    );
    assert_eq!(
        queue.set_frame_delay(4),
        vec![PlayerInput::new(7, 4), PlayerInput::new(8, 4)]
    );
    assert_eq!(queue.add_input(PlayerInput::new(5, 90)), 9);
    for frame in 5..9 {
        assert_eq!(queue.confirmed_input(frame), PlayerInput::new(frame, 4));
    }
    assert_eq!(queue.confirmed_input(9), PlayerInput::new(9, 90));
}

#[test]
fn fills_without_a_submission_follow_the_frame_added_last() {
    let mut queue = InputQueue::<Repeating>::new();
    assert_eq!(queue.materialize_predicted(0, 8), Ok(()));
    assert_eq!(
        queue.set_frame_delay(2),
        vec![PlayerInput::new(1, 8), PlayerInput::new(2, 8)]
    );
    assert_eq!(queue.last_user_frame, NULL_FRAME);
    assert_eq!((queue.length, queue.last_added_frame), (1, 0));

    let mut queue = InputQueue::<Repeating>::new();
    queue.append_sequential(0, 8, InputProvenance::Authoritative);
    let fills = queue.set_frame_delay(2);
    assert_eq!(
        fills,
        vec![PlayerInput::new(1, 8), PlayerInput::new(2, 8)]
    );
    assert_eq!(queue.add_input(PlayerInput::new(1, 9)), 3);
    for fill in fills {
        assert_eq!(queue.confirmed_input(fill.frame), fill);
    }
    assert_eq!(queue.confirmed_input(3), PlayerInput::new(3, 9));

    let mut queue = InputQueue::<Repeating>::new();
    for frame in 0..3 {
        queue.append_sequential(frame, frame as u8, InputProvenance::Authoritative);
    }
    let fills = queue.set_frame_delay(2);
    assert_eq!(
        fills,
        vec![PlayerInput::new(3, 2), PlayerInput::new(4, 2)]
    );
    assert_eq!(queue.add_input(PlayerInput::new(3, 9)), 5);
    for fill in fills {
        assert_eq!(queue.confirmed_input(fill.frame), fill);
    }
    assert_eq!(queue.confirmed_input(5), PlayerInput::new(5, 9));
}

#[test]
fn fills_without_a_submission_count_from_the_delay_so_far() {
    let mut queue = InputQueue::<Repeating>::new();
    assert!(queue.set_frame_delay(3).is_empty());
    for frame in 0..4 {
        queue.append_sequential(frame, frame as u8, InputProvenance::Authoritative);
    }
    assert!(queue.set_frame_delay(3).is_empty());
    assert_eq!(queue.set_frame_delay(4), vec![PlayerInput::new(4, 3)]);
    assert_eq!(queue.add_input(PlayerInput::new(1, 9)), 5);
    assert_eq!(queue.confirmed_input(4), PlayerInput::new(4, 3));
    assert_eq!(queue.confirmed_input(5), PlayerInput::new(5, 9));
}

#[test]
fn frames_left_over_from_a_longer_delay_are_not_reported() {
    let mut queue = InputQueue::<Repeating>::new();
    queue.set_frame_delay(3);
    for frame in 0..5 {
        queue.add_input(PlayerInput::new(frame, frame as u8));
    }
    assert_eq!((queue.last_added_frame, queue.last_user_frame), (7, 4));
    assert!(queue.set_frame_delay(1).is_empty());
    assert!(queue.set_frame_delay(2).is_empty());
    assert_eq!(queue.add_input(PlayerInput::new(5, 5)), NULL_FRAME);
    assert_eq!(
        queue.set_frame_delay(4),
        vec![PlayerInput::new(8, 4), PlayerInput::new(9, 4)]
    );
    assert_eq!(queue.add_input(PlayerInput::new(6, 66)), 10);
    assert_eq!(queue.confirmed_input(9), PlayerInput::new(9, 4));
    assert_eq!(queue.confirmed_input(10), PlayerInput::new(10, 66));
}

#[test]
fn shorter_delay_drops_inputs_until_it_has_caught_up() {
    let mut queue = InputQueue::<Repeating>::new();
    queue.set_frame_delay(3);
    for frame in 0..5 {
        assert_eq!(
            queue.add_input(PlayerInput::new(frame, frame as u8)),
            frame + 3
        );
    }
    assert!(queue.set_frame_delay(1).is_empty());
    assert_eq!(queue.add_input(PlayerInput::new(5, 5)), NULL_FRAME);
    assert_eq!(queue.last_user_frame, 5);
    assert_eq!(queue.last_added_frame, 7);
    assert_eq!(queue.add_input(PlayerInput::new(6, 6)), NULL_FRAME);
    assert_eq!(queue.add_input(PlayerInput::new(7, 7)), 8);
    assert_eq!(queue.confirmed_input(8), PlayerInput::new(8, 7));
}

#[test]
fn inputs_out_of_order_are_dropped_without_trace() {
    let mut queue = filled(3);
    assert_eq!(queue.add_input(PlayerInput::new(5, 1)), NULL_FRAME);
    assert_eq!(queue.add_input(PlayerInput::new(2, 1)), NULL_FRAME);
    assert_eq!(queue.last_user_frame, 2);
    assert_eq!(queue.length, 3);
    assert_eq!(queue.add_input(PlayerInput::new(3, 1)), 3);
}

#[test]
fn nothing_to_predict_from_gives_the_default() {
    let mut queue = InputQueue::<Counting>::new();
    assert_eq!(queue.input(0), (0, InputStatus::Predicted));
    assert_eq!(queue.prediction.frame, 0);
    assert_eq!(queue.add_input(PlayerInput::new(0, 0)), 0);
    assert_eq!(queue.first_incorrect_frame(), NULL_FRAME);
    assert_eq!(queue.prediction.frame, NULL_FRAME);
}

#[test]
fn predictor_is_asked_with_the_input_added_last() {
    let mut queue = InputQueue::<Counting>::new();
    queue.add_input(PlayerInput::new(0, 20));
    assert_eq!(queue.input(1), (21, InputStatus::Predicted));
    assert_eq!(queue.input(2), (21, InputStatus::Predicted));
    assert_eq!(queue.last_requested_frame, 2);
}

#[test]
fn stored_inputs_are_served_while_later_ones_are_predicted() {
    let mut queue = InputQueue::<Repeating>::new();
    queue.add_input(PlayerInput::new(0, 5));
    queue.add_input(PlayerInput::new(1, 7));
    assert_eq!(queue.input(2), (7, InputStatus::Predicted));
    assert_eq!(queue.input(0), (5, InputStatus::Confirmed));
    assert_eq!(queue.input(1), (7, InputStatus::Confirmed));
    assert_eq!(queue.prediction, PlayerInput::new(2, 7));
    assert_eq!(queue.input(3), (7, InputStatus::Predicted));
    queue.add_input(PlayerInput::new(2, 7));
    assert_eq!(queue.input(2), (7, InputStatus::Confirmed));
    assert_eq!(queue.prediction.frame, 3);
}

#[test]
fn adding_by_frame_gives_the_frame_back() {
    let mut queue = filled(2);
    assert_eq!(queue.add_input_by_frame(PlayerInput::new(9, 33), 2), 2);
    assert_eq!(queue.confirmed_input(2), PlayerInput::new(2, 33));
    assert_eq!(queue.last_added_frame, 2);
}

#[test]
fn predicting_goes_on_until_the_requested_frame_is_reached() {
    let mut queue = filled(1);
    assert_eq!(queue.input(3), (0, InputStatus::Predicted));
    assert_eq!(queue.prediction.frame, 1);
    queue.add_input(PlayerInput::new(1, 0));
    queue.add_input(PlayerInput::new(2, 0));
    assert_eq!(queue.prediction.frame, 3);
    queue.add_input(PlayerInput::new(3, 0));
    assert_eq!(queue.prediction.frame, NULL_FRAME);
    assert_eq!(queue.first_incorrect_frame(), NULL_FRAME);
}

#[test]
fn first_mistake_is_remembered() {
    let mut queue = filled(1);
    assert_eq!(queue.input(4), (0, InputStatus::Predicted));
    queue.add_input(PlayerInput::new(1, 0));
    queue.add_input(PlayerInput::new(2, 5));
    queue.add_input(PlayerInput::new(3, 6));
    assert_eq!(queue.first_incorrect_frame(), 2);
    queue.add_input(PlayerInput::new(4, 0));
    assert_eq!(queue.first_incorrect_frame(), 2);
    assert_eq!(queue.prediction.frame, 5);
    queue.reset_prediction();
    assert_eq!(queue.input(4), (0, InputStatus::Confirmed));
}

#[test]
fn frames_are_found_after_the_ring_has_wrapped() {
    let mut queue = InputQueue::<Repeating>::new();
    for frame in 0..300 {
        assert_eq!(
            queue.add_input(PlayerInput::new(frame, (frame % 251) as u8)),
            frame
        );
        queue.discard_confirmed_frames(frame - 100);
    }
    assert_eq!(queue.length, 101);
    for frame in 199..300 {
        assert_eq!(queue.input(frame).0, (frame % 251) as u8);
        assert_eq!(
            queue.slot_state(frame),
            Some(authoritative((frame % 251) as u8, 0))
        );
    }
    assert_eq!(queue.slot_state(198), None);
    assert_eq!(queue.slot_state(172), None);
}

#[test]
fn ring_positions_are_taken_modulo_the_length() {
    let queue = filled(3);
    assert!(queue.retained_index(0));
    assert!(queue.retained_index(2));
    assert!(!queue.retained_index(3));
    assert!(queue.retained_index(128));
    assert!(!InputQueue::<Repeating>::new().retained_index(0));
    assert_eq!(InputQueue::<Repeating>::prev_pos(0), 127);
    assert_eq!(InputQueue::<Repeating>::prev_pos(5), 4);
}
