//! Properties of sessions, on concrete values.

use ggrs::config::{Config, Frame, InputStatus, PredictRepeatLast, NULL_FRAME};
use ggrs::message::wrong_input_count_message;
use ggrs::requests::{GameStateCell, GgrsError, GgrsRequest};
use ggrs::sessions::external_input::{
    ExternalInputReplacement, ExternalInputReplacementError, ExternalInputStateError,
};
use ggrs::sessions::external_session::ExternalSession;
use ggrs::versioned_input::InputReplacementError;

struct Game;

impl Config for Game {
    type Input = u8;
    type InputPredictor = PredictRepeatLast;
    type State = i32;
    type Address = ();
}

/// Advances, saves what is to be saved, and lists what was asked for.
fn advance(session: &mut ExternalSession<Game>, inputs: &[Option<u8>]) -> Vec<String> {
    let mut log = Vec::new();
    for request in session.advance_frame(inputs).unwrap() {
        match request {
            GgrsRequest::SaveGameState { cell, frame } => {
                log.push(format!("save {} in {}", frame, cell.index));
                session.save(cell, frame, Some(frame), None);
            }
            GgrsRequest::LoadGameState { cell, frame } => {
                log.push(format!("load {} from {}", frame, cell.index));
                assert_eq!(session.load(cell), Some(&frame));
            }
            GgrsRequest::AdvanceFrame { inputs } => {
                let inputs: Vec<String> = inputs
                    .iter()
                    .map(|(input, status)| match status {
                        InputStatus::Confirmed => format!("{}", input),
                        InputStatus::Predicted => format!("{}?", input),
                    })
                    .collect();
                log.push(inputs.join(" "));
            }
        }
    }
    log
}

#[test]
fn inputs_are_handed_on_with_their_status() {
    let mut session = ExternalSession::<Game>::new(2, 3);
    assert_eq!(
        advance(&mut session, &[Some(4), None]),
        vec!["save 0 in 0", "4 0?"]
    );
    assert_eq!(
        advance(&mut session, &[None, Some(6)]),
        vec!["save 1 in 1", "0? 6"]
    );
    assert_eq!(session.current_frame(), 2);
}

#[test]
fn earliest_replaced_frame_of_all_players_is_replayed() {
    let mut session = ExternalSession::<Game>::new(2, 3);
    for frame in 0..4 {
        advance(&mut session, &[Some(frame), Some(frame + 10)]);
    }
    let late = session.input_state(0, 3).unwrap();
    let early = session.input_state(1, 1).unwrap();
    session.replace_past_input(0, 3, late, 77).unwrap();
    session.replace_past_input(1, 1, early, 99).unwrap();
    assert_eq!(session.sync_layer.first_incorrect_frame(), 1);
    assert_eq!(
        advance(&mut session, &[None, None]),
        vec![
            "load 1 from 1",
            "1 99",
            "save 2 in 2",
            "2 12",
            "save 3 in 3",
            "77 13",
            "save 4 in 0",
            "0? 0?"
        ]
    );
    assert_eq!(session.sync_layer.first_incorrect_frame(), NULL_FRAME);
    assert_eq!(
        advance(&mut session, &[Some(1), Some(1)]),
        vec!["save 5 in 1", "1 1"]
    );
}

#[test]
fn confirming_a_predicted_default_needs_no_replay() {
    let mut session = ExternalSession::<Game>::new(1, 3);
    advance(&mut session, &[None]);
    let predicted = session.input_state(0, 0).unwrap();
    assert!(matches!(
        session.replace_past_input(0, 0, predicted, 0),
        Ok(ExternalInputReplacement::Replaced(_))
    ));
    assert_eq!(
        advance(&mut session, &[Some(3)]),
        vec!["save 1 in 1", "3"]
    );
}

#[test]
fn saving_keeps_the_states_of_the_history() {
    let mut session = ExternalSession::<Game>::new(1, 2);
    for _ in 0..5 {
        advance(&mut session, &[None]);
    }
    for frame in 2..5 {
        let cell = session.sync_layer.saved_state_by_frame(frame).unwrap();
        assert_eq!(cell, GameStateCell { index: frame as usize % 3 });
        assert_eq!(session.load(cell), Some(&frame));
    }
    for frame in [0, 1, 5, 6] {
        assert_eq!(session.sync_layer.saved_state_by_frame(frame), None);
    }
}

#[test]
fn inputs_before_the_history_are_given_up() {
    let mut session = ExternalSession::<Game>::new(1, 2);
    for frame in 0..6 {
        advance(&mut session, &[Some(frame)]);
    }
    for frame in 3..6 {
        assert_eq!(
            session.input_state(0, frame).unwrap().input(),
            frame as u8
        );
    }
    for frame in [2, 6] {
        assert_eq!(
            session.input_state(0, frame),
            Err(ExternalInputStateError::Unavailable)
        );
    }
}

#[test]
fn each_refusal_of_a_replacement_has_its_error() {
    let mut session = ExternalSession::<Game>::new(1, 2);
    for frame in 0..4 {
        advance(&mut session, &[Some(frame)]);
    }
    let expected = session.input_state(0, 2).unwrap();
    let other = session.input_state(0, 3).unwrap();
    let mut refusal = |player: usize, frame: Frame, expected, input| {
        session
            .replace_past_input(player, frame, expected, input)
            .unwrap_err()
    };
    assert_eq!(
        refusal(1, 2, expected, 9),
        ExternalInputReplacementError::InvalidHandle
    );
    assert_eq!(
        refusal(0, -1, expected, 9),
        ExternalInputReplacementError::InvalidFrame
    );
    assert_eq!(
        refusal(0, 4, expected, 9),
        ExternalInputReplacementError::NotPast
    );
    assert_eq!(
        refusal(0, 1, expected, 9),
        ExternalInputReplacementError::SnapshotUnavailable
    );
    assert_eq!(
        refusal(0, 2, other, 9),
        ExternalInputReplacementError::ExpectedStateMismatch
    );
    assert_eq!(
        refusal(0, 2, expected, 2),
        ExternalInputReplacementError::Conflict
    );
    session.sync_layer.input_queues[0].slots[2].revision = u64::MAX;
    let worn_out = session.input_state(0, 2).unwrap();
    assert_eq!(
        session.replace_past_input(0, 2, worn_out, 9),
        Err(ExternalInputReplacementError::RevisionOverflow)
    );
}

#[test]
fn every_cause_has_an_error_of_its_own() {
    for (cause, error) in [
        (
            InputReplacementError::InvalidHandle,
            ExternalInputReplacementError::InvalidHandle,
        ),
        (
            InputReplacementError::InvalidFrame,
            ExternalInputReplacementError::InvalidFrame,
        ),
        (
            InputReplacementError::NotPast,
            ExternalInputReplacementError::NotPast,
        ),
        (
            InputReplacementError::Finalized,
            ExternalInputReplacementError::Finalized,
        ),
        (
            InputReplacementError::SnapshotOutOfRetention,
            ExternalInputReplacementError::SnapshotUnavailable,
        ),
        (
            InputReplacementError::OutOfRetention,
            ExternalInputReplacementError::InputUnavailable,
        ),
        (
            InputReplacementError::ExpectedStateMismatch,
            ExternalInputReplacementError::ExpectedStateMismatch,
        ),
        (
            InputReplacementError::Conflict,
            ExternalInputReplacementError::Conflict,
        ),
        (
            InputReplacementError::RevisionOverflow,
            ExternalInputReplacementError::RevisionOverflow,
        ),
    ] {
        assert_eq!(ExternalInputReplacementError::of(cause), error);
    }
}

#[test]
fn history_longer_than_the_queue_stops_when_it_is_full() {
    let mut session = ExternalSession::<Game>::new(1, 128);
    for _ in 0..128 {
        advance(&mut session, &[Some(1)]);
    }
    assert!(matches!(
        session.advance_frame(&[Some(1)]),
        Err(GgrsError::PredictionThreshold)
    ));
    assert_eq!(session.current_frame(), 128);
    assert_eq!(session.sync_layer.input_queues[0].length, 128);

    let mut session = ExternalSession::<Game>::new(0, 128);
    for _ in 0..130 {
        advance(&mut session, &[]);
    }
    assert_eq!(session.current_frame(), 130);
}

#[test]
fn wrong_input_counts_are_named() {
    assert_eq!(
        wrong_input_count_message(2, 1),
        "Expected 2 inputs, got 1."
    );
    assert_eq!(
        wrong_input_count_message(1034, 9876543210),
        "Expected 1034 inputs, got 9876543210."
    );
    assert_eq!(
        wrong_input_count_message(0, 75),
        "Expected 0 inputs, got 75."
    );
}
