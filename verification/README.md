# ggrs

Input queues for rollback netcode, and a transport-free session built on them,
written in Rust and verified with Verus.

- `src/config.rs`, `src/frame_info.rs`: frames, inputs, predictors.
- `src/versioned_input.rs`: inputs with provenance and revision, and the rule by
  which a past input may be replaced.
- `src/queue_model.rs`: the mathematical picture of an input queue.
- `src/input_queue.rs`: the queue itself, a ring of 128 cells.
- `src/queue_laws.rs`, `src/submission_laws.rs`: what holds across operations.
- `src/sync_layer.rs`, `src/requests.rs`, `src/message.rs`: the shared state of a
  session, what it asks of the game, how it words its refusals.
- `src/sessions/`: the session, and what holds across its calls.
