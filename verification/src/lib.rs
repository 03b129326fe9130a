//! Per-player input queues for rollback netcode, and a transport-free session
//! built on them.

pub mod config;
pub mod frame_info;
pub mod input_queue;
pub mod message;
pub mod queue_effects;
pub mod queue_laws;
pub mod queue_model;
pub mod requests;
pub mod sessions;
pub mod submission_laws;
pub mod sync_layer;
pub mod versioned_input;
