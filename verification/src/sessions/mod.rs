//! Sessions.

pub mod external_input;
pub mod external_session;
pub mod session_effects;
pub mod session_laws;
