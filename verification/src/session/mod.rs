//! The document session's adapter logic: what the session's core state becomes at the
//! boundary, the reasons given to the user, when a change is announced, and the decisions
//! around the core's operations (read on first access, new, save, discard, close, hand-over).
pub mod state;
pub mod commands;
pub mod host;
pub mod menu;
pub mod verification;
pub mod watch;
