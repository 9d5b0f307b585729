//! What the HTTP endpoints decide: which events are accepted, how errors are answered,
//! and what a season copy holds.
pub mod log;
pub mod stat;
pub mod stat_copy;
