//! The statistics use case and the exchange of cached events between front nodes.
pub mod statistics;
pub mod front_sync;
