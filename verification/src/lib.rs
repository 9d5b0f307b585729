use vstd::prelude::*;

pub mod api;
pub mod config;
pub mod discovery;
pub mod domain;
pub mod error;
pub mod kafka;
pub mod services;
pub mod shutdown;
pub mod storage;
pub mod text;

verus! {

/// Name of the Kafka header that carries the id of the front instance that published an event.
pub const HEADER_SENDER: &'static str = "sender";

} // verus!
