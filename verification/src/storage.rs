//! Where events are kept: the statistics query of the database, and the in-memory cache.
pub mod owners;
pub mod postgres;
pub mod runtime;
pub mod skiplist;
