//! What the Kafka workers decide: which messages change the cache, and how a batch of
//! stored events is grouped, ordered and acknowledged.
pub mod back_worker;
pub mod front_consumer;
