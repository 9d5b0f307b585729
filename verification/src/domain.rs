//! Events, their keys in the cache, and the statistics that can be asked for.
pub mod log;
pub mod stat;

pub use self::log::{CacheRecord, Log, Minutes, TimeKey};
pub use self::stat::{StatAmount, StatPer, StatRequest, StatValue};
