//! A game event as the API receives it, and the record that carries it through the system.
use vstd::prelude::*;

verus! {

/// A number of minutes, held as the IEEE 754 binary64 bit pattern of the number
/// (what `f64::to_bits` gives). The library only ever compares it with zero and
/// hands it on; the arithmetic on it happens where floats are at home.
#[derive(Clone, Copy, Debug, PartialEq, Eq, Structural)]
pub struct Minutes {
    pub bits: u64,
}

/// Largest bit pattern of a value greater than zero: positive infinity.
pub const POSITIVE_INFINITY_BITS: u64 = 0x7FF0_0000_0000_0000;

/// Bit pattern of negative zero; the values below zero follow it.
pub const NEGATIVE_ZERO_BITS: u64 = 0x8000_0000_0000_0000;

/// Largest bit pattern of a value less than zero: negative infinity.
pub const NEGATIVE_INFINITY_BITS: u64 = 0xFFF0_0000_0000_0000;

impl Minutes {
    /// The value is greater than zero (`v > 0.0`): a positive subnormal, normal or infinity.
    pub open spec fn positive(self) -> bool {
        1 <= self.bits <= POSITIVE_INFINITY_BITS
    }

    /// The value is less than zero (`v < 0.0`); zeros and NaNs are neither.
    pub open spec fn negative(self) -> bool {
        NEGATIVE_ZERO_BITS < self.bits <= NEGATIVE_INFINITY_BITS
    }

    /// `self > 0.0`.
    pub fn is_positive(self) -> (r: bool)
        ensures
            r == self.positive(),
    {
        1 <= self.bits && self.bits <= POSITIVE_INFINITY_BITS
    }

    /// `self < 0.0`.
    pub fn is_negative(self) -> (r: bool)
        ensures
            r == self.negative(),
    {
        NEGATIVE_ZERO_BITS < self.bits && self.bits <= NEGATIVE_INFINITY_BITS
    }

    /// Positive zero, the value of missing minutes.
    pub fn zero() -> (r: Minutes)
        ensures
            r.bits == 0,
    {
        Minutes { bits: 0 }
    }
}

/// One game event: who played, and the statistics recorded for it.
#[derive(Clone, Debug)]
pub struct Log {
    pub season: String,
    pub team: String,
    pub player: String,
    pub points: Option<i32>,
    pub rebounds: Option<i32>,
    pub assists: Option<i32>,
    pub steals: Option<i32>,
    pub blocks: Option<i32>,
    pub fouls: Option<i32>,
    pub turnovers: Option<i32>,
    pub minutes_played: Option<Minutes>,
}

/// When an event was accepted: milliseconds and nanoseconds since the Unix epoch.
/// Keys order lexicographically, as the derived `Ord` of the pair does.
#[derive(Debug, Clone, Copy, PartialEq, Eq, PartialOrd, Ord, Hash, Structural)]
pub struct TimeKey(pub i64, pub i64);

/// `a` orders at or before `b` (lexicographic order on the pair).
pub open spec fn key_le(a: (i64, i64), b: (i64, i64)) -> bool {
    a.0 < b.0 || (a.0 == b.0 && a.1 <= b.1)
}

/// `a` orders strictly before `b`.
pub open spec fn key_lt(a: (i64, i64), b: (i64, i64)) -> bool {
    a.0 < b.0 || (a.0 == b.0 && a.1 < b.1)
}

impl TimeKey {
    /// The key as a pair of integers.
    pub open spec fn pair(self) -> (i64, i64) {
        (self.0, self.1)
    }

    /// The key of a moment `nanos` nanoseconds after the Unix epoch.
    pub open spec fn at_nanos(nanos: u128) -> TimeKey {
        TimeKey(#[verifier::truncate] ((nanos / 1_000_000) as i64), #[verifier::truncate] (nanos as i64))
    }

    /// The key of the moment `nanos` nanoseconds after the Unix epoch: the whole
    /// milliseconds and the nanoseconds, each cast to `i64` as `as` does.
    pub fn from_nanos(nanos: u128) -> (k: TimeKey)
        ensures
            k == TimeKey::at_nanos(nanos),
    {
        TimeKey(#[verifier::truncate] ((nanos / 1_000_000) as i64), #[verifier::truncate] (nanos as i64))
    }

    /// The key of the current moment, or `None` when the system clock reads a moment
    /// before the Unix epoch. The key is `from_nanos` of the clock's reading.
    pub fn new() -> (r: Option<TimeKey>)
        ensures
            r matches Some(k) ==> exists|nanos: u128| k == TimeKey::at_nanos(nanos),
    {
        match clock_nanos() {
            Some(nanos) => Some(TimeKey::from_nanos(nanos)),
            None => None,
        }
    }
}

/// The system clock's reading in nanoseconds since the Unix epoch, or `None` when it
/// reads a moment before the epoch.
fn clock_nanos() -> Option<u128> {
    let now = system_time_now();
    match since_unix_epoch(&now) {
        Some(elapsed) => Some(whole_nanos(&elapsed)),
        None => None,
    }
}

/// `std::time::SystemTime`, carried opaquely from the clock to the epoch difference.
#[verifier::external_type_specification]
#[verifier::external_body]
pub struct ExSystemTime(std::time::SystemTime);

/// `SystemTime::now` (std): the current reading of the system clock. Nothing is
/// promised of it, which is the time.
#[verifier::external_body]
fn system_time_now() -> std::time::SystemTime {
    std::time::SystemTime::now()
}

/// `SystemTime::duration_since(UNIX_EPOCH)` (std): the time elapsed from the Unix epoch
/// to `t`, or `None` when `t` lies before the epoch. Nothing is promised of the value.
#[verifier::external_body]
fn since_unix_epoch(t: &std::time::SystemTime) -> Option<core::time::Duration> {
    match t.duration_since(std::time::UNIX_EPOCH) {
        Ok(elapsed) => Some(elapsed),
        Err(_) => None,
    }
}

/// `Duration::as_nanos` (std): the whole nanoseconds of `d`. The duration is opaque
/// here, so nothing is promised of the value.
#[verifier::external_body]
fn whole_nanos(d: &core::time::Duration) -> u128 {
    d.as_nanos()
}

/// An event together with the moment it was accepted.
#[derive(Clone, Debug)]
pub struct CacheRecord {
    pub time_key: TimeKey,
    pub log: Log,
}

impl CacheRecord {
    /// `log` stamped with the moment `nanos` nanoseconds after the Unix epoch.
    pub fn from_nanos(log: Log, nanos: u128) -> (c: CacheRecord)
        ensures
            c.log == log,
            c.time_key == TimeKey::at_nanos(nanos),
    {
        CacheRecord { time_key: TimeKey::from_nanos(nanos), log }
    }

    /// Stamps `log` with the current time; `None` when the system clock reads a moment
    /// before the Unix epoch. The record is `from_nanos` of `log` and the clock's reading.
    pub fn new(log: Log) -> (r: Option<CacheRecord>)
        ensures
            r matches Some(c) ==> c.log == log && exists|nanos: u128| c.time_key
                == TimeKey::at_nanos(nanos),
    {
        match clock_nanos() {
            Some(nanos) => Some(CacheRecord::from_nanos(log, nanos)),
            None => None,
        }
    }
}

} // verus!
