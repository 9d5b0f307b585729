//! The statistics a client can ask for, and how each is read from an event.
use vstd::prelude::*;
use super::log::{Log, Minutes};

verus! {

/// Whether statistics are grouped by team or by player.
#[derive(Clone, Copy, Debug, PartialEq, Eq, Structural)]
pub enum StatPer {
    Team,
    Player,
}

/// One of the statistics an event can carry.
#[derive(Clone, Copy, Debug, PartialEq, Eq, Hash, Structural)]
pub enum StatValue {
    Points,
    Rebounds,
    Assists,
    Steals,
    Blocks,
    Fouls,
    Turnovers,
    MinutesPlayed,
}

/// The database column that holds a statistic.
pub open spec fn column_name(v: StatValue) -> Seq<char> {
    match v {
        StatValue::Points => "points"@,
        StatValue::Rebounds => "rebounds"@,
        StatValue::Assists => "assists"@,
        StatValue::Steals => "steals"@,
        StatValue::Blocks => "blocks"@,
        StatValue::Fouls => "fouls"@,
        StatValue::Turnovers => "turnovers"@,
        StatValue::MinutesPlayed => "minutes_played"@,
    }
}

/// How much of a statistic one event contributes: a whole number for the counted
/// statistics, a number of minutes for the time played.
#[derive(Clone, Copy, Debug, PartialEq, Eq, Structural)]
pub enum StatAmount {
    Count(i64),
    Minutes(Minutes),
}

/// A missing counted statistic counts as zero.
pub open spec fn count_of(v: Option<i32>) -> i64 {
    match v {
        Some(n) => n as i64,
        None => 0,
    }
}

/// The amount of statistic `v` that `log` carries, zero where it carries none.
pub open spec fn amount_of(v: StatValue, log: Log) -> StatAmount {
    match v {
        StatValue::Points => StatAmount::Count(count_of(log.points)),
        StatValue::Rebounds => StatAmount::Count(count_of(log.rebounds)),
        StatValue::Assists => StatAmount::Count(count_of(log.assists)),
        StatValue::Steals => StatAmount::Count(count_of(log.steals)),
        StatValue::Blocks => StatAmount::Count(count_of(log.blocks)),
        StatValue::Fouls => StatAmount::Count(count_of(log.fouls)),
        StatValue::Turnovers => StatAmount::Count(count_of(log.turnovers)),
        StatValue::MinutesPlayed => StatAmount::Minutes(
            match log.minutes_played {
                Some(m) => m,
                None => Minutes { bits: 0 },
            },
        ),
    }
}

/// Each statistic is read from the event's own field for it and from nothing else:
/// setting that field to `n` makes the amount `n` (a missing value makes it zero), and
/// setting it leaves the amount of every other statistic unchanged.
pub proof fn law_amount_reads_own_field(log: Log, n: i32, m: Minutes)
    ensures
        amount_of(StatValue::Points, Log { points: Some(n), ..log }) == StatAmount::Count(n as i64),
        amount_of(StatValue::Points, Log { points: None, ..log }) == StatAmount::Count(0),
        forall|v: StatValue| v != StatValue::Points ==> #[trigger] amount_of(v, Log { points: Some(n), ..log }) == amount_of(v, log),
        forall|v: StatValue| v != StatValue::Points ==> #[trigger] amount_of(v, Log { points: None, ..log }) == amount_of(v, log),
        amount_of(StatValue::Rebounds, Log { rebounds: Some(n), ..log }) == StatAmount::Count(n as i64),
        amount_of(StatValue::Rebounds, Log { rebounds: None, ..log }) == StatAmount::Count(0),
        forall|v: StatValue| v != StatValue::Rebounds ==> #[trigger] amount_of(v, Log { rebounds: Some(n), ..log }) == amount_of(v, log),
        forall|v: StatValue| v != StatValue::Rebounds ==> #[trigger] amount_of(v, Log { rebounds: None, ..log }) == amount_of(v, log),
        amount_of(StatValue::Assists, Log { assists: Some(n), ..log }) == StatAmount::Count(n as i64),
        amount_of(StatValue::Assists, Log { assists: None, ..log }) == StatAmount::Count(0),
        forall|v: StatValue| v != StatValue::Assists ==> #[trigger] amount_of(v, Log { assists: Some(n), ..log }) == amount_of(v, log),
        forall|v: StatValue| v != StatValue::Assists ==> #[trigger] amount_of(v, Log { assists: None, ..log }) == amount_of(v, log),
        amount_of(StatValue::Steals, Log { steals: Some(n), ..log }) == StatAmount::Count(n as i64),
        amount_of(StatValue::Steals, Log { steals: None, ..log }) == StatAmount::Count(0),
        forall|v: StatValue| v != StatValue::Steals ==> #[trigger] amount_of(v, Log { steals: Some(n), ..log }) == amount_of(v, log),
        forall|v: StatValue| v != StatValue::Steals ==> #[trigger] amount_of(v, Log { steals: None, ..log }) == amount_of(v, log),
        amount_of(StatValue::Blocks, Log { blocks: Some(n), ..log }) == StatAmount::Count(n as i64),
        amount_of(StatValue::Blocks, Log { blocks: None, ..log }) == StatAmount::Count(0),
        forall|v: StatValue| v != StatValue::Blocks ==> #[trigger] amount_of(v, Log { blocks: Some(n), ..log }) == amount_of(v, log),
        forall|v: StatValue| v != StatValue::Blocks ==> #[trigger] amount_of(v, Log { blocks: None, ..log }) == amount_of(v, log),
        amount_of(StatValue::Fouls, Log { fouls: Some(n), ..log }) == StatAmount::Count(n as i64),
        amount_of(StatValue::Fouls, Log { fouls: None, ..log }) == StatAmount::Count(0),
        forall|v: StatValue| v != StatValue::Fouls ==> #[trigger] amount_of(v, Log { fouls: Some(n), ..log }) == amount_of(v, log),
        forall|v: StatValue| v != StatValue::Fouls ==> #[trigger] amount_of(v, Log { fouls: None, ..log }) == amount_of(v, log),
        amount_of(StatValue::Turnovers, Log { turnovers: Some(n), ..log }) == StatAmount::Count(n as i64),
        amount_of(StatValue::Turnovers, Log { turnovers: None, ..log }) == StatAmount::Count(0),
        forall|v: StatValue| v != StatValue::Turnovers ==> #[trigger] amount_of(v, Log { turnovers: Some(n), ..log }) == amount_of(v, log),
        forall|v: StatValue| v != StatValue::Turnovers ==> #[trigger] amount_of(v, Log { turnovers: None, ..log }) == amount_of(v, log),
        amount_of(StatValue::MinutesPlayed, Log { minutes_played: Some(m), ..log }) == StatAmount::Minutes(m),
        amount_of(StatValue::MinutesPlayed, Log { minutes_played: None, ..log }) == StatAmount::Minutes(Minutes { bits: 0 }),
        forall|v: StatValue| v != StatValue::MinutesPlayed ==> #[trigger] amount_of(v, Log { minutes_played: Some(m), ..log }) == amount_of(v, log),
        forall|v: StatValue| v != StatValue::MinutesPlayed ==> #[trigger] amount_of(v, Log { minutes_played: None, ..log }) == amount_of(v, log),
{
}

fn count(v: Option<i32>) -> (r: i64)
    ensures
        r == count_of(v),
{
    match v {
        Some(n) => n as i64,
        None => 0,
    }
}

impl StatValue {
    /// The database column of this statistic; each is one of a fixed set of names.
    pub fn database_column(self) -> (r: &'static str)
        ensures
            r@ == column_name(self),
    {
        match self {
            StatValue::Points => "points",
            StatValue::Rebounds => "rebounds",
            StatValue::Assists => "assists",
            StatValue::Steals => "steals",
            StatValue::Blocks => "blocks",
            StatValue::Fouls => "fouls",
            StatValue::Turnovers => "turnovers",
            StatValue::MinutesPlayed => "minutes_played",
        }
    }

    /// The database column of this statistic (the same as `database_column`).
    pub fn to_db_column_name(&self) -> (r: &'static str)
        ensures
            r@ == column_name(*self),
    {
        self.database_column()
    }

    /// The amount of this statistic in `log`; a missing value is zero.
    pub fn value_from(self, log: &Log) -> (r: StatAmount)
        ensures
            r == amount_of(self, *log),
    {
        match self {
            StatValue::Points => StatAmount::Count(count(log.points)),
            StatValue::Rebounds => StatAmount::Count(count(log.rebounds)),
            StatValue::Assists => StatAmount::Count(count(log.assists)),
            StatValue::Steals => StatAmount::Count(count(log.steals)),
            StatValue::Blocks => StatAmount::Count(count(log.blocks)),
            StatValue::Fouls => StatAmount::Count(count(log.fouls)),
            StatValue::Turnovers => StatAmount::Count(count(log.turnovers)),
            StatValue::MinutesPlayed => StatAmount::Minutes(
                match log.minutes_played {
                    Some(m) => m,
                    None => Minutes::zero(),
                },
            ),
        }
    }
}

/// A request for statistics of a season, grouped by team or player.
#[derive(Clone, Debug)]
pub struct StatRequest {
    pub season: String,
    pub per: StatPer,
    pub values: Vec<StatValue>,
}

} // verus!
