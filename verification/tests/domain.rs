use skyhawk_rust::domain::{CacheRecord, Log, Minutes, StatAmount, StatValue, TimeKey};

fn minutes(v: f64) -> Option<Minutes> {
    Some(Minutes { bits: v.to_bits() })
}

fn as_f64(amount: StatAmount) -> f64 {
    match amount {
        StatAmount::Count(n) => n as f64,
        StatAmount::Minutes(m) => f64::from_bits(m.bits),
    }
}

fn log() -> Log {
    Log {
        season: "S".into(),
        team: "T".into(),
        player: "P".into(),
        points: Some(3),
        rebounds: None,
        assists: Some(4),
        steals: None,
        blocks: None,
        fouls: None,
        turnovers: None,
        minutes_played: minutes(5.5),
    }
}

fn log_record() -> Log {
    Log {
        season: "S1".into(),
        team: "TEAM".into(),
        player: "PLAYER".into(),
        points: Some(12),
        rebounds: None,
        assists: None,
        steals: None,
        blocks: None,
        fouls: None,
        turnovers: None,
        minutes_played: minutes(20.5),
    }
}

#[test]
fn every_stat_has_a_safe_database_column() {
    let values = [
        StatValue::Points,
        StatValue::Rebounds,
        StatValue::Assists,
        StatValue::Steals,
        StatValue::Blocks,
        StatValue::Fouls,
        StatValue::Turnovers,
        StatValue::MinutesPlayed,
    ];

    assert_eq!(
        values.map(StatValue::database_column),
        [
            "points",
            "rebounds",
            "assists",
            "steals",
            "blocks",
            "fouls",
            "turnovers",
            "minutes_played",
        ]
    );
}

#[test]
fn older_column_names_match_current_ones() {
    for value in [
        StatValue::Points,
        StatValue::Rebounds,
        StatValue::Assists,
        StatValue::Steals,
        StatValue::Blocks,
        StatValue::Fouls,
        StatValue::Turnovers,
        StatValue::MinutesPlayed,
    ] {
        assert_eq!(value.to_db_column_name(), value.database_column());
    }
}

#[test]
fn missing_stat_values_are_zero() {
    assert_eq!(as_f64(StatValue::Points.value_from(&log())), 3.0);
    assert_eq!(as_f64(StatValue::Rebounds.value_from(&log())), 0.0);
    assert_eq!(as_f64(StatValue::MinutesPlayed.value_from(&log())), 5.5);
}

#[test]
fn missing_minutes_are_positive_zero() {
    let mut l = log();
    l.minutes_played = None;
    assert_eq!(StatValue::MinutesPlayed.value_from(&l), StatAmount::Minutes(Minutes { bits: 0 }));
    assert_eq!(StatValue::Assists.value_from(&l), StatAmount::Count(4));
}

#[test]
fn cache_record_generates_orderable_nonzero_time_key() {
    let first = CacheRecord::new(log_record()).unwrap();
    let second = CacheRecord::new(log_record()).unwrap();

    assert!(first.time_key.0 > 0);
    assert!(first.time_key <= second.time_key);
}

#[test]
fn time_key_millis_follow_from_nanos() {
    let key = TimeKey::new().unwrap();
    assert_eq!(key.0, key.1 / 1_000_000);
    let record = CacheRecord::new(log_record()).unwrap();
    assert_eq!(record.log.player, "PLAYER");
    assert_eq!(record.log.points, Some(12));
}

#[test]
fn minutes_compare_with_zero_like_floats() {
    for v in [0.0f64, -0.0, 1.0, -1.0, 5e-324, -5e-324, f64::INFINITY, f64::NEG_INFINITY, f64::NAN, -f64::NAN, 12.5] {
        let m = Minutes { bits: v.to_bits() };
        assert_eq!(m.is_positive(), v > 0.0, "{v}");
        assert_eq!(m.is_negative(), v < 0.0, "{v}");
    }
    assert_eq!(Minutes::zero().bits, 0.0f64.to_bits());
}

#[test]
fn time_keys_are_built_from_nanoseconds() {
    assert_eq!(
        TimeKey::from_nanos(1_700_000_000_123_456_789),
        TimeKey(1_700_000_000_123, 1_700_000_000_123_456_789)
    );
    assert_eq!(TimeKey::from_nanos(999_999), TimeKey(0, 999_999));
    assert_eq!(TimeKey::from_nanos(0), TimeKey(0, 0));
    let record = CacheRecord::from_nanos(log_record(), 5_000_000);
    assert_eq!(record.time_key, TimeKey(5, 5_000_000));
    assert_eq!(record.log.player, "PLAYER");
}
