use std::collections::HashMap;
use std::sync::Arc;

use skyhawk_rust::domain::{CacheRecord, Log, Minutes, StatPer, StatRequest, StatValue, TimeKey};
use skyhawk_rust::services::statistics::{
    aggregate, answer, normalize_and_validate, validate_normalized, GroupTotals, StatisticsError,
};
use skyhawk_rust::storage::runtime::RuntimeStore;

fn as_response(groups: Vec<GroupTotals>) -> HashMap<String, HashMap<StatValue, f64>> {
    let mut response = HashMap::new();
    for group in groups {
        let mut values = HashMap::new();
        for total in group.totals {
            let value = if total.stat == StatValue::MinutesPlayed {
                let mut sum = 0.0f64;
                for m in &total.minutes {
                    for _ in 0..total.occurrences {
                        sum += f64::from_bits(m.bits);
                    }
                }
                sum
            } else {
                total.occurrences as f64 * total.count as f64
            };
            values.insert(total.stat, value);
        }
        response.insert(group.group, values);
    }
    response
}

fn event(team: &str, player: &str, points: Option<i32>, minutes: Option<f64>) -> Log {
    Log {
        season: "S1".into(),
        team: team.into(),
        player: player.into(),
        points,
        rebounds: None,
        assists: None,
        steals: None,
        blocks: None,
        fouls: None,
        turnovers: None,
        minutes_played: minutes.map(|m| Minutes { bits: m.to_bits() }),
    }
}

#[test]
fn aggregates_selected_values_per_team() {
    let mut log = event("TEAM", "PLAYER", Some(10), Some(12.5));
    log.rebounds = Some(4);
    let records = vec![Arc::new(CacheRecord::new(log).unwrap())];
    let request = StatRequest {
        season: "S1".into(),
        per: StatPer::Team,
        values: vec![StatValue::Points, StatValue::MinutesPlayed],
    };

    let result = as_response(aggregate(records, &request));

    assert_eq!(result["TEAM"][&StatValue::Points], 10.0);
    assert_eq!(result["TEAM"][&StatValue::MinutesPlayed], 12.5);
    assert!(!result["TEAM"].contains_key(&StatValue::Rebounds));
}

#[test]
fn aggregates_multiple_records_per_player() {
    let make_record = |team: &str, points| Arc::new(CacheRecord::new(event(team, "PLAYER", Some(points), None)).unwrap());
    let request = StatRequest {
        season: "S1".into(),
        per: StatPer::Player,
        values: vec![StatValue::Points],
    };

    let result = as_response(aggregate(vec![make_record("A", 2), make_record("B", 3)], &request));

    assert_eq!(result["PLAYER"][&StatValue::Points], 5.0);
}

#[test]
fn groups_come_in_order_of_first_appearance() {
    let records = vec![
        Arc::new(CacheRecord::new(event("B", "P1", Some(1), Some(1.5))).unwrap()),
        Arc::new(CacheRecord::new(event("A", "P2", Some(2), None)).unwrap()),
        Arc::new(CacheRecord::new(event("B", "P3", None, Some(2.0))).unwrap()),
    ];
    let request = StatRequest {
        season: "S1".into(),
        per: StatPer::Team,
        values: vec![StatValue::MinutesPlayed, StatValue::Points, StatValue::MinutesPlayed],
    };
    let groups = aggregate(records, &request);
    assert_eq!(groups.len(), 2);
    assert_eq!(groups[0].group, "B");
    assert_eq!(groups[1].group, "A");
    let b = &groups[0].totals;
    assert_eq!(b.len(), 2);
    assert_eq!(b[0].stat, StatValue::MinutesPlayed);
    assert_eq!(b[0].occurrences, 2);
    assert_eq!(b[0].minutes, vec![Minutes { bits: 1.5f64.to_bits() }, Minutes { bits: 2.0f64.to_bits() }]);
    assert_eq!(b[1].stat, StatValue::Points);
    assert_eq!(b[1].count, 1);
    assert!(b[1].minutes.is_empty());
}

#[test]
fn normalizes_season_and_deduplicates_values_without_reordering() {
    let mut request = StatRequest {
        season: "  season  ".into(),
        per: StatPer::Team,
        values: vec![StatValue::Points, StatValue::Rebounds, StatValue::Points],
    };

    normalize_and_validate(&mut request).unwrap();

    assert_eq!(request.season, "SEASON");
    assert_eq!(request.values, [StatValue::Points, StatValue::Rebounds]);
}

#[test]
fn rejects_blank_season_or_empty_values() {
    for mut request in [
        StatRequest {
            season: "  ".into(),
            per: StatPer::Team,
            values: vec![StatValue::Points],
        },
        StatRequest {
            season: "S1".into(),
            per: StatPer::Team,
            values: vec![],
        },
    ] {
        assert!(matches!(
            normalize_and_validate(&mut request),
            Err(StatisticsError::InvalidRequest(_))
        ));
    }
}

#[test]
fn invalid_request_message_is_fixed() {
    let mut request = StatRequest { season: "".into(), per: StatPer::Player, values: vec![] };
    match normalize_and_validate(&mut request) {
        Err(StatisticsError::InvalidRequest(m)) => {
            assert_eq!(m, "Request body is incorrect: provide season and values")
        }
        _ => panic!("expected an invalid request"),
    }
}

#[test]
fn answer_combines_database_cache_and_other_fronts() {
    let mut store = RuntimeStore::new();
    let cached = CacheRecord { time_key: TimeKey(5, 5), log: event("T", "P", Some(7), None) };
    store.log(cached);
    let stored_same_key = CacheRecord { time_key: TimeKey(5, 5), log: event("T", "P", Some(100), None) };
    let stored_other = CacheRecord { time_key: TimeKey(1, 1), log: event("T", "P", Some(3), None) };
    let front = CacheRecord { time_key: TimeKey(9, 9), log: event("T", "Q", Some(2), None) };
    let request = StatRequest { season: "S1".into(), per: StatPer::Team, values: vec![StatValue::Points] };
    let result = as_response(answer(&mut store, &request, vec![stored_same_key, stored_other], vec![front]));
    assert_eq!(result["T"][&StatValue::Points], 12.0);
    assert_eq!(store.view("S1").len(), 2);
}

#[test]
fn validate_normalized_keeps_season_and_drops_repeats() {
    let mut request = StatRequest {
        season: " s ".into(),
        per: StatPer::Player,
        values: vec![StatValue::Fouls, StatValue::Fouls, StatValue::Steals, StatValue::Fouls],
    };
    validate_normalized(&mut request).unwrap();
    assert_eq!(request.season, " s ");
    assert_eq!(request.values, [StatValue::Fouls, StatValue::Steals]);

    let mut empty = StatRequest { season: "".into(), per: StatPer::Player, values: vec![StatValue::Fouls] };
    assert!(validate_normalized(&mut empty).is_err());
    assert_eq!(empty.values, [StatValue::Fouls]);
}

#[test]
fn totals_do_not_depend_on_event_order() {
    let a = CacheRecord { time_key: TimeKey(1, 1), log: event("X", "P1", Some(4), Some(1.25)) };
    let b = CacheRecord { time_key: TimeKey(2, 2), log: event("X", "P2", Some(6), Some(2.5)) };
    let c = CacheRecord { time_key: TimeKey(3, 3), log: event("Y", "P3", None, None) };
    let request = StatRequest {
        season: "S1".into(),
        per: StatPer::Team,
        values: vec![StatValue::Points, StatValue::MinutesPlayed],
    };
    let forward = as_response(aggregate(
        vec![Arc::new(a.clone()), Arc::new(b.clone()), Arc::new(c.clone())],
        &request,
    ));
    let backward = as_response(aggregate(vec![Arc::new(c), Arc::new(b), Arc::new(a)], &request));
    assert_eq!(forward, backward);
    assert_eq!(forward["X"][&StatValue::Points], 10.0);
    assert_eq!(forward["X"][&StatValue::MinutesPlayed], 3.75);
    assert_eq!(forward["Y"][&StatValue::Points], 0.0);
}

#[test]
fn repeated_values_count_each_time_before_normalization() {
    let records = vec![Arc::new(CacheRecord::new(event("T", "P", Some(3), Some(1.5))).unwrap())];
    let request = StatRequest {
        season: "S1".into(),
        per: StatPer::Player,
        values: vec![StatValue::Points, StatValue::Points, StatValue::MinutesPlayed, StatValue::MinutesPlayed],
    };
    let result = as_response(aggregate(records, &request));
    assert_eq!(result["P"][&StatValue::Points], 6.0);
    assert_eq!(result["P"][&StatValue::MinutesPlayed], 3.0);
}
