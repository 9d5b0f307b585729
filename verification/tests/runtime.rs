use skyhawk_rust::api::stat_copy::copy;
use skyhawk_rust::domain::{CacheRecord, Log, TimeKey};
use skyhawk_rust::storage::runtime::RuntimeStore;

fn record(season: &str, team: &str, player: &str, time: i64) -> CacheRecord {
    CacheRecord {
        time_key: TimeKey(time, time),
        log: Log {
            season: season.into(),
            team: team.into(),
            player: player.into(),
            steals: Some(1),
            points: None,
            rebounds: None,
            assists: None,
            blocks: None,
            fouls: None,
            turnovers: None,
            minutes_played: None,
        },
    }
}

#[test]
fn stores_and_reads_records_for_requested_season_only() {
    let mut store = RuntimeStore::new();
    store.log(record("S1", "T", "P", 1));
    store.log(record("S2", "T", "P", 2));

    assert_eq!(store.view("S1").len(), 1);
    assert_eq!(store.view("S2").len(), 1);
    assert!(store.view("UNKNOWN").is_empty());
}

#[test]
fn same_time_key_replaces_existing_record() {
    let mut store = RuntimeStore::new();
    store.log(record("S", "T", "P", 1));
    store.log(record("S", "T", "P", 1));

    assert_eq!(store.view("S").len(), 1);
}

#[test]
fn removal_marker_removes_only_records_up_to_marker_for_same_player() {
    let mut store = RuntimeStore::new();
    store.log(record("S", "T", "P", 1));
    store.log(record("S", "T", "P", 2));
    store.log(record("S", "T", "P", 3));
    store.log(record("S", "T", "OTHER", 1));

    store.remove(&record("S", "T", "P", 2));

    let view = store.view("S");
    assert_eq!(view.len(), 2);
    assert!(
        view.iter()
            .any(|record| record.log.player == "P" && record.time_key.0 == 3)
    );
    assert!(view.iter().any(|record| record.log.player == "OTHER"));
}

#[test]
fn removing_unknown_path_is_a_noop() {
    let mut store = RuntimeStore::new();
    store.log(record("S", "T", "P", 1));

    store.remove(&record("UNKNOWN", "T", "P", 5));
    store.remove(&record("S", "UNKNOWN", "P", 5));
    store.remove(&record("S", "T", "UNKNOWN", 5));

    assert_eq!(store.view("S").len(), 1);
}

#[test]
fn removal_compares_time_keys_lexicographically() {
    let mut store = RuntimeStore::default();
    let mut a = record("S", "T", "P", 1);
    a.time_key = TimeKey(4, 9);
    let mut b = record("S", "T", "P", 1);
    b.time_key = TimeKey(5, 1);
    store.log(a);
    store.log(b);
    let mut marker = record("S", "T", "P", 1);
    marker.time_key = TimeKey(4, 10);
    store.remove(&marker);
    let view = store.view("S");
    assert_eq!(view.len(), 1);
    assert_eq!(view[0].time_key, TimeKey(5, 1));
}

#[test]
fn returns_no_content_for_missing_season() {
    let store = RuntimeStore::new();
    assert!(copy(&store, "S1").is_none());
}

#[test]
fn normalizes_season_and_returns_records() {
    let mut store = RuntimeStore::new();
    store.log(CacheRecord { time_key: TimeKey(1, 1), ..record("S1", "T", "P", 1) });

    let records = copy(&store, "s1").unwrap();

    assert_eq!(records.len(), 1);
    assert_eq!(records[0].log.player, "P");
}

#[test]
fn a_players_events_are_listed_by_ascending_time_key() {
    let mut store = RuntimeStore::new();
    store.log(record("S", "T", "P", 3));
    store.log(record("S", "T", "Q", 9));
    store.log(record("S", "T", "P", 1));
    store.log(record("S", "T", "Q", 4));
    store.log(record("S", "T", "P", 2));

    let view = store.view("S");
    assert_eq!(view.len(), 5);
    for player in ["P", "Q"] {
        let times: Vec<i64> = view.iter().filter(|r| r.log.player == player).map(|r| r.time_key.0).collect();
        let mut sorted = times.clone();
        sorted.sort();
        assert_eq!(times, sorted, "{player}");
    }
}
