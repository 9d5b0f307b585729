use skyhawk_rust::api::stat::to_http_error;
use skyhawk_rust::config::{Config, ConfigSource};
use skyhawk_rust::discovery::{lists_different, work_on_state};
use skyhawk_rust::domain::{CacheRecord, Log, StatValue, TimeKey};
use skyhawk_rust::error::AppError;
use skyhawk_rust::kafka::back_worker::{group_by_key, sort_by_time_key};
use skyhawk_rust::kafka::front_consumer::{apply, consumer_step, message_action, ConsumerEvent, ConsumerStep, MessageAction};
use skyhawk_rust::services::front_sync::{classify_copy_status, flatten_replies, stat_copy_url, CopyReply};
use skyhawk_rust::services::statistics::StatisticsError;
use skyhawk_rust::shutdown::{join_step, SupervisorStep, TaskOutcome};
use skyhawk_rust::storage::postgres::statistics_query;
use skyhawk_rust::storage::runtime::RuntimeStore;
use skyhawk_rust::text::{is_blank, normalize, trim};
use skyhawk_rust::HEADER_SENDER;

fn record(player: &str, t1: i64, t2: i64, points: i32) -> CacheRecord {
    CacheRecord {
        time_key: TimeKey(t1, t2),
        log: Log {
            season: "S".into(),
            team: "T".into(),
            player: player.into(),
            points: Some(points),
            rebounds: None,
            assists: None,
            steals: None,
            blocks: None,
            fouls: None,
            turnovers: None,
            minutes_played: None,
        },
    }
}

fn config() -> Config {
    Config {
        kafka_topic_main: "main".into(),
        kafka_topic_removal: "removal".into(),
        kafka_group_id: "group".into(),
        kafka_bootstrap_servers: "localhost:9092".into(),
        database_url: "postgres://localhost/test".into(),
        instance_id: "id".into(),
        service_discovery_self_url: None,
    }
}

fn source() -> ConfigSource {
    ConfigSource {
        kafka_topic_main: Some("main".into()),
        kafka_topic_removal: Some("removal".into()),
        kafka_group_id: Some("group".into()),
        kafka_bootstrap_servers: Some("localhost:9092".into()),
        database_url: Some("postgres://localhost/test".into()),
        service_discovery_self_url: None,
        hostname: None,
    }
}

#[test]
fn statistics_query_contains_only_requested_whitelisted_columns() {
    let query = statistics_query(&[StatValue::Points, StatValue::MinutesPlayed]);

    assert_eq!(
        query,
        "SELECT t1, t2, season, team, player, points, minutes_played FROM nba_stats WHERE season = $1"
    );
}

#[test]
fn statistics_query_with_one_column() {
    assert_eq!(
        statistics_query(&[StatValue::Fouls]),
        "SELECT t1, t2, season, team, player, fouls FROM nba_stats WHERE season = $1"
    );
}

#[test]
fn config_reads_required_values() {
    let config = Config::new(&source()).unwrap();
    assert_eq!(config.kafka_topic_main, "main");
    assert_eq!(config.kafka_group_id, "group");
    assert_eq!(config.instance_id.len(), 36);
    assert!(config.service_discovery_self_url.is_none());
}

#[test]
fn config_reports_first_missing_variable() {
    let mut s = source();
    s.kafka_topic_removal = None;
    s.database_url = None;
    match Config::new(&s) {
        Err(AppError::Custom(m)) => assert_eq!(m, "KAFKA_TOPIC_REMOVAL must be set"),
        Ok(_) => panic!("expected an error"),
    }
}

#[test]
fn config_resolves_docker_host_and_random_group() {
    let mut s = source();
    s.kafka_group_id = Some("random".into());
    s.service_discovery_self_url = Some("docker.host".into());
    s.hostname = Some("front-7".into());
    let config = Config::new(&s).unwrap();
    assert_ne!(config.kafka_group_id, "random");
    assert_eq!(config.kafka_group_id.len(), 36);
    assert_eq!(config.service_discovery_self_url.as_deref(), Some("http://front-7:8080"));

    s.hostname = None;
    match Config::new(&s) {
        Err(AppError::Custom(m)) => assert_eq!(m, "HOSTNAME must be set"),
        Ok(_) => panic!("expected an error"),
    }
    s.service_discovery_self_url = Some("http://x:1".into());
    assert_eq!(Config::new(&s).unwrap().service_discovery_self_url.as_deref(), Some("http://x:1"));
}

#[test]
fn state_comparison_and_update_work() {
    let mut services: Vec<String> = Vec::new();
    assert!(lists_different(&vec!["http://front-1".into()], &services));

    work_on_state(vec!["http://front-1".into()], &mut services);

    assert!(!lists_different(&vec!["http://front-1".into()], &services));
    assert_eq!(services, ["http://front-1"]);
}

#[test]
fn front_consumer_caches_only_foreign_events_and_applies_markers() {
    let config = config();
    assert_eq!(message_action(&config, "main", Some("other")), MessageAction::Log);
    assert_eq!(message_action(&config, "main", Some("id")), MessageAction::Ignore);
    assert_eq!(message_action(&config, "main", None), MessageAction::Ignore);
    assert_eq!(message_action(&config, "removal", None), MessageAction::Remove);
    assert_eq!(message_action(&config, "elsewhere", Some("other")), MessageAction::Ignore);
    assert_eq!(HEADER_SENDER, "sender");

    let mut store = RuntimeStore::new();
    apply(&mut store, MessageAction::Log, record("P", 1, 1, 1));
    apply(&mut store, MessageAction::Log, record("P", 2, 2, 1));
    apply(&mut store, MessageAction::Ignore, record("P", 3, 3, 1));
    assert_eq!(store.view("S").len(), 2);
    apply(&mut store, MessageAction::Remove, record("P", 1, 1, 1));
    assert_eq!(store.view("S").len(), 1);
}

#[test]
fn back_worker_groups_by_key_in_order() {
    let batch = vec![
        (Some(b"a".to_vec()), Some(b"1".to_vec())),
        (None, Some(b"x".to_vec())),
        (Some(b"b".to_vec()), Some(b"2".to_vec())),
        (Some(b"a".to_vec()), None),
        (Some(b"a".to_vec()), Some(b"3".to_vec())),
    ];
    let groups = group_by_key(batch);
    assert_eq!(groups.len(), 2);
    assert_eq!(groups[0].key, b"a");
    assert_eq!(groups[0].payloads, vec![b"1".to_vec(), b"3".to_vec()]);
    assert_eq!(groups[1].key, b"b");
    assert_eq!(groups[1].payloads, vec![b"2".to_vec()]);
}

#[test]
fn back_worker_sorts_stably_by_time_key() {
    let sorted = sort_by_time_key(vec![
        record("P", 2, 0, 1),
        record("P", 1, 5, 2),
        record("P", 1, 5, 3),
        record("P", 1, 2, 4),
    ]);
    let points: Vec<i32> = sorted.iter().map(|r| r.log.points.unwrap()).collect();
    assert_eq!(points, [4, 2, 3, 1]);
    assert_eq!(sorted.last().unwrap().time_key, TimeKey(2, 0));
}

#[test]
fn front_sync_helpers() {
    assert_eq!(stat_copy_url("http://front-1:8080"), "http://front-1:8080/stat-copy");
    assert_eq!(classify_copy_status(200), CopyReply::Records);
    assert_eq!(classify_copy_status(204), CopyReply::NoRecords);
    assert_eq!(classify_copy_status(500), CopyReply::Unexpected);
    let all = flatten_replies(vec![Some(vec![record("A", 1, 1, 1)]), None, Some(vec![record("B", 2, 2, 2), record("C", 3, 3, 3)])]);
    let players: Vec<&str> = all.iter().map(|r| r.log.player.as_str()).collect();
    assert_eq!(players, ["A", "B", "C"]);
    assert!(flatten_replies(vec![None, None]).is_empty());
}

#[test]
fn supervisor_cancels_on_any_failure() {
    assert_eq!(join_step(TaskOutcome::Completed, 1), SupervisorStep::WaitForNext);
    assert_eq!(join_step(TaskOutcome::Completed, 0), SupervisorStep::Finished);
    assert_eq!(join_step(TaskOutcome::Failed, 3), SupervisorStep::CancelAll);
    assert_eq!(join_step(TaskOutcome::Panicked, 0), SupervisorStep::CancelAll);
    assert_eq!(join_step(TaskOutcome::Aborted, 2), SupervisorStep::CancelAll);
}

#[test]
fn invalid_requests_answer_unprocessable_entity() {
    let (status, body) = to_http_error(StatisticsError::InvalidRequest("bad".into()));
    assert_eq!(status, 422);
    assert_eq!(body, "bad");
}

#[test]
fn trimming_and_blank_checks_follow_unicode_whitespace() {
    assert_eq!(trim("\u{2003} a b \u{85}\n"), "a b");
    assert_eq!(trim("   "), "");
    assert!(is_blank(""));
    assert!(is_blank(" \u{a0}\u{3000}"));
    assert!(!is_blank(" x "));
    for c in ['\u{0}', '\u{1c}', '\u{200b}', '\u{feff}', 'a'] {
        assert_eq!(skyhawk_rust::text::is_whitespace(c), c.is_whitespace(), "{c:?}");
    }
    for c in [' ', '\t', '\u{b}', '\u{85}', '\u{1680}', '\u{200a}', '\u{2028}', '\u{202f}', '\u{205f}', '\u{3000}'] {
        assert!(skyhawk_rust::text::is_whitespace(c));
    }
}

#[test]
fn removal_marker_of_a_batch_clears_the_batch_from_the_cache() {
    let batch = vec![record("P", 3, 1, 1), record("P", 1, 9, 2), record("P", 2, 0, 3)];
    let mut store = RuntimeStore::new();
    for r in &batch {
        store.log(r.clone());
    }
    store.log(record("P", 4, 0, 4));
    store.log(record("Q", 1, 0, 5));
    let sorted = sort_by_time_key(batch);
    let marker = sorted.last().unwrap().clone();
    assert_eq!(marker.time_key, TimeKey(3, 1));
    store.remove(&marker);
    let mut left: Vec<(String, i64)> = store
        .view("S")
        .iter()
        .map(|r| (r.log.player.clone(), r.time_key.0))
        .collect();
    left.sort();
    assert_eq!(left, [("P".to_string(), 4), ("Q".to_string(), 1)]);
}

fn assert_uuid_text(text: &str) {
    assert_eq!(text.len(), 36, "{text}");
    for (i, c) in text.chars().enumerate() {
        if [8, 13, 18, 23].contains(&i) {
            assert_eq!(c, '-', "{text}");
        } else {
            assert!(c.is_ascii_digit() || ('a'..='f').contains(&c), "{text}");
        }
    }
}

#[test]
fn random_identifiers_are_lower_case_hyphenated_uuids() {
    let mut s = source();
    s.kafka_group_id = Some("random".into());
    let config = Config::new(&s).unwrap();
    assert_uuid_text(&config.kafka_group_id);
    assert_uuid_text(&config.instance_id);
    assert_ne!(config.kafka_group_id, config.instance_id);
}

#[test]
fn consumer_processes_messages_retries_missing_topics_and_fails_otherwise() {
    assert_eq!(consumer_step(ConsumerEvent::Message), ConsumerStep::Process);
    assert_eq!(consumer_step(ConsumerEvent::TopicUnavailable), ConsumerStep::RetryLater);
    assert_eq!(consumer_step(ConsumerEvent::Error), ConsumerStep::Fail);
}

#[test]
fn blank_text_normalizes_to_empty() {
    assert_eq!(normalize("  \u{3000}"), "");
    assert_eq!(normalize(" s2024 "), "S2024");
}
