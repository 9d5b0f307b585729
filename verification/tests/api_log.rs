use skyhawk_rust::api::log::accept;
use skyhawk_rust::domain::{Log, Minutes};

fn valid_log() -> Log {
    Log {
        season: " season ".into(),
        team: " team ".into(),
        player: " player ".into(),
        points: Some(1),
        rebounds: None,
        assists: None,
        steals: None,
        blocks: None,
        fouls: None,
        turnovers: None,
        minutes_played: None,
    }
}

#[test]
fn accepts_complete_log_with_positive_value() {
    assert!(valid_log().validate().is_empty());
}

#[test]
fn rejects_blank_required_fields() {
    let mut log = valid_log();
    log.season = "  ".into();
    log.team.clear();

    let errors = log.validate();

    assert!(errors.iter().any(|error| error.contains("Season")));
    assert!(errors.iter().any(|error| error.contains("Team")));
}

#[test]
fn rejects_negative_values() {
    let mut log = valid_log();
    log.points = Some(-1);

    let errors = log.validate();

    assert!(errors.iter().any(|error| error.contains("positive")));
    assert!(errors.iter().any(|error| error.contains("no values")));
}

#[test]
fn requires_at_least_one_positive_statistic() {
    let mut log = valid_log();
    log.points = Some(0);

    assert_eq!(log.validate(), ["The Request contains no values"]);
}

#[test]
fn kafka_key_contains_normalized_identity() {
    let log = Log {
        season: "S1".into(),
        team: "TEAM".into(),
        player: "PLAYER".into(),
        ..valid_log()
    };

    assert_eq!(log.kafka_key(), "log-S1-TEAM-PLAYER");
}

#[test]
fn reports_every_problem_in_order() {
    let log = Log {
        season: "".into(),
        team: "\u{3000}\t".into(),
        player: "p".into(),
        points: Some(-2),
        rebounds: None,
        assists: Some(-1),
        steals: None,
        blocks: None,
        fouls: None,
        turnovers: Some(0),
        minutes_played: Some(Minutes { bits: (-3.5f64).to_bits() }),
    };
    assert_eq!(
        log.validate(),
        [
            "Season value is not correct",
            "Team value is not correct",
            "Assists value must be a positive value",
            "Points value must be a positive value",
            "Minutes Played value must be a positive value",
            "The Request contains no values",
        ]
    );
}

#[test]
fn positive_minutes_alone_are_enough() {
    let mut log = valid_log();
    log.points = None;
    log.minutes_played = Some(Minutes { bits: 0.25f64.to_bits() });
    assert!(log.validate().is_empty());
    log.minutes_played = Some(Minutes { bits: f64::NAN.to_bits() });
    assert_eq!(log.validate(), ["The Request contains no values"]);
}

#[test]
fn accept_joins_errors_by_line() {
    let mut log = valid_log();
    log.player = " ".into();
    log.points = Some(-4);
    assert_eq!(
        accept(log).unwrap_err(),
        "Player value is not correct\nPoints value must be a positive value\nThe Request contains no values"
    );
}

#[test]
fn accept_normalizes_identity() {
    let accepted = accept(valid_log()).unwrap();
    assert_eq!(accepted.season, "SEASON");
    assert_eq!(accepted.team, "TEAM");
    assert_eq!(accepted.player, "PLAYER");
    assert_eq!(accepted.points, Some(1));
}
