//! Accepting a logged event: validation, normal form, and its Kafka key.
use vstd::prelude::*;
use crate::domain::log::{Log, Minutes};
use crate::text::{is_blank, is_blank_seq, join, joined, normalize, normalized, views};

verus! {

/// The error for a required text field that is empty or blank.
pub open spec fn string_errors(s: Seq<char>, label: Seq<char>) -> Seq<Seq<char>> {
    if is_blank_seq(s) {
        seq![label + " value is not correct"@]
    } else {
        seq![]
    }
}

/// The error for a counted statistic below zero.
pub open spec fn number_errors(v: Option<i32>, label: Seq<char>) -> Seq<Seq<char>> {
    match v {
        Some(n) => if n < 0 {
            seq![label + " value must be a positive value"@]
        } else {
            seq![]
        },
        None => seq![],
    }
}

/// The error for a number of minutes below zero.
pub open spec fn minutes_errors(v: Option<Minutes>, label: Seq<char>) -> Seq<Seq<char>> {
    match v {
        Some(m) => if m.negative() {
            seq![label + " value must be a positive value"@]
        } else {
            seq![]
        },
        None => seq![],
    }
}

/// A counted statistic above zero.
pub open spec fn count_positive(v: Option<i32>) -> bool {
    v matches Some(n) && n > 0
}

/// The event carries at least one statistic above zero.
pub open spec fn has_positive_value(log: Log) -> bool {
    ||| count_positive(log.assists)
    ||| count_positive(log.blocks)
    ||| count_positive(log.fouls)
    ||| count_positive(log.points)
    ||| count_positive(log.rebounds)
    ||| count_positive(log.steals)
    ||| count_positive(log.turnovers)
    ||| log.minutes_played matches Some(m) && m.positive()
}

/// Every problem with an event, in the order they are reported: blank season, team and
/// player; negative statistics; and no statistic above zero at all.
pub open spec fn validation_errors(log: Log) -> Seq<Seq<char>> {
    string_errors(log.season@, "Season"@) + string_errors(log.team@, "Team"@) + string_errors(
        log.player@,
        "Player"@,
    ) + number_errors(log.assists, "Assists"@) + number_errors(log.blocks, "Blocks"@)
        + number_errors(log.fouls, "Fouls"@) + number_errors(log.points, "Points"@)
        + number_errors(log.rebounds, "Rebounds"@) + number_errors(log.steals, "Steals"@)
        + number_errors(log.turnovers, "Turnovers"@) + minutes_errors(
        log.minutes_played,
        "Minutes Played"@,
    ) + if has_positive_value(log) {
        seq![]
    } else {
        seq!["The Request contains no values"@]
    }
}

/// The Kafka key of an event: its season, team and player.
pub open spec fn kafka_key_of(log: Log) -> Seq<char> {
    "log-"@ + log.season@ + "-"@ + log.team@ + "-"@ + log.player@
}

/// `after` is `before` with season, team and player in normal form, all else kept.
pub open spec fn is_normal_form_of(after: Log, before: Log) -> bool {
    &&& after.season@ == normalized(before.season@)
    &&& after.team@ == normalized(before.team@)
    &&& after.player@ == normalized(before.player@)
    &&& after.points == before.points
    &&& after.rebounds == before.rebounds
    &&& after.assists == before.assists
    &&& after.steals == before.steals
    &&& after.blocks == before.blocks
    &&& after.fouls == before.fouls
    &&& after.turnovers == before.turnovers
    &&& after.minutes_played == before.minutes_played
}

/// A counted statistic below zero.
pub open spec fn count_negative(v: Option<i32>) -> bool {
    v matches Some(n) && n < 0
}

/// An event is accepted exactly when season, team and player are not blank, no statistic
/// is below zero, and at least one is above zero; zeros are allowed but do not count.
pub proof fn lemma_valid_iff(log: Log)
    ensures
        validation_errors(log).len() == 0 <==> {
            &&& !is_blank_seq(log.season@)
            &&& !is_blank_seq(log.team@)
            &&& !is_blank_seq(log.player@)
            &&& !count_negative(log.assists)
            &&& !count_negative(log.blocks)
            &&& !count_negative(log.fouls)
            &&& !count_negative(log.points)
            &&& !count_negative(log.rebounds)
            &&& !count_negative(log.steals)
            &&& !count_negative(log.turnovers)
            &&& !(log.minutes_played matches Some(m) && m.negative())
            &&& has_positive_value(log)
        },
{
}

/// One statistic above zero is enough: an event whose season, team and player are not
/// blank and whose statistics are none below zero is accepted as soon as any one of the
/// eight statistics (points, rebounds, assists, steals, blocks, fouls, turnovers or
/// minutes) is set above zero, whatever the others hold.
pub proof fn law_any_positive_statistic_is_enough(log: Log, n: i32, m: Minutes)
    requires
        !is_blank_seq(log.season@),
        !is_blank_seq(log.team@),
        !is_blank_seq(log.player@),
        !count_negative(log.points),
        !count_negative(log.rebounds),
        !count_negative(log.assists),
        !count_negative(log.steals),
        !count_negative(log.blocks),
        !count_negative(log.fouls),
        !count_negative(log.turnovers),
        !(log.minutes_played matches Some(k) && k.negative()),
        n > 0,
        m.positive(),
    ensures
        validation_errors(Log { points: Some(n), ..log }).len() == 0,
        validation_errors(Log { rebounds: Some(n), ..log }).len() == 0,
        validation_errors(Log { assists: Some(n), ..log }).len() == 0,
        validation_errors(Log { steals: Some(n), ..log }).len() == 0,
        validation_errors(Log { blocks: Some(n), ..log }).len() == 0,
        validation_errors(Log { fouls: Some(n), ..log }).len() == 0,
        validation_errors(Log { turnovers: Some(n), ..log }).len() == 0,
        validation_errors(Log { minutes_played: Some(m), ..log }).len() == 0,
{
}

/// Without any statistic above zero an event is refused, and the last problem reported is
/// that it contains no values.
pub proof fn law_no_positive_statistic_is_refused(log: Log)
    requires
        !(log.points matches Some(k) && k > 0),
        !(log.rebounds matches Some(k) && k > 0),
        !(log.assists matches Some(k) && k > 0),
        !(log.steals matches Some(k) && k > 0),
        !(log.blocks matches Some(k) && k > 0),
        !(log.fouls matches Some(k) && k > 0),
        !(log.turnovers matches Some(k) && k > 0),
        !(log.minutes_played matches Some(k) && k.positive()),
    ensures
        validation_errors(log).len() > 0,
        validation_errors(log).last() == "The Request contains no values"@,
{
}

fn push_message(errors: &mut Vec<String>, label: &str, suffix: &str)
    ensures
        views(final(errors)@) == views(old(errors)@).push(label@ + suffix@),
{
    let mut message = String::from_str(label);
    message.append(suffix);
    let ghost before = errors@;
    errors.push(message);
    assert(views(errors@) == views(before).push(label@ + suffix@));
}

impl Log {
    /// The Kafka key of this event, `log-{season}-{team}-{player}`.
    pub fn kafka_key(&self) -> (r: String)
        ensures
            r@ == kafka_key_of(*self),
    {
        let mut key = String::from_str("log-");
        key.append(self.season.as_str());
        key.append("-");
        key.append(self.team.as_str());
        key.append("-");
        key.append(self.player.as_str());
        key
    }

    /// Every problem with this event; the event is valid exactly when the list is empty.
    pub fn validate(&self) -> (r: Vec<String>)
        ensures
            views(r@) == validation_errors(*self),
    {
        let mut errors: Vec<String> = Vec::new();
        Self::check_string(self.season.as_str(), &mut errors, "Season");
        Self::check_string(self.team.as_str(), &mut errors, "Team");
        Self::check_string(self.player.as_str(), &mut errors, "Player");
        let mut empty = true;
        Self::check_number(self.assists, &mut errors, "Assists", &mut empty);
        Self::check_number(self.blocks, &mut errors, "Blocks", &mut empty);
        Self::check_number(self.fouls, &mut errors, "Fouls", &mut empty);
        Self::check_number(self.points, &mut errors, "Points", &mut empty);
        Self::check_number(self.rebounds, &mut errors, "Rebounds", &mut empty);
        Self::check_number(self.steals, &mut errors, "Steals", &mut empty);
        Self::check_number(self.turnovers, &mut errors, "Turnovers", &mut empty);
        Self::check_minutes(self.minutes_played, &mut errors, "Minutes Played", &mut empty);
        let ghost before = views(errors@);
        if empty {
            push_message(&mut errors, "The Request contains no values", "");
            proof {
                reveal_strlit("");
                assert("The Request contains no values"@ + ""@ == "The Request contains no values"@);
            }
        }
        assert(views(errors@) == before + if has_positive_value(*self) {
            Seq::<Seq<char>>::empty()
        } else {
            seq!["The Request contains no values"@]
        });
        assert(views(errors@) == validation_errors(*self));
        errors
    }

    /// Reports `label` when the text `s` is empty or blank.
    pub fn check_string(s: &str, errors: &mut Vec<String>, label: &str)
        ensures
            views(final(errors)@) == views(old(errors)@) + string_errors(s@, label@),
    {
        if is_blank(s) {
            push_message(errors, label, " value is not correct");
        }
    }

    /// Reports `label` when the statistic is below zero, and clears `empty` when it is
    /// above zero.
    pub fn check_number(opt: Option<i32>, errors: &mut Vec<String>, label: &str, empty: &mut bool)
        ensures
            views(final(errors)@) == views(old(errors)@) + number_errors(opt, label@),
            *final(empty) == (*old(empty) && !count_positive(opt)),
    {
        if let Some(value) = opt {
            if value > 0 {
                *empty = false;
            } else if value < 0 {
                push_message(errors, label, " value must be a positive value");
            }
        }
    }

    /// Reports `label` when the minutes are below zero, and clears `empty` when they are
    /// above zero.
    pub fn check_minutes(
        opt: Option<Minutes>,
        errors: &mut Vec<String>,
        label: &str,
        empty: &mut bool,
    )
        ensures
            views(final(errors)@) == views(old(errors)@) + minutes_errors(opt, label@),
            *final(empty) == (*old(empty) && !(opt matches Some(m) && m.positive())),
    {
        if let Some(value) = opt {
            if value.is_positive() {
                *empty = false;
            } else if value.is_negative() {
                push_message(errors, label, " value must be a positive value");
            }
        }
    }

    /// This event with season, team and player trimmed and upper-cased.
    pub fn normalized(self) -> (r: Log)
        ensures
            is_normal_form_of(r, self),
    {
        let season = normalize(self.season.as_str());
        let team = normalize(self.team.as_str());
        let player = normalize(self.player.as_str());
        Log { season, team, player, ..self }
    }
}

/// Accepts an event for publishing: an invalid one is refused with all of its problems,
/// one per line; a valid one comes back in normal form.
pub fn accept(log: Log) -> (r: Result<Log, String>)
    ensures
        r is Err <==> validation_errors(log).len() > 0,
        r matches Err(message) ==> message@ == joined(validation_errors(log), "\n"@),
        r matches Ok(accepted) ==> is_normal_form_of(accepted, log),
{
    let errors = log.validate();
    if errors.len() > 0 {
        Err(join(&errors, "\n"))
    } else {
        Ok(log.normalized())
    }
}

} // verus!
