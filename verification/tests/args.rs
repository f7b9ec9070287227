use tu::args::validators::{date, time};
use tu::args::{parse, parse_add, parse_rm, Action, Arguments, ParseError};
use tu::date::Date;
use tu::date_errors::DateError;
use tu::datetime::DateTime;

fn words(
    description: Option<&str>,
    date: Option<&str>,
    time: Option<&str>,
    id: Option<&str>,
    outdated: bool,
) -> Arguments {
    Arguments {
        description: description.map(String::from),
        date: date.map(String::from),
        time: time.map(String::from),
        id: id.map(String::from),
        outdated,
    }
}

#[test]
fn no_command_lists() {
    assert!(matches!(parse("", None), Ok(Action::List)));
    let given = words(Some("x"), Some("2030-01-01"), None, None, false);
    assert!(matches!(parse("", Some(&given)), Ok(Action::List)));
}

#[test]
fn unknown_commands_are_refused() {
    let given = words(Some("x"), Some("2030-01-01"), None, Some("a"), false);
    assert_eq!(parse("list", Some(&given)).err(), Some(ParseError::UnknownOption));
    assert_eq!(parse("ADD", Some(&given)).err(), Some(ParseError::UnknownOption));
    assert_eq!(parse("add ", Some(&given)).err(), Some(ParseError::UnknownOption));
    assert_eq!(parse("add", None).err(), Some(ParseError::UnknownOption));
    assert_eq!(parse("rm", None).err(), Some(ParseError::UnknownOption));
}

#[test]
fn add_wants_a_description_and_a_date() {
    let given = words(None, Some("2030-01-01"), None, None, false);
    assert_eq!(parse_add(&given).err(), Some(ParseError::MissingDescription));
    let given = words(None, None, None, None, false);
    assert_eq!(parse("add", Some(&given)).err(), Some(ParseError::MissingDescription));
    let given = words(Some("x"), None, Some("10:00"), None, false);
    assert_eq!(parse_add(&given).err(), Some(ParseError::MissingDate));
    let given = words(Some("x"), Some("2030-02-30"), None, None, false);
    assert_eq!(parse_add(&given).err(), Some(ParseError::InvalidDate));
    let given = words(Some("x"), Some("2030-02-03"), Some("10"), None, false);
    assert_eq!(parse_add(&given).err(), Some(ParseError::InvalidDate));
}

#[test]
fn add_reads_the_day_or_the_minute() {
    let given = words(Some("Pay rent"), Some("2030-01-01"), None, None, false);
    match parse("add", Some(&given)) {
        Ok(Action::Add(description, day)) => {
            assert_eq!(description, "Pay rent");
            assert_eq!(day, Date::new(2030, 1, 1).unwrap());
        }
        other => panic!("{:?}", other),
    }
    let given = words(Some("Call"), Some("2030-01-01"), Some("09:30"), None, false);
    match parse_add(&given) {
        Ok(Action::AddWithTime(description, moment)) => {
            assert_eq!(description, "Call");
            assert_eq!(moment, DateTime::new(2030, 1, 1, 9, 30).unwrap());
        }
        other => panic!("{:?}", other),
    }
}

#[test]
fn rm_names_an_event_or_the_outdated_ones() {
    let given = words(None, None, None, Some("cafe"), false);
    match parse("rm", Some(&given)) {
        Ok(Action::RemoveById(id)) => assert_eq!(id, "cafe"),
        other => panic!("{:?}", other),
    }
    let given = words(None, None, None, None, true);
    assert!(matches!(parse_rm(&given), Ok(Action::RemoveOutdated)));
    let given = words(None, None, None, Some("cafe"), true);
    assert!(matches!(parse_rm(&given), Ok(Action::RemoveOutdated)));
    let given = words(None, None, None, None, false);
    assert_eq!(parse_rm(&given).err(), Some(ParseError::MissingEventId));
}

#[test]
fn date_errors_become_parse_errors() {
    assert_eq!(ParseError::from(DateError::InvalidDate), ParseError::InvalidDate);
}

#[test]
fn validators_accept_dates_and_times() {
    assert_eq!(date(String::from("2020-02-29")), Ok(()));
    assert_eq!(date(String::from("2021-02-29")), Err(String::from("Invalid date: '2021-02-29'")));
    assert_eq!(date(String::from("")), Err(String::from("Invalid date: ''")));
    assert_eq!(time(String::from("23:59")), Ok(()));
    assert_eq!(time(String::from("24:00")), Err(String::from("Invalid time: '24:00'")));
    assert_eq!(time(String::from("noon")), Err(String::from("Invalid time: 'noon'")));
}
