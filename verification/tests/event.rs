use tu::date::Date;
use tu::datetime::DateTime;
use tu::event::{identifier, uuid, Event, EventError};
use tu::eventtype::{EventType, Remaining};

const EVE_OF_2030: i64 = 1_893_369_600;

#[test]
fn identifier_is_lower_case_hexadecimal() {
    assert_eq!(identifier(0), "0");
    assert_eq!(identifier(9), "9");
    assert_eq!(identifier(10), "a");
    assert_eq!(identifier(255), "ff");
    assert_eq!(identifier(0xa1b2), "a1b2");
    assert_eq!(identifier(0x0012_3456), "123456");
    assert_eq!(identifier(u32::MAX), "ffffffff");
    for bits in [1u32, 15, 16, 4095, 4096, 0xdead_beef, 0x8000_0000, 305_419_896] {
        assert_eq!(identifier(bits), format!("{:x}", bits));
    }
}

#[test]
fn fresh_identifiers_are_short_hexadecimal_words() {
    let mut seen = Vec::new();
    for _ in 0..32 {
        let id = uuid();
        assert!(!id.is_empty() && id.len() <= 8);
        assert!(id.chars().all(|c| c.is_ascii_digit() || ('a'..='f').contains(&c)));
        assert!(id == "0" || !id.starts_with('0'));
        let bits = u32::from_str_radix(&id, 16).unwrap();
        assert_eq!(identifier(bits), id);
        seen.push(id);
    }
    seen.sort();
    seen.dedup();
    assert!(seen.len() > 1);
}

#[test]
fn create_all_day_reads_the_date() {
    let event =
        Event::create_all_day("Pay rent", "2030-01-01", String::from("abc"), EVE_OF_2030).unwrap();
    assert_eq!(event.id, "abc");
    assert_eq!(event.description, "Pay rent");
    assert_eq!(event.due, EventType::AllDay(Date::new(2030, 1, 1).unwrap()));
}

#[test]
fn create_all_day_refuses_what_is_no_date() {
    match Event::create_all_day("Pay rent", "2030-02-30", String::from("abc"), 0) {
        Err(EventError::InvalidDate(text)) => assert_eq!(text, "2030-02-30"),
        other => panic!("{:?}", other),
    }
    match Event::create_all_day("Pay rent", "tomorrow", String::from("abc"), i64::MAX) {
        Err(EventError::InvalidDate(text)) => assert_eq!(text, "tomorrow"),
        other => panic!("{:?}", other),
    }
}

#[test]
fn create_all_day_refuses_a_day_that_is_over() {
    let last_second = Date::new(2030, 1, 1).unwrap().timestamp();
    assert!(Event::create_all_day("a", "2030-01-01", String::from("1"), last_second).is_ok());
    assert!(Event::create_all_day("a", "2030-01-01", String::from("1"), last_second - 86_399).is_ok());
    assert!(matches!(
        Event::create_all_day("a", "2030-01-01", String::from("1"), last_second + 1),
        Err(EventError::TooOld)
    ));
}

#[test]
fn create_timed_reads_date_and_time() {
    let event = Event::create_timed("Call", "2030-01-01", "09:30", String::from("f00"), EVE_OF_2030)
        .unwrap();
    assert_eq!(event.id, "f00");
    assert_eq!(event.description, "Call");
    assert_eq!(event.due, EventType::AtTime(DateTime::new(2030, 1, 1, 9, 30).unwrap()));
}

#[test]
fn create_timed_refuses_what_is_no_moment() {
    match Event::create_timed("Call", "2030-01-01", "25:00", String::from("f00"), 0) {
        Err(EventError::InvalidDate(text)) => assert_eq!(text, "2030-01-01 25:00"),
        other => panic!("{:?}", other),
    }
    match Event::create_timed("Call", "2030-13-01", "10:00", String::from("f00"), 0) {
        Err(EventError::InvalidDate(text)) => assert_eq!(text, "2030-13-01 10:00"),
        other => panic!("{:?}", other),
    }
}

#[test]
fn create_timed_refuses_a_minute_that_is_over() {
    let last_second = DateTime::new(2030, 1, 1, 9, 30).unwrap().timestamp();
    assert!(Event::create_timed("a", "2030-01-01", "09:30", String::from("1"), last_second).is_ok());
    assert!(matches!(
        Event::create_timed("a", "2030-01-01", "09:30", String::from("1"), last_second + 1),
        Err(EventError::TooOld)
    ));
}

#[test]
fn with_deadline_keeps_what_it_is_given() {
    let due = EventType::AllDay(Date::new(2999, 1, 1).unwrap());
    let event = Event::with_deadline("Far away", due, String::from("9"), 0).unwrap();
    assert_eq!((event.id.as_str(), event.description.as_str(), event.due), ("9", "Far away", due));
    assert!(matches!(
        Event::with_deadline("Far away", due, String::from("9"), i64::MAX),
        Err(EventError::TooOld)
    ));
}

#[test]
fn new_events_get_fresh_identifiers() {
    let far = Date::new(9999, 12, 31).unwrap();
    let event = Event::new_on_date("Far away", &far).unwrap();
    assert_eq!(event.description, "Far away");
    assert_eq!(event.due, EventType::AllDay(far));
    assert!(u32::from_str_radix(&event.id, 16).is_ok());
    let moment = DateTime::new(9999, 12, 31, 23, 59).unwrap();
    let timed = Event::new_on_date_time("Last minute", &moment).unwrap();
    assert_eq!(timed.due, EventType::AtTime(moment));
    assert!(matches!(
        Event::new_on_date("Long ago", &Date::new(2000, 1, 1).unwrap()),
        Err(EventError::TooOld)
    ));
    assert!(matches!(
        Event::new_on_date_time("Long ago", &DateTime::new(2000, 1, 1, 0, 0).unwrap()),
        Err(EventError::TooOld)
    ));
}

#[test]
fn events_are_ordered_by_their_deadlines_alone() {
    let early = Event::create_all_day("b", "2030-01-01", String::from("2"), 0).unwrap();
    let late = Event::create_all_day("a", "2030-01-02", String::from("1"), 0).unwrap();
    let twin = Event::create_all_day("z", "2030-01-01", String::from("3"), 0).unwrap();
    let same_second = Event::create_timed("y", "2030-01-01", "23:59", String::from("4"), 0).unwrap();
    assert!(early < late);
    assert!(late > early);
    assert!(early == twin);
    assert!(early == same_second);
    assert!(early != late);
    assert_eq!(early.partial_cmp(&late), Some(std::cmp::Ordering::Less));
    assert_eq!(early.partial_cmp(&twin), Some(std::cmp::Ordering::Equal));
    assert_eq!(late.partial_cmp(&twin), Some(std::cmp::Ordering::Greater));
}

#[test]
fn sort_key_is_the_last_second_of_the_deadline() {
    let day = EventType::AllDay(Date::new(2030, 1, 1).unwrap());
    let minute = EventType::AtTime(DateTime::new(2030, 1, 1, 0, 0).unwrap());
    assert_eq!(day.timestamp(), 1_893_542_399);
    assert_eq!(minute.timestamp(), 1_893_456_059);
    let october_second = EventType::AllDay(Date::new(2020, 10, 2).unwrap());
    let february_eleventh = EventType::AllDay(Date::new(2020, 2, 11).unwrap());
    assert!(february_eleventh.timestamp() < october_second.timestamp());
}

#[test]
fn remaining_is_days_for_a_day_and_days_and_hours_for_a_minute() {
    let day = EventType::AllDay(Date::new(2030, 1, 1).unwrap());
    let minute = EventType::AtTime(DateTime::new(2030, 1, 1, 12, 0).unwrap());
    assert_eq!(day.remaining(EVE_OF_2030), Some(Remaining::Days(1)));
    assert_eq!(minute.remaining(EVE_OF_2030), Some(Remaining::DaysAndHours(1, 12)));
    assert_eq!(day.remaining(day.timestamp()), Some(Remaining::Days(0)));
    assert_eq!(day.remaining(day.timestamp() + 1), None);
    assert_eq!(minute.remaining(minute.timestamp() + 1), None);
}

#[test]
fn labels_read_as_in_the_list() {
    assert_eq!(Remaining::Days(0).label(), "Today");
    assert_eq!(Remaining::Days(1).label(), "Tomorrow");
    assert_eq!(Remaining::Days(2).label(), "2d");
    assert_eq!(Remaining::Days(365).label(), "365d");
    assert_eq!(Remaining::Days(u64::MAX).label(), "18446744073709551615d");
    assert_eq!(Remaining::DaysAndHours(0, 0).label(), "0h");
    assert_eq!(Remaining::DaysAndHours(0, 5).label(), "5h");
    assert_eq!(Remaining::DaysAndHours(3, 5).label(), "3d 5h");
    assert_eq!(Remaining::DaysAndHours(10, 23).label(), "10d 23h");
}

#[test]
fn eta_at_reads_the_time_that_is_left() {
    let rent = Event::create_all_day("Pay rent", "2030-01-01", String::from("1"), 0).unwrap();
    assert_eq!(rent.eta_at(EVE_OF_2030), Some(String::from("Tomorrow")));
    assert_eq!(rent.eta_at(EVE_OF_2030 + 86_400), Some(String::from("Today")));
    assert_eq!(rent.eta_at(EVE_OF_2030 - 9 * 86_400), Some(String::from("10d")));
    assert_eq!(rent.eta_at(EVE_OF_2030 + 2 * 86_400), None);
    let call = Event::create_timed("Call", "2030-01-01", "12:00", String::from("2"), 0).unwrap();
    assert_eq!(call.eta_at(EVE_OF_2030), Some(String::from("1d 12h")));
    assert_eq!(call.eta_at(EVE_OF_2030 + 86_400), Some(String::from("12h")));
    assert_eq!(call.eta_at(EVE_OF_2030 + 2 * 86_400), None);
    let far = Event::create_all_day("Far", "9999-12-31", String::from("3"), 0).unwrap();
    assert!(far.eta().unwrap().ends_with('d'));
}
